//! The surface-syntax transform: a tree back to symbolic text (`pack`), and
//! symbolic text to keyword text (`unpack`).
use vstd::prelude::*;
use crate::ast::{names_view, term_char, views, AstView, FactorSymbol, AST};
use crate::config::{function_symbol, variable_symbol, Config};
use crate::text::{chars_of, decimal, push_char, push_decimal, push_str};
use crate::value::{value_views, Value, ValueView};

verus! {

/// Names joined by `, `: the first `n` of them.
pub open spec fn joined_names(ns: Seq<Seq<char>>, n: int) -> Seq<char>
    decreases n,
{
    if n <= 0 {
        Seq::empty()
    } else if n == 1 {
        ns[0]
    } else {
        joined_names(ns, n - 1) + seq![',', ' '] + ns[n - 1]
    }
}

/// `t` with a tab before each of its lines.
pub open spec fn indented(t: Seq<char>) -> Seq<char> {
    seq!['\t'] + indent_rest(t)
}

/// `t` with a tab after each newline.
pub open spec fn indent_rest(t: Seq<char>) -> Seq<char>
    decreases t.len(),
{
    if t.len() == 0 {
        t
    } else if t.last() == '\n' {
        indent_rest(t.drop_last()) + seq!['\n', '\t']
    } else {
        indent_rest(t.drop_last()).push(t.last())
    }
}

pub open spec fn factor_char(f: FactorSymbol) -> char {
    match f {
        FactorSymbol::Mul => '*',
        FactorSymbol::Div => '/',
    }
}

/// The symbolic text of a tree.
pub open spec fn packed(a: AstView) -> Seq<char>
    decreases a,
{
    match a {
        AstView::Block(stmts) => packed_statements(stmts, stmts.len() as int),
        AstView::VariableDefinition { name, value, .. } => variable_symbol() + seq![' '] + name
            + seq![' ', '=', ' '] + packed(*value),
        AstView::FunctionDefinition { name, params, body, .. } => function_symbol() + seq![' ']
            + name + seq!['('] + joined_names(params, params.len() as int) + seq![
            ')',
            ' ',
            '{',
            '\n',
        ] + indented(packed(*body)) + seq!['\n', '}'],
        AstView::FunctionCall { name, args } => name + seq!['('] + packed_args(
            args,
            args.len() as int,
        ) + seq![')'],
        AstView::Assignment { name, value } => name + seq![' ', '=', ' '] + packed(*value),
        AstView::Comment(text) => seq!['/', '/', ' '] + text,
        AstView::Term(l, op, r) => packed(*l) + seq![' ', term_char(op), ' '] + packed(*r),
        AstView::Factor(l, op, r) => packed(*l) + seq![' ', factor_char(op), ' '] + packed(*r),
        AstView::Unary(op, e) => seq![term_char(op)] + packed(*e),
        AstView::Group(e) => seq!['('] + packed(*e) + seq![')'],
        AstView::Number(n) => decimal(n),
        AstView::Str(s) => seq!['"'] + s + seq!['"'],
        AstView::Identifier(n) => n,
    }
}

/// The first `n` statements, each followed by `;`, with newlines between.
pub open spec fn packed_statements(stmts: Seq<AstView>, n: int) -> Seq<char>
    decreases stmts, n,
{
    if n <= 0 || n > stmts.len() {
        Seq::empty()
    } else if n == 1 {
        packed(stmts[0]) + seq![';']
    } else {
        packed_statements(stmts, n - 1) + seq!['\n'] + packed(stmts[n - 1]) + seq![';']
    }
}

/// The first `n` arguments joined by `, `.
pub open spec fn packed_args(args: Seq<AstView>, n: int) -> Seq<char>
    decreases args, n,
{
    if n <= 0 || n > args.len() {
        Seq::empty()
    } else if n == 1 {
        packed(args[0])
    } else {
        packed_args(args, n - 1) + seq![',', ' '] + packed(args[n - 1])
    }
}

/// Serializes a tree into the symbolic syntax.
pub fn pack(ast: &AST) -> (r: String)
    ensures
        r@ == packed(ast@),
    decreases ast,
{
    let mut out = String::new();
    match ast {
        AST::Block { statements } => {
            out = pack_statements(statements);
        },
        AST::VariableDefinition { name, value, .. } => {
            push_char(&mut out, '$');
            push_char(&mut out, ' ');
            push_str(&mut out, name.as_str());
            push_char(&mut out, ' ');
            push_char(&mut out, '=');
            push_char(&mut out, ' ');
            let v = pack(value);
            push_str(&mut out, v.as_str());
            assert(out@ =~= packed(ast@));
        },
        AST::FunctionDefinition { name, params, body, .. } => {
            push_char(&mut out, '#');
            push_char(&mut out, ' ');
            push_str(&mut out, name.as_str());
            push_char(&mut out, '(');
            let ps = join_names(params);
            push_str(&mut out, ps.as_str());
            push_char(&mut out, ')');
            push_char(&mut out, ' ');
            push_char(&mut out, '{');
            push_char(&mut out, '\n');
            let b = pack(body);
            let ib = indent(&b);
            push_str(&mut out, ib.as_str());
            push_char(&mut out, '\n');
            push_char(&mut out, '}');
            assert(out@ =~= packed(ast@));
        },
        AST::FunctionCall { name, args } => {
            push_str(&mut out, name.as_str());
            push_char(&mut out, '(');
            let a = pack_args(args);
            push_str(&mut out, a.as_str());
            push_char(&mut out, ')');
            assert(out@ =~= packed(ast@));
        },
        AST::Assignment { name, value } => {
            push_str(&mut out, name.as_str());
            push_char(&mut out, ' ');
            push_char(&mut out, '=');
            push_char(&mut out, ' ');
            let v = pack(value);
            push_str(&mut out, v.as_str());
            assert(out@ =~= packed(ast@));
        },
        AST::Comment { value } => {
            push_char(&mut out, '/');
            push_char(&mut out, '/');
            push_char(&mut out, ' ');
            push_str(&mut out, value.as_str());
            assert(out@ =~= packed(ast@));
        },
        AST::Term(l, op, r) => {
            let a = pack(l);
            push_str(&mut out, a.as_str());
            push_char(&mut out, ' ');
            push_char(&mut out, op.symbol());
            push_char(&mut out, ' ');
            let b = pack(r);
            push_str(&mut out, b.as_str());
            assert(out@ =~= packed(ast@));
        },
        AST::Factor(l, op, r) => {
            let a = pack(l);
            push_str(&mut out, a.as_str());
            push_char(&mut out, ' ');
            push_char(
                &mut out,
                match op {
                    FactorSymbol::Mul => '*',
                    FactorSymbol::Div => '/',
                },
            );
            push_char(&mut out, ' ');
            let b = pack(r);
            push_str(&mut out, b.as_str());
            assert(out@ =~= packed(ast@));
        },
        AST::Unary(op, e) => {
            push_char(&mut out, op.symbol());
            let a = pack(e);
            push_str(&mut out, a.as_str());
            assert(out@ =~= packed(ast@));
        },
        AST::Group(e) => {
            push_char(&mut out, '(');
            let a = pack(e);
            push_str(&mut out, a.as_str());
            push_char(&mut out, ')');
            assert(out@ =~= packed(ast@));
        },
        AST::Number(n) => {
            push_decimal(&mut out, *n);
            assert(out@ =~= packed(ast@));
        },
        AST::String(s) => {
            push_char(&mut out, '"');
            push_str(&mut out, s.as_str());
            push_char(&mut out, '"');
            assert(out@ =~= packed(ast@));
        },
        AST::Identifier(n) => {
            push_str(&mut out, n.as_str());
            assert(out@ =~= packed(ast@));
        },
    }
    out
}

fn pack_statements(stmts: &Vec<AST>) -> (r: String)
    ensures
        r@ == packed_statements(views(stmts@), stmts@.len() as int),
    decreases stmts,
{
    let ghost vs = views(stmts@);
    let mut out = String::new();
    let mut i: usize = 0;
    while i < stmts.len()
        invariant
            vs == views(stmts@),
            vs.len() == stmts@.len(),
            i <= stmts@.len(),
            out@ == packed_statements(vs, i as int),
        decreases stmts@.len() - i,
    {
        if i > 0 {
            push_char(&mut out, '\n');
        }
        let s = pack(&stmts[i]);
        push_str(&mut out, s.as_str());
        push_char(&mut out, ';');
        assert(vs[i as int] == stmts@[i as int]@);
        assert(out@ =~= packed_statements(vs, i + 1));
        i = i + 1;
    }
    out
}

fn pack_args(args: &Vec<AST>) -> (r: String)
    ensures
        r@ == packed_args(views(args@), args@.len() as int),
    decreases args,
{
    let ghost vs = views(args@);
    let mut out = String::new();
    let mut i: usize = 0;
    while i < args.len()
        invariant
            vs == views(args@),
            vs.len() == args@.len(),
            i <= args@.len(),
            out@ == packed_args(vs, i as int),
        decreases args@.len() - i,
    {
        if i > 0 {
            push_char(&mut out, ',');
            push_char(&mut out, ' ');
        }
        let s = pack(&args[i]);
        push_str(&mut out, s.as_str());
        assert(vs[i as int] == args@[i as int]@);
        assert(out@ =~= packed_args(vs, i + 1));
        i = i + 1;
    }
    out
}

fn join_names(names: &Vec<String>) -> (r: String)
    ensures
        r@ == joined_names(names_view(names@), names@.len() as int),
{
    let ghost ns = names_view(names@);
    let mut out = String::new();
    let mut i: usize = 0;
    while i < names.len()
        invariant
            ns == names_view(names@),
            i <= names@.len(),
            out@ == joined_names(ns, i as int),
        decreases names@.len() - i,
    {
        if i > 0 {
            push_char(&mut out, ',');
            push_char(&mut out, ' ');
        }
        push_str(&mut out, names[i].as_str());
        assert(out@ =~= joined_names(ns, i + 1));
        i = i + 1;
    }
    out
}

fn indent(s: &String) -> (r: String)
    ensures
        r@ == indented(s@),
{
    let cs = chars_of(s.as_str());
    let mut out = String::new();
    push_char(&mut out, '\t');
    let mut i: usize = 0;
    while i < cs.len()
        invariant
            cs@ == s@,
            i <= cs@.len(),
            out@ == seq!['\t'] + indent_rest(s@.subrange(0, i as int)),
        decreases cs@.len() - i,
    {
        assert(s@.subrange(0, i + 1).drop_last() =~= s@.subrange(0, i as int));
        if cs[i] == '\n' {
            push_char(&mut out, '\n');
            push_char(&mut out, '\t');
        } else {
            push_char(&mut out, cs[i]);
        }
        assert(out@ =~= seq!['\t'] + indent_rest(s@.subrange(0, i + 1)));
        i = i + 1;
    }
    assert(s@.subrange(0, cs@.len() as int) =~= s@);
    out
}

/// `s` with each variable sigil replaced by `variable` and each function
/// sigil by `function`.
pub open spec fn unpacked(s: Seq<char>, function: Seq<char>, variable: Seq<char>) -> Seq<char>
    decreases s.len(),
{
    if s.len() == 0 {
        s
    } else {
        unpacked(s.drop_last(), function, variable) + if s.last() == variable_symbol()[0] {
            variable
        } else if s.last() == function_symbol()[0] {
            function
        } else {
            seq![s.last()]
        }
    }
}

/// Rewrites the sigils of symbolic text into the configured keywords.
pub fn unpack(source: String, config: &Config) -> (r: String)
    ensures
        r@ == unpacked(source@, config.function_keyword@, config.variable_keyword@),
{
    let cs = chars_of(source.as_str());
    let ghost fk = config.function_keyword@;
    let ghost vk = config.variable_keyword@;
    let mut out = String::new();
    let mut i: usize = 0;
    while i < cs.len()
        invariant
            cs@ == source@,
            fk == config.function_keyword@,
            vk == config.variable_keyword@,
            i <= cs@.len(),
            out@ == unpacked(source@.subrange(0, i as int), fk, vk),
        decreases cs@.len() - i,
    {
        assert(source@.subrange(0, i + 1).drop_last() =~= source@.subrange(0, i as int));
        if cs[i] == '$' {
            push_str(&mut out, config.variable_keyword.as_str());
        } else if cs[i] == '#' {
            push_str(&mut out, config.function_keyword.as_str());
        } else {
            push_char(&mut out, cs[i]);
        }
        assert(out@ =~= unpacked(source@.subrange(0, i + 1), fk, vk));
        i = i + 1;
    }
    assert(source@.subrange(0, cs@.len() as int) =~= source@);
    out
}

/// The text of a value, as `print` shows it. The absent value shows as
/// nothing.
pub open spec fn rendered(v: ValueView) -> Seq<char>
    decreases v,
{
    match v {
        ValueView::Number(n) => decimal(n),
        ValueView::Str(s) => s,
        ValueView::Option(o) => match o {
            Some(b) => rendered(*b),
            None => Seq::empty(),
        },
        ValueView::List(items) => seq!['['] + rendered_items(items, items.len() as int) + seq![']'],
        ValueView::Function { params, .. } => seq!['f', 'n', '('] + joined_names(
            params,
            params.len() as int,
        ) + seq![')', ' ', '{', ' ', '.', '.', '.', ' ', '}'],
        ValueView::Native { params, .. } => seq!['f', 'n', '('] + joined_names(
            params,
            params.len() as int,
        ) + seq![')', ' ', '{', ' ', '[', 'n', 'a', 't', 'i', 'v', 'e', ']', ' ', '}'],
    }
}

/// The first `n` items rendered and joined by `, `.
pub open spec fn rendered_items(items: Seq<ValueView>, n: int) -> Seq<char>
    decreases items, n,
{
    if n <= 0 || n > items.len() {
        Seq::empty()
    } else if n == 1 {
        rendered(items[0])
    } else {
        rendered_items(items, n - 1) + seq![',', ' '] + rendered(items[n - 1])
    }
}

impl Value {
    /// The text of this value.
    pub fn render(&self) -> (r: String)
        ensures
            r@ == rendered(self@),
        decreases self,
    {
        let mut out = String::new();
        match self {
            Value::Number(n) => {
                push_decimal(&mut out, *n);
                assert(out@ =~= rendered(self@));
            },
            Value::String(s) => {
                push_str(&mut out, s.as_str());
                assert(out@ =~= rendered(self@));
            },
            Value::Option(o) => match o {
                Some(b) => {
                    out = b.render();
                },
                None => {},
            },
            Value::List(items) => {
                push_char(&mut out, '[');
                let inner = render_items(items);
                push_str(&mut out, inner.as_str());
                push_char(&mut out, ']');
                assert(out@ =~= rendered(self@));
            },
            Value::Function { args, .. } => {
                push_char(&mut out, 'f');
                push_char(&mut out, 'n');
                push_char(&mut out, '(');
                let ps = join_names(args);
                push_str(&mut out, ps.as_str());
                proof {
                    reveal_strlit(") { ... }");
                }
                push_str(&mut out, ") { ... }");
                assert(out@ =~= rendered(self@));
            },
            Value::RustFunction { args, .. } => {
                push_char(&mut out, 'f');
                push_char(&mut out, 'n');
                push_char(&mut out, '(');
                let ps = join_names(args);
                push_str(&mut out, ps.as_str());
                proof {
                    reveal_strlit(") { [native] }");
                }
                push_str(&mut out, ") { [native] }");
                assert(out@ =~= rendered(self@));
            },
        }
        out
    }
}

fn render_items(items: &Vec<Value>) -> (r: String)
    ensures
        r@ == rendered_items(value_views(items@), items@.len() as int),
    decreases items,
{
    let ghost vs = value_views(items@);
    let mut out = String::new();
    let mut i: usize = 0;
    while i < items.len()
        invariant
            vs == value_views(items@),
            vs.len() == items@.len(),
            i <= items@.len(),
            out@ == rendered_items(vs, i as int),
        decreases items@.len() - i,
    {
        if i > 0 {
            push_char(&mut out, ',');
            push_char(&mut out, ' ');
        }
        let s = items[i].render();
        push_str(&mut out, s.as_str());
        assert(vs[i as int] == items@[i as int]@);
        assert(out@ =~= rendered_items(vs, i + 1));
        i = i + 1;
    }
    out
}

} // verus!
