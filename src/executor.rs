//! The tree-walking evaluator.
use vstd::prelude::*;
use crate::ast::{copy_names, names_view, views, AstView, TermSymbol, AST};
use crate::config::{
    function_definition_character, function_symbol, variable_definition_character, variable_symbol,
};
use crate::environment::{assign_in, define_in, lookup, Environment};
use crate::text::str_eq;
use crate::token::{Token, TokenKind, TokenTypes};
use crate::value::{absent, lemma_value_views_push, value_views, ErrorView, ExecError, Value, ValueView};

verus! {

/// How deeply calls of script functions may nest.
pub const MAX_CALL_DEPTH: usize = 200;

/// What the evaluator needs from the program that embeds it.
pub trait Host {
    /// Runs the natively implemented function registered under `key` with
    /// the evaluated arguments. The innermost frame of `env` is the call's
    /// own; it is dropped when the call returns.
    fn call_native(&mut self, key: &String, args: Vec<Value>, env: &mut Environment) -> Value;

    /// Reports a definition spelled with a text keyword rather than its sigil.
    fn text_keyword(&mut self, keyword: &Token);
}

/// Whether a 64-bit signed integer holds `n`.
pub open spec fn fits(n: int) -> bool {
    i64::MIN <= n <= i64::MAX
}

/// `+` on two values.
pub open spec fn add_values(l: ValueView, r: ValueView) -> Result<ValueView, ErrorView> {
    match (l, r) {
        (ValueView::Number(a), ValueView::Number(b)) => if fits(a + b) {
            Ok(ValueView::Number(a + b))
        } else {
            Err(ErrorView::Overflow)
        },
        (ValueView::Str(a), ValueView::Str(b)) => Ok(ValueView::Str(a + b)),
        _ => Err(ErrorView::CannotAdd),
    }
}

/// `-` on two values.
pub open spec fn sub_values(l: ValueView, r: ValueView) -> Result<ValueView, ErrorView> {
    match (l, r) {
        (ValueView::Number(a), ValueView::Number(b)) => if fits(a - b) {
            Ok(ValueView::Number(a - b))
        } else {
            Err(ErrorView::Overflow)
        },
        _ => Err(ErrorView::CannotSubtract),
    }
}

/// A term's operator applied to two values.
pub open spec fn term_values(op: TermSymbol, l: ValueView, r: ValueView) -> Result<
    ValueView,
    ErrorView,
> {
    match op {
        TermSymbol::Add => add_values(l, r),
        TermSymbol::Sub => sub_values(l, r),
    }
}

/// A unary operator applied to a value.
pub open spec fn unary_value(op: TermSymbol, v: ValueView) -> Result<ValueView, ErrorView> {
    match v {
        ValueView::Number(n) => match op {
            TermSymbol::Add => Ok(ValueView::Number(n)),
            TermSymbol::Sub => if fits(-n) {
                Ok(ValueView::Number(-n))
            } else {
                Err(ErrorView::Overflow)
            },
        },
        _ => Err(ErrorView::CannotNegate),
    }
}

/// Whether a tree is an expression: evaluating it reads the frames and
/// changes nothing.
pub open spec fn is_expression(e: AstView) -> bool
    decreases e,
{
    match e {
        AstView::Term(l, _, r) => is_expression(*l) && is_expression(*r),
        AstView::Unary(_, x) => is_expression(*x),
        AstView::Factor(..) | AstView::Group(_) | AstView::Number(_) | AstView::Str(_)
        | AstView::Identifier(_) => true,
        _ => false,
    }
}

/// The value of an expression in the given frames.
pub open spec fn eval(e: AstView, frames: Seq<Map<Seq<char>, ValueView>>) -> Result<
    ValueView,
    ErrorView,
>
    decreases e,
{
    match e {
        AstView::Term(l, op, r) => match eval(*l, frames) {
            Ok(a) => match eval(*r, frames) {
                Ok(b) => term_values(op, a, b),
                Err(x) => Err(x),
            },
            Err(x) => Err(x),
        },
        AstView::Unary(op, x) => match eval(*x, frames) {
            Ok(v) => unary_value(op, v),
            Err(x) => Err(x),
        },
        AstView::Number(n) => Ok(ValueView::Number(n)),
        AstView::Str(s) => Ok(ValueView::Str(s)),
        AstView::Identifier(n) => match lookup(frames, n) {
            Some(v) => Ok(v),
            None => Err(ErrorView::UndefinedVariable(n)),
        },
        _ => Err(ErrorView::Unevaluated),
    }
}

/// A result with its values and errors seen as mathematical values.
pub open spec fn outcome(r: Result<Value, ExecError>) -> Result<ValueView, ErrorView> {
    match r {
        Ok(v) => Ok(v@),
        Err(e) => Err(e@),
    }
}

/// What a call does before its body or native function runs, if it stops
/// there: an error, by what `name` is bound to and how many arguments
/// there are.
pub open spec fn call_error(
    frames: Seq<Map<Seq<char>, ValueView>>,
    name: Seq<char>,
    n_args: nat,
) -> Option<ErrorView> {
    match lookup(frames, name) {
        None => Some(ErrorView::UndefinedFunction(name)),
        Some(ValueView::Function { params, .. }) => if n_args > params.len() {
            Some(ErrorView::TooManyArguments(name))
        } else {
            None
        },
        Some(ValueView::Native { params, .. }) => if n_args > params.len() {
            Some(ErrorView::TooManyArguments(name))
        } else {
            None
        },
        Some(_) => Some(ErrorView::NotCallable(name)),
    }
}

/// The frames after binding the first `n` parameters to the first `n`
/// values in the innermost frame.
pub open spec fn bind(
    frames: Seq<Map<Seq<char>, ValueView>>,
    params: Seq<Seq<char>>,
    vals: Seq<ValueView>,
    n: int,
) -> Seq<Map<Seq<char>, ValueView>>
    decreases n,
{
    if n <= 0 {
        frames
    } else {
        define_in(bind(frames, params, vals, n - 1), params[n - 1], vals[n - 1])
    }
}

/// Something the evaluator asked of its host.
pub enum Event {
    /// The advisory for a definition spelled with this keyword token rather
    /// than its sigil.
    Advisory(TokenKind),
    /// A call of the native function registered under `key` with the
    /// argument values `args`, and what it came to: its reply with the frames
    /// once the call's own frame is dropped, or the error raised because the
    /// host left the frame stack changed.
    Native {
        key: Seq<char>,
        args: Seq<ValueView>,
        outcome: Result<(ValueView, Seq<Map<Seq<char>, ValueView>>), ErrorView>,
    },
}

/// Whether `l` begins with `p`.
pub open spec fn extends(l: Seq<Event>, p: Seq<Event>) -> bool {
    p.len() <= l.len() && forall|k: int| 0 <= k < p.len() ==> #[trigger] l[k] == p[k]
}

/// Whether a definition's keyword is a word rather than the sigil.
pub open spec fn is_word(keyword: TokenKind, sigil: Seq<char>) -> bool {
    keyword is Identifier && keyword->Identifier_0 != sigil
}

/// Where the log goes on after the advisory that a definition with
/// `keyword` raises, if any; `None` if the log does not record it at `at`.
pub open spec fn advised(keyword: TokenKind, sigil: Seq<char>, log: Seq<Event>, at: int) -> Option<
    int,
> {
    if is_word(keyword, sigil) {
        if 0 <= at < log.len() && log[at] == Event::Advisory(keyword) {
            Some(at + 1)
        } else {
            None
        }
    } else {
        Some(at)
    }
}

/// A run's result with the frames after it.
pub open spec fn result_of(r: Result<Value, ExecError>, after: Seq<Map<Seq<char>, ValueView>>) -> Result<
    (ValueView, Seq<Map<Seq<char>, ValueView>>),
    ErrorView,
> {
    match r {
        Ok(v) => Ok((v@, after)),
        Err(e) => Err(e@),
    }
}

/// What evaluating `a` in `frames` gives, with calls of script functions
/// nested at most `fuel` deep, where the host's part is read from `log`
/// from position `at` on: the value and the frames after it, or the error,
/// with the position after the events the evaluation made. `None` where the
/// log does not record the advisory or the native call that comes next.
pub open spec fn sem(
    a: AstView,
    frames: Seq<Map<Seq<char>, ValueView>>,
    fuel: nat,
    log: Seq<Event>,
    at: int,
) -> Option<(Result<(ValueView, Seq<Map<Seq<char>, ValueView>>), ErrorView>, int)>
    decreases fuel, a, 0int,
{
    match a {
        AstView::Block(stmts) => sem_block(stmts, 0, absent(), frames, fuel, log, at),
        AstView::VariableDefinition { name, value, keyword } => match advised(
            keyword,
            variable_symbol(),
            log,
            at,
        ) {
            None => None,
            Some(a1) => match sem(*value, frames, fuel, log, a1) {
                Some((Ok((v, g)), a2)) => Some((Ok((absent(), define_in(g, name, v))), a2)),
                other => other,
            },
        },
        AstView::FunctionDefinition { name, params, body, keyword } => match advised(
            keyword,
            function_symbol(),
            log,
            at,
        ) {
            None => None,
            Some(a1) => Some(
                (
                    Ok(
                        (
                            absent(),
                            define_in(frames, name, ValueView::Function { params, body: *body }),
                        ),
                    ),
                    a1,
                ),
            ),
        },
        AstView::FunctionCall { name, args } => match call_error(frames, name, args.len()) {
            Some(x) => Some((Err(x), at)),
            None => match lookup(frames, name) {
                Some(ValueView::Function { params, body }) => if fuel == 0 {
                    Some((Err(ErrorView::TooDeep), at))
                } else {
                    match sem_args(args, 0, Seq::empty(), frames, fuel, log, at) {
                        Some((Ok((vals, g)), a1)) => match sem(
                            body,
                            bind(g.push(Map::empty()), params, vals, vals.len() as int),
                            (fuel - 1) as nat,
                            log,
                            a1,
                        ) {
                            Some((Ok((v, h)), a2)) => Some(
                                (Ok((v, h.subrange(0, g.len() as int))), a2),
                            ),
                            other => other,
                        },
                        Some((Err(x), a1)) => Some((Err(x), a1)),
                        None => None,
                    }
                },
                Some(ValueView::Native { key, .. }) => match sem_args(
                    args,
                    0,
                    Seq::empty(),
                    frames,
                    fuel,
                    log,
                    at,
                ) {
                    Some((Ok((vals, g)), a1)) => if 0 <= a1 < log.len() && log[a1] is Native
                        && log[a1]->Native_key == key && log[a1]->Native_args == vals {
                        Some((log[a1]->Native_outcome, a1 + 1))
                    } else {
                        None
                    },
                    Some((Err(x), a1)) => Some((Err(x), a1)),
                    None => None,
                },
                _ => None,
            },
        },
        AstView::Assignment { name, value } => match sem(*value, frames, fuel, log, at) {
            Some((Ok((v, g)), a1)) => match assign_in(g, name, v) {
                Some(h) => Some((Ok((absent(), h)), a1)),
                None => Some((Err(ErrorView::UndefinedVariable(name)), a1)),
            },
            other => other,
        },
        AstView::Comment(_) => Some((Ok((absent(), frames)), at)),
        AstView::Term(l, op, r) => match sem(*l, frames, fuel, log, at) {
            Some((Ok((x, g)), a1)) => match sem(*r, g, fuel, log, a1) {
                Some((Ok((y, h)), a2)) => match term_values(op, x, y) {
                    Ok(v) => Some((Ok((v, h)), a2)),
                    Err(e) => Some((Err(e), a2)),
                },
                other => other,
            },
            other => other,
        },
        AstView::Unary(op, x) => match sem(*x, frames, fuel, log, at) {
            Some((Ok((v, g)), a1)) => match unary_value(op, v) {
                Ok(w) => Some((Ok((w, g)), a1)),
                Err(e) => Some((Err(e), a1)),
            },
            other => other,
        },
        AstView::Number(n) => Some((Ok((ValueView::Number(n), frames)), at)),
        AstView::Str(s) => Some((Ok((ValueView::Str(s), frames)), at)),
        AstView::Identifier(n) => match lookup(frames, n) {
            Some(v) => Some((Ok((v, frames)), at)),
            None => Some((Err(ErrorView::UndefinedVariable(n)), at)),
        },
        _ => Some((Err(ErrorView::Unevaluated), at)),
    }
}

/// The statements of a block from the `i`-th on, after a last result
/// `last`: the result of the last statement, or `last` if none is left.
pub open spec fn sem_block(
    stmts: Seq<AstView>,
    i: int,
    last: ValueView,
    frames: Seq<Map<Seq<char>, ValueView>>,
    fuel: nat,
    log: Seq<Event>,
    at: int,
) -> Option<(Result<(ValueView, Seq<Map<Seq<char>, ValueView>>), ErrorView>, int)>
    decreases fuel, stmts, stmts.len() - i,
{
    if i < 0 || i >= stmts.len() {
        Some((Ok((last, frames)), at))
    } else {
        match sem(stmts[i], frames, fuel, log, at) {
            Some((Ok((v, g)), a1)) => sem_block(stmts, i + 1, v, g, fuel, log, a1),
            other => other,
        }
    }
}

/// The arguments of a call from the `i`-th on, left to right, after the
/// values `acc` of those before.
pub open spec fn sem_args(
    args: Seq<AstView>,
    i: int,
    acc: Seq<ValueView>,
    frames: Seq<Map<Seq<char>, ValueView>>,
    fuel: nat,
    log: Seq<Event>,
    at: int,
) -> Option<(Result<(Seq<ValueView>, Seq<Map<Seq<char>, ValueView>>), ErrorView>, int)>
    decreases fuel, args, args.len() - i,
{
    if i < 0 || i >= args.len() {
        Some((Ok((acc, frames)), at))
    } else {
        match sem(args[i], frames, fuel, log, at) {
            Some((Ok((v, g)), a1)) => sem_args(args, i + 1, acc.push(v), g, fuel, log, a1),
            Some((Err(x), a1)) => Some((Err(x), a1)),
            None => None,
        }
    }
}

fn add_pair(l: &Value, r: &Value) -> (res: Result<Value, ExecError>)
    ensures
        outcome(res) == add_values(l@, r@),
{
    match (l, r) {
        (Value::Number(a), Value::Number(b)) => match a.checked_add(*b) {
            Some(n) => Ok(Value::Number(n)),
            None => Err(ExecError::Overflow),
        },
        (Value::String(a), Value::String(b)) => {
            let s = a.clone().concat(b.as_str());
            Ok(Value::String(s))
        },
        _ => Err(ExecError::CannotAdd),
    }
}

fn subtract(l: &Value, r: &Value) -> (res: Result<Value, ExecError>)
    ensures
        outcome(res) == sub_values(l@, r@),
{
    match (l, r) {
        (Value::Number(a), Value::Number(b)) => match a.checked_sub(*b) {
            Some(n) => Ok(Value::Number(n)),
            None => Err(ExecError::Overflow),
        },
        _ => Err(ExecError::CannotSubtract),
    }
}

/// A term's operator applied to two values.
pub fn apply_term(op: TermSymbol, l: &Value, r: &Value) -> (res: Result<Value, ExecError>)
    ensures
        outcome(res) == term_values(op, l@, r@),
{
    match op {
        TermSymbol::Add => add_pair(l, r),
        TermSymbol::Sub => subtract(l, r),
    }
}

/// A unary operator applied to a value.
pub fn apply_unary(op: TermSymbol, v: &Value) -> (res: Result<Value, ExecError>)
    ensures
        outcome(res) == unary_value(op, v@),
{
    match v {
        Value::Number(n) => match op {
            TermSymbol::Add => Ok(Value::Number(*n)),
            TermSymbol::Sub => match 0i64.checked_sub(*n) {
                Some(m) => Ok(Value::Number(m)),
                None => Err(ExecError::Overflow),
            },
        },
        _ => Err(ExecError::CannotNegate),
    }
}

/// The host together with a record of what the evaluator asked of it.
pub struct Session<H: Host> {
    pub host: H,
    /// Every advisory raised and every native call made, in order.
    pub log: Ghost<Seq<Event>>,
}

impl<H: Host> Session<H> {
    /// A session with an empty record.
    pub fn new(host: H) -> (r: Session<H>)
        ensures
            r.log@ == Seq::<Event>::empty(),
    {
        Session { host, log: Ghost(Seq::empty()) }
    }

    /// Raises the advisory for `keyword` with the host.
    fn advise(&mut self, keyword: &Token)
        ensures
            final(self).log@ == old(self).log@.push(Event::Advisory(keyword.token_type@)),
    {
        self.host.text_keyword(keyword);
        self.log = Ghost(self.log@.push(Event::Advisory(keyword.token_type@)));
    }

    /// Calls the native function registered under `key` in a new innermost
    /// frame, and drops that frame again.
    fn call_native(&mut self, key: &String, args: Vec<Value>, env: &mut Environment) -> (r: Result<
        Value,
        ExecError,
    >)
        requires
            old(env).wf(),
        ensures
            r is Ok ==> final(env).wf() && final(env)@.len() == old(env)@.len(),
            final(self).log@ == old(self).log@.push(
                Event::Native {
                    key: key@,
                    args: value_views(args@),
                    outcome: result_of(r, final(env)@),
                },
            ),
    {
        let ghost vals = value_views(args@);
        let base = env.depth();
        env.enter();
        let v = self.host.call_native(key, args, env);
        let r = if env.is_well_formed() && env.depth() > base && env.depth() - 1 == base {
            env.leave_to(base);
            Ok(v)
        } else {
            Err(ExecError::FrameStackChanged)
        };
        self.log = Ghost(
            self.log@.push(
                Event::Native { key: key@, args: vals, outcome: result_of(r, env@) },
            ),
        );
        r
    }
}

/// Raises the advisory when a definition's keyword is a word rather than
/// `sigil`.
fn note_keyword<H: Host>(keyword_token: &Token, sigil: &str, session: &mut Session<H>)
    ensures
        final(session).log@ == if is_word(keyword_token.token_type@, sigil@) {
            old(session).log@.push(Event::Advisory(keyword_token.token_type@))
        } else {
            old(session).log@
        },
{
    if let TokenTypes::Identifier { value } = &keyword_token.token_type {
        if !str_eq(value.as_str(), sigil) {
            session.advise(keyword_token);
        }
    }
}

/// Evaluates `code` in `env`: the result of a program is that of its last
/// statement. Calls of script functions may nest `MAX_CALL_DEPTH` deep.
/// The record of `session` grows by exactly the advisories and native calls
/// that `sem` reads, and the result is the one `sem` gives over them.
pub fn execute<H: Host>(code: &AST, env: &mut Environment, session: &mut Session<H>) -> (r: Result<
    Value,
    ExecError,
>)
    requires
        old(env).wf(),
    ensures
        r is Ok ==> final(env).wf() && final(env)@.len() == old(env)@.len(),
        extends(final(session).log@, old(session).log@),
        sem(
            code@,
            old(env)@,
            MAX_CALL_DEPTH as nat,
            final(session).log@,
            old(session).log@.len() as int,
        ) == Some((result_of(r, final(env)@), final(session).log@.len() as int)),
        is_expression(code@) ==> outcome(r) == eval(code@, old(env)@) && *final(env) == *old(env)
            && final(session).log@ == old(session).log@,
        code@ is FunctionCall ==> match call_error(
            old(env)@,
            code@->FunctionCall_name,
            code@->FunctionCall_args.len(),
        ) {
            Some(x) => outcome(r) == Err::<ValueView, ErrorView>(x) && *final(env) == *old(env)
                && *final(session) == *old(session),
            None => true,
        },
{
    let r = run(code, env, session, MAX_CALL_DEPTH);
    assert(extends(session.log@, session.log@));
    r
}

fn run<H: Host>(code: &AST, env: &mut Environment, session: &mut Session<H>, fuel: usize) -> (r: Result<
    Value,
    ExecError,
>)
    requires
        old(env).wf(),
    ensures
        r is Ok ==> final(env).wf() && final(env)@.len() == old(env)@.len(),
        extends(final(session).log@, old(session).log@),
        forall|l: Seq<Event>|
            #[trigger] extends(l, final(session).log@) ==> sem(
                code@,
                old(env)@,
                fuel as nat,
                l,
                old(session).log@.len() as int,
            ) == Some((result_of(r, final(env)@), final(session).log@.len() as int)),
        is_expression(code@) ==> outcome(r) == eval(code@, old(env)@) && *final(env) == *old(env)
            && final(session).log@ == old(session).log@,
        code@ is FunctionCall ==> match call_error(
            old(env)@,
            code@->FunctionCall_name,
            code@->FunctionCall_args.len(),
        ) {
            Some(x) => outcome(r) == Err::<ValueView, ErrorView>(x) && *final(env) == *old(env)
                && *final(session) == *old(session),
            None => true,
        },
    decreases fuel, code,
{
    let ghost env0 = env@;
    let ghost log0 = session.log@;
    let ghost at0 = session.log@.len() as int;
    match code {
        AST::Block { statements } => {
            assert(views(statements@).len() == statements@.len());
            run_block(statements, env, session, fuel)
        },
        AST::VariableDefinition { name, value, keyword_token } => {
            note_keyword(keyword_token, variable_definition_character(), session);
            let ghost log1 = session.log@;
            let ghost at1 = session.log@.len() as int;
            match run(value, env, session, fuel) {
                Ok(v) => {
                    env.define(name.as_str(), v);
                    let r: Result<Value, ExecError> = Ok(Value::none());
                    assert forall|l: Seq<Event>| #[trigger]
                        extends(l, session.log@) implies sem(code@, env0, fuel as nat, l, at0)
                        == Some((result_of(r, env@), session.log@.len() as int)) by {
                        assert(extends(l, log1));
                        assert(advised(keyword_token.token_type@, variable_symbol(), l, at0) == Some(at1));
                    }
                    r
                },
                Err(e) => {
                    let r: Result<Value, ExecError> = Err(e);
                    assert forall|l: Seq<Event>| #[trigger]
                        extends(l, session.log@) implies sem(code@, env0, fuel as nat, l, at0)
                        == Some((result_of(r, env@), session.log@.len() as int)) by {
                        assert(extends(l, log1));
                        assert(advised(keyword_token.token_type@, variable_symbol(), l, at0) == Some(at1));
                    }
                    r
                },
            }
        },
        AST::FunctionDefinition { name, params, body, keyword_token } => {
            note_keyword(keyword_token, function_definition_character(), session);
            let f = Value::Function { args: copy_names(params), body: Box::new(body.duplicate()) };
            env.define(name.as_str(), f);
            let r: Result<Value, ExecError> = Ok(Value::none());
            assert forall|l: Seq<Event>| #[trigger]
                extends(l, session.log@) implies sem(code@, env0, fuel as nat, l, at0) == Some(
                (result_of(r, env@), session.log@.len() as int),
            ) by {
                assert(advised(keyword_token.token_type@, function_symbol(), l, at0) == Some(
                    session.log@.len() as int,
                ));
            }
            r
        },
        AST::FunctionCall { name, args } => {
            assert(views(args@).len() == args@.len());
            run_call(name, args, env, session, fuel)
        },
        AST::Assignment { name, value } => match run(value, env, session, fuel) {
            Ok(v) => match env.assign(name.as_str(), v) {
                Ok(()) => Ok(Value::none()),
                Err(e) => Err(e),
            },
            Err(e) => Err(e),
        },
        AST::Comment { .. } => Ok(Value::none()),
        AST::Term(l, op, r) => {
            match run(l, env, session, fuel) {
                Ok(a) => {
                    let ghost env1 = env@;
                    let ghost log1 = session.log@;
                    match run(r, env, session, fuel) {
                        Ok(b) => {
                            let res = apply_term(*op, &a, &b);
                            assert forall|q: Seq<Event>| #[trigger]
                                extends(q, session.log@) implies sem(code@, env0, fuel as nat, q, at0)
                                == Some((result_of(res, env@), session.log@.len() as int)) by {
                                assert(extends(q, log1));
                            }
                            res
                        },
                        Err(e) => {
                            let res: Result<Value, ExecError> = Err(e);
                            assert forall|q: Seq<Event>| #[trigger]
                                extends(q, session.log@) implies sem(code@, env0, fuel as nat, q, at0)
                                == Some((result_of(res, env@), session.log@.len() as int)) by {
                                assert(extends(q, log1));
                            }
                            res
                        },
                    }
                },
                Err(e) => Err(e),
            }
        },
        AST::Factor(..) => Err(ExecError::Unevaluated),
        AST::Group(_) => Err(ExecError::Unevaluated),
        AST::Unary(op, x) => match run(x, env, session, fuel) {
            Ok(v) => apply_unary(*op, &v),
            Err(e) => Err(e),
        },
        AST::Number(n) => Ok(Value::Number(*n)),
        AST::String(s) => Ok(Value::String(s.clone())),
        AST::Identifier(n) => match env.get(n.as_str()) {
            Some(v) => Ok(v),
            None => Err(ExecError::UndefinedVariable(n.clone())),
        },
    }
}

fn run_block<H: Host>(
    statements: &Vec<AST>,
    env: &mut Environment,
    session: &mut Session<H>,
    fuel: usize,
) -> (r: Result<Value, ExecError>)
    requires
        old(env).wf(),
    ensures
        r is Ok ==> final(env).wf() && final(env)@.len() == old(env)@.len(),
        extends(final(session).log@, old(session).log@),
        forall|l: Seq<Event>|
            #[trigger] extends(l, final(session).log@) ==> sem_block(
                views(statements@),
                0,
                absent(),
                old(env)@,
                fuel as nat,
                l,
                old(session).log@.len() as int,
            ) == Some((result_of(r, final(env)@), final(session).log@.len() as int)),
        statements@.len() == 0 ==> outcome(r) == Ok::<ValueView, ErrorView>(absent())
            && *final(env) == *old(env) && *final(session) == *old(session),
    decreases fuel, statements,
{
    let ghost vs = views(statements@);
    let ghost env0 = env@;
    let ghost log0 = session.log@;
    let ghost at0 = session.log@.len() as int;
    let mut result = Value::none();
    let mut i: usize = 0;
    while i < statements.len()
        invariant
            env.wf(),
            env@.len() == env0.len(),
            i <= statements@.len(),
            vs == views(statements@),
            vs.len() == statements@.len(),
            extends(session.log@, log0),
            at0 == log0.len(),
            env0 == old(env)@,
            log0 == old(session).log@,
            forall|l: Seq<Event>|
                #[trigger] extends(l, session.log@) ==> sem_block(vs, 0, absent(), env0, fuel as nat, l, at0)
                    == sem_block(vs, i as int, result@, env@, fuel as nat, l, session.log@.len() as int),
            statements@.len() == 0 ==> *env == *old(env) && result@ == absent() && *session
                == *old(session),
        decreases statements@.len() - i,
    {
        assert(vs[i as int] == statements@[i as int]@);
        let ghost env1 = env@;
        let ghost log1 = session.log@;
        let ghost res1 = result@;
        match run(&statements[i], env, session, fuel) {
            Ok(v) => {
                result = v;
                assert forall|l: Seq<Event>| #[trigger]
                    extends(l, session.log@) implies sem_block(vs, 0, absent(), env0, fuel as nat, l, at0)
                    == sem_block(vs, i + 1, result@, env@, fuel as nat, l, session.log@.len() as int) by {
                    assert(extends(l, log1));
                }
            },
            Err(e) => {
                let r: Result<Value, ExecError> = Err(e);
                assert forall|l: Seq<Event>| #[trigger]
                    extends(l, session.log@) implies sem_block(vs, 0, absent(), env0, fuel as nat, l, at0)
                    == Some((result_of(r, env@), session.log@.len() as int)) by {
                    assert(extends(l, log1));
                }
                return r;
            },
        }
        i = i + 1;
    }
    Ok(result)
}

fn run_call<H: Host>(
    name: &String,
    args: &Vec<AST>,
    env: &mut Environment,
    session: &mut Session<H>,
    fuel: usize,
) -> (r: Result<Value, ExecError>)
    requires
        old(env).wf(),
    ensures
        r is Ok ==> final(env).wf() && final(env)@.len() == old(env)@.len(),
        match call_error(old(env)@, name@, args@.len()) {
            Some(x) => outcome(r) == Err::<ValueView, ErrorView>(x) && *final(env) == *old(env)
                && *final(session) == *old(session),
            None => true,
        },
        extends(final(session).log@, old(session).log@),
        forall|l: Seq<Event>|
            #[trigger] extends(l, final(session).log@) ==> sem(
                AstView::FunctionCall { name: name@, args: views(args@) },
                old(env)@,
                fuel as nat,
                l,
                old(session).log@.len() as int,
            ) == Some((result_of(r, final(env)@), final(session).log@.len() as int)),
    decreases fuel, args,
{
    let ghost env0 = env@;
    let ghost log0 = session.log@;
    let ghost at0 = session.log@.len() as int;
    let ghost vs = views(args@);
    let ghost call = AstView::FunctionCall { name: name@, args: vs };
    let callee = env.get(name.as_str());
    match callee {
        None => Err(ExecError::UndefinedFunction(name.clone())),
        Some(Value::Function { args: params, body }) => {
            if args.len() > params.len() {
                return Err(ExecError::TooManyArguments(name.clone()));
            }
            if fuel == 0 {
                return Err(ExecError::TooDeep);
            }
            let mut values: Vec<Value> = Vec::new();
            let mut i: usize = 0;
            assert(value_views(values@) =~= Seq::<ValueView>::empty());
            while i < args.len()
                invariant
                    env.wf(),
                    env@.len() == env0.len(),
                    call_error(env0, name@, args@.len()) is None,
                    lookup(env0, name@) == Some(
                        ValueView::Function { params: names_view(params@), body: body@ },
                    ),
                    fuel > 0,
                    i <= args@.len(),
                    values@.len() == i,
                    vs == views(args@),
                    vs.len() == args@.len(),
                    extends(session.log@, log0),
                    at0 == log0.len(),
                    env0 == old(env)@,
                    log0 == old(session).log@,
                    call == (AstView::FunctionCall { name: name@, args: vs }),
                    forall|l: Seq<Event>|
                        #[trigger] extends(l, session.log@) ==> sem_args(vs, 0, Seq::empty(), env0, fuel as nat, l, at0)
                            == sem_args(vs, i as int, value_views(values@), env@, fuel as nat, l, session.log@.len() as int),
                decreases args@.len() - i,
            {
                assert(vs[i as int] == args@[i as int]@);
                let ghost log1 = session.log@;
                match run(&args[i], env, session, fuel) {
                    Ok(v) => {
                        proof {
                            lemma_value_views_push(values@, v);
                        }
                        values.push(v);
                        assert forall|l: Seq<Event>| #[trigger]
                            extends(l, session.log@) implies sem_args(vs, 0, Seq::empty(), env0, fuel as nat, l, at0)
                            == sem_args(vs, i + 1, value_views(values@), env@, fuel as nat, l, session.log@.len() as int) by {
                            assert(extends(l, log1));
                        }
                    },
                    Err(e) => {
                        let r: Result<Value, ExecError> = Err(e);
                        assert forall|l: Seq<Event>| #[trigger]
                            extends(l, session.log@) implies sem(call, env0, fuel as nat, l, at0)
                            == Some((result_of(r, env@), session.log@.len() as int)) by {
                            assert(extends(l, log1));
                        }
                        return r;
                    },
                }
                i = i + 1;
            }
            let ghost g = env@;
            let ghost vals = value_views(values@);
            let ghost ps = names_view(params@);
            let ghost log2 = session.log@;
            let base = env.depth();
            env.enter();
            let mut k: usize = 0;
            while k < values.len()
                invariant
                    env.wf(),
                    env@.len() == base + 1,
                    base == g.len(),
                    values@.len() == args@.len() <= params@.len(),
                    k <= values@.len(),
                    vals == value_views(values@),
                    ps == names_view(params@),
                    env@ == bind(g.push(Map::empty()), ps, vals, k as int),
                decreases values@.len() - k,
            {
                assert(vals[k as int] == values@[k as int]@);
                env.define(params[k].as_str(), values[k].duplicate());
                k = k + 1;
            }
            let out = run(&body, env, session, fuel - 1);
            let r = match out {
                Ok(v) => {
                    env.leave_to(base);
                    Ok(v)
                },
                Err(e) => Err(e),
            };
            assert forall|l: Seq<Event>| #[trigger]
                extends(l, session.log@) implies sem(call, env0, fuel as nat, l, at0) == Some(
                (result_of(r, env@), session.log@.len() as int),
            ) by {
                assert(extends(l, log2));
            }
            r
        },
        Some(Value::RustFunction { args: params, body: key }) => {
            if args.len() > params.len() {
                return Err(ExecError::TooManyArguments(name.clone()));
            }
            let mut values: Vec<Value> = Vec::new();
            let mut i: usize = 0;
            assert(value_views(values@) =~= Seq::<ValueView>::empty());
            while i < args.len()
                invariant
                    env.wf(),
                    env@.len() == env0.len(),
                    call_error(env0, name@, args@.len()) is None,
                    lookup(env0, name@) == Some(
                        ValueView::Native { params: names_view(params@), key: key@ },
                    ),
                    i <= args@.len(),
                    values@.len() == i,
                    vs == views(args@),
                    vs.len() == args@.len(),
                    extends(session.log@, log0),
                    at0 == log0.len(),
                    env0 == old(env)@,
                    log0 == old(session).log@,
                    call == (AstView::FunctionCall { name: name@, args: vs }),
                    forall|l: Seq<Event>|
                        #[trigger] extends(l, session.log@) ==> sem_args(vs, 0, Seq::empty(), env0, fuel as nat, l, at0)
                            == sem_args(vs, i as int, value_views(values@), env@, fuel as nat, l, session.log@.len() as int),
                decreases args@.len() - i,
            {
                assert(vs[i as int] == args@[i as int]@);
                let ghost log1 = session.log@;
                match run(&args[i], env, session, fuel) {
                    Ok(v) => {
                        proof {
                            lemma_value_views_push(values@, v);
                        }
                        values.push(v);
                        assert forall|l: Seq<Event>| #[trigger]
                            extends(l, session.log@) implies sem_args(vs, 0, Seq::empty(), env0, fuel as nat, l, at0)
                            == sem_args(vs, i + 1, value_views(values@), env@, fuel as nat, l, session.log@.len() as int) by {
                            assert(extends(l, log1));
                        }
                    },
                    Err(e) => {
                        let r: Result<Value, ExecError> = Err(e);
                        assert forall|l: Seq<Event>| #[trigger]
                            extends(l, session.log@) implies sem(call, env0, fuel as nat, l, at0)
                            == Some((result_of(r, env@), session.log@.len() as int)) by {
                            assert(extends(l, log1));
                        }
                        return r;
                    },
                }
                i = i + 1;
            }
            let ghost g = env@;
            let ghost log2 = session.log@;
            let ghost vals = value_views(values@);
            let r = session.call_native(&key, values, env);
            assert forall|l: Seq<Event>| #[trigger]
                extends(l, session.log@) implies sem(call, env0, fuel as nat, l, at0) == Some(
                (result_of(r, env@), session.log@.len() as int),
            ) by {
                assert(extends(l, log2));
                assert(l[log2.len() as int] == session.log@[log2.len() as int]);
            }
            r
        },
        Some(_) => Err(ExecError::NotCallable(name.clone())),
    }
}

} // verus!
