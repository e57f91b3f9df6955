//! The abstract syntax tree.
use vstd::prelude::*;
use crate::token::{Token, TokenKind};

verus! {

/// The operator of a term or of a unary expression.
#[derive(Debug, Clone, Copy, PartialEq, Eq, Structural)]
pub enum TermSymbol {
    Add,
    Sub,
}

/// The operator of a factor. Factors are parsed but not evaluated.
#[derive(Debug, Clone, Copy, PartialEq, Eq, Structural)]
pub enum FactorSymbol {
    Mul,
    Div,
}

impl TermSymbol {
    /// The symbol as it is written in source text.
    pub fn symbol(&self) -> (r: char)
        ensures
            r == term_char(*self),
    {
        match self {
            TermSymbol::Add => '+',
            TermSymbol::Sub => '-',
        }
    }
}

pub open spec fn term_char(t: TermSymbol) -> char {
    match t {
        TermSymbol::Add => '+',
        TermSymbol::Sub => '-',
    }
}

/// A syntax tree as a mathematical value.
pub enum AstView {
    Block(Seq<AstView>),
    VariableDefinition { name: Seq<char>, value: Box<AstView>, keyword: TokenKind },
    FunctionDefinition {
        name: Seq<char>,
        params: Seq<Seq<char>>,
        body: Box<AstView>,
        keyword: TokenKind,
    },
    FunctionCall { name: Seq<char>, args: Seq<AstView> },
    Assignment { name: Seq<char>, value: Box<AstView> },
    Comment(Seq<char>),
    Term(Box<AstView>, TermSymbol, Box<AstView>),
    Factor(Box<AstView>, FactorSymbol, Box<AstView>),
    Unary(TermSymbol, Box<AstView>),
    Group(Box<AstView>),
    Number(int),
    Str(Seq<char>),
    Identifier(Seq<char>),
}

#[derive(Debug)]
pub enum AST {
    Block { statements: Vec<AST> },
    VariableDefinition { name: String, value: Box<AST>, keyword_token: Token },
    FunctionDefinition { name: String, params: Vec<String>, body: Box<AST>, keyword_token: Token },
    FunctionCall { name: String, args: Vec<AST> },
    Assignment { name: String, value: Box<AST> },
    Comment { value: String },
    Term(Box<AST>, TermSymbol, Box<AST>),
    Factor(Box<AST>, FactorSymbol, Box<AST>),
    Unary(TermSymbol, Box<AST>),
    Group(Box<AST>),
    Number(i64),
    String(String),
    Identifier(String),
}

/// The views of a sequence of strings.
pub open spec fn names_view(s: Seq<String>) -> Seq<Seq<char>> {
    s.map_values(|n: String| n@)
}

/// The views of a sequence of trees.
pub open spec fn views(s: Seq<AST>) -> Seq<AstView>
    decreases s,
{
    Seq::new(
        s.len(),
        |i: int|
            if 0 <= i < s.len() {
                ast_view(s[i])
            } else {
                AstView::Comment(Seq::empty())
            },
    )
}

pub open spec fn ast_view(a: AST) -> AstView
    decreases a,
{
    match a {
        AST::Block { statements } => AstView::Block(views(statements@)),
        AST::VariableDefinition { name, value, keyword_token } => AstView::VariableDefinition {
            name: name@,
            value: Box::new(ast_view(*value)),
            keyword: keyword_token.token_type@,
        },
        AST::FunctionDefinition { name, params, body, keyword_token } =>
            AstView::FunctionDefinition {
                name: name@,
                params: names_view(params@),
                body: Box::new(ast_view(*body)),
                keyword: keyword_token.token_type@,
            },
        AST::FunctionCall { name, args } => AstView::FunctionCall {
            name: name@,
            args: views(args@),
        },
        AST::Assignment { name, value } => AstView::Assignment {
            name: name@,
            value: Box::new(ast_view(*value)),
        },
        AST::Comment { value } => AstView::Comment(value@),
        AST::Term(l, op, r) => AstView::Term(Box::new(ast_view(*l)), op, Box::new(ast_view(*r))),
        AST::Factor(l, op, r) => AstView::Factor(
            Box::new(ast_view(*l)),
            op,
            Box::new(ast_view(*r)),
        ),
        AST::Unary(op, e) => AstView::Unary(op, Box::new(ast_view(*e))),
        AST::Group(e) => AstView::Group(Box::new(ast_view(*e))),
        AST::Number(n) => AstView::Number(n as int),
        AST::String(s) => AstView::Str(s@),
        AST::Identifier(s) => AstView::Identifier(s@),
    }
}

impl View for AST {
    type V = AstView;

    open spec fn view(&self) -> AstView {
        ast_view(*self)
    }
}

/// A copy of a list of names.
pub fn copy_names(names: &Vec<String>) -> (r: Vec<String>)
    ensures
        names_view(r@) == names_view(names@),
{
    let mut out: Vec<String> = Vec::new();
    let mut i: usize = 0;
    while i < names.len()
        invariant
            i <= names@.len(),
            out@ =~= names@.subrange(0, i as int),
        decreases names@.len() - i,
    {
        out.push(names[i].clone());
        assert(names@.subrange(0, i + 1) =~= names@.subrange(0, i as int).push(names@[i as int]));
        i = i + 1;
    }
    assert(names@.subrange(0, names@.len() as int) =~= names@);
    out
}

impl AST {
    /// A copy of this tree.
    pub fn duplicate(&self) -> (r: AST)
        ensures
            r@ == self@,
        decreases self,
    {
        match self {
            AST::Block { statements } => {
                let s = copy_list(statements);
                proof {
                    lemma_views_of_copies(s, *statements, arbitrary());
                }
                let r = AST::Block { statements: s };
                                r
            },
            AST::VariableDefinition { name, value, keyword_token } => AST::VariableDefinition {
                name: name.clone(),
                value: Box::new(value.duplicate()),
                keyword_token: keyword_token.duplicate(),
            },
            AST::FunctionDefinition { name, params, body, keyword_token } =>
                AST::FunctionDefinition {
                    name: name.clone(),
                    params: copy_names(params),
                    body: Box::new(body.duplicate()),
                    keyword_token: keyword_token.duplicate(),
                },
            AST::FunctionCall { name, args } => {
                let s = copy_list(args);
                proof {
                    lemma_views_of_copies(s, *args, *name);
                }
                let r = AST::FunctionCall { name: name.clone(), args: s };
                                r
            },
            AST::Assignment { name, value } => AST::Assignment {
                name: name.clone(),
                value: Box::new(value.duplicate()),
            },
            AST::Comment { value } => AST::Comment { value: value.clone() },
            AST::Term(l, op, r) => AST::Term(Box::new(l.duplicate()), *op, Box::new(r.duplicate())),
            AST::Factor(l, op, r) => AST::Factor(
                Box::new(l.duplicate()),
                *op,
                Box::new(r.duplicate()),
            ),
            AST::Unary(op, e) => AST::Unary(*op, Box::new(e.duplicate())),
            AST::Group(e) => AST::Group(Box::new(e.duplicate())),
            AST::Number(n) => AST::Number(*n),
            AST::String(s) => AST::String(s.clone()),
            AST::Identifier(s) => AST::Identifier(s.clone()),
        }
    }
}

proof fn lemma_views_of_copies(a: Vec<AST>, b: Vec<AST>, name: String)
    requires
        a@.len() == b@.len(),
        forall|i: int| 0 <= i < a@.len() ==> #[trigger] a@[i]@ == b@[i]@,
    ensures
        ast_view(AST::Block { statements: a }) == ast_view(AST::Block { statements: b }),
        ast_view(AST::FunctionCall { name: name, args: a }) == ast_view(
            AST::FunctionCall { name: name, args: b },
        ),
{
    let va = ast_view(AST::Block { statements: a });
    let vb = ast_view(AST::Block { statements: b });
    assert forall|i: int| 0 <= i < a@.len() implies ast_view(a@[i]) == ast_view(b@[i]) by {
        assert(a@[i]@ == b@[i]@);
    }
    assert(views(a@) =~= views(b@));
    let ca = ast_view(AST::FunctionCall { name: name, args: a });
    let cb = ast_view(AST::FunctionCall { name: name, args: b });
    assert(ca->FunctionCall_args =~= cb->FunctionCall_args);
}

/// A copy of a list of trees.
pub fn copy_list(items: &Vec<AST>) -> (r: Vec<AST>)
    ensures
        r@.len() == items@.len(),
        forall|i: int| 0 <= i < items@.len() ==> #[trigger] r@[i]@ == items@[i]@,
    decreases items,
{
    let mut out: Vec<AST> = Vec::new();
    let mut i: usize = 0;
    while i < items.len()
        invariant
            i <= items@.len(),
            out@.len() == i,
            forall|j: int| 0 <= j < i ==> #[trigger] out@[j]@ == items@[j]@,
        decreases items@.len() - i,
    {
        out.push(items[i].duplicate());
        i = i + 1;
    }
    out
}

} // verus!
