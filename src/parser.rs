//! The recursive-descent parser: tokens to a syntax tree.
use vstd::prelude::*;
use crate::ast::{views, AstView, FactorSymbol, TermSymbol, AST};
use crate::config::Config;
use crate::token::{kinds, Token, TokenKind, TokenTypes};

verus! {

/// Why parsing stopped.
#[derive(Debug, Clone, Copy, PartialEq, Eq, Structural)]
pub enum ParseError {
    /// The tokens ran out inside a construct.
    UnexpectedEnd,
    /// A statement other than a comment is not followed by `;`.
    ExpectedSemicolon,
    /// An identifier starts no known statement shape.
    UnimplementedStatement,
    /// A statement starts with something other than an identifier or a comment.
    UnexpectedToken,
    ExpectedFunctionName,
    ExpectedVariableName,
    ExpectedOpenParen,
    ExpectedCloseParen,
    ExpectedOpenCurly,
    ExpectedCloseCurly,
    ExpectedEquals,
    /// An expression lacks a number, string, identifier or group.
    ExpectedOperand,
    /// Tokens are left after the program.
    TrailingTokens,
}

/// Whether a token can start a statement of a block.
pub open spec fn starts_statement(k: TokenKind) -> bool {
    k is Identifier || k is Comment
}

/// A group: `(` expression `)` at `pos`.
pub open spec fn p_group(ts: Seq<TokenKind>, pos: int) -> Result<(AstView, int), ParseError>
    decreases ts.len() - pos, 0int,
{
    if pos < 0 || pos >= ts.len() {
        Err(ParseError::UnexpectedEnd)
    } else if !(ts[pos] is OpenParen) {
        Err(ParseError::ExpectedOpenParen)
    } else {
        match p_term(ts, pos + 1) {
            Err(e) => Err(e),
            Ok((inner, p)) => if p >= ts.len() {
                Err(ParseError::UnexpectedEnd)
            } else if ts[p] is CloseParen {
                Ok((AstView::Group(Box::new(inner)), p + 1))
            } else {
                Err(ParseError::ExpectedCloseParen)
            },
        }
    }
}

/// A unary expression at `pos`.
pub open spec fn p_unary(ts: Seq<TokenKind>, pos: int) -> Result<(AstView, int), ParseError>
    decreases ts.len() - pos, 1int,
{
    if pos < 0 || pos >= ts.len() {
        Err(ParseError::UnexpectedEnd)
    } else {
        match ts[pos] {
            TokenKind::OpenParen => p_group(ts, pos),
            TokenKind::Plus => match p_unary(ts, pos + 1) {
                Ok((e, p)) => Ok((AstView::Unary(TermSymbol::Add, Box::new(e)), p)),
                Err(x) => Err(x),
            },
            TokenKind::Minus => match p_unary(ts, pos + 1) {
                Ok((e, p)) => Ok((AstView::Unary(TermSymbol::Sub, Box::new(e)), p)),
                Err(x) => Err(x),
            },
            TokenKind::Number(n) => Ok((AstView::Number(n), pos + 1)),
            TokenKind::Str(s) => Ok((AstView::Str(s), pos + 1)),
            TokenKind::Identifier(s) => Ok((AstView::Identifier(s), pos + 1)),
            _ => Err(ParseError::ExpectedOperand),
        }
    }
}

/// A factor at `pos`: unary expressions joined by `*` or `/`, grouped to
/// the right.
pub open spec fn p_factor(ts: Seq<TokenKind>, pos: int) -> Result<(AstView, int), ParseError>
    decreases ts.len() - pos, 2int,
{
    match p_unary(ts, pos) {
        Err(x) => Err(x),
        Ok((left, p)) => if p < pos || p >= ts.len() || !(ts[p] is Star || ts[p] is Slash) {
            Ok((left, p))
        } else {
            let op = if ts[p] is Star {
                FactorSymbol::Mul
            } else {
                FactorSymbol::Div
            };
            match p_factor(ts, p + 1) {
                Err(x) => Err(x),
                Ok((right, q)) => Ok((AstView::Factor(Box::new(left), op, Box::new(right)), q)),
            }
        },
    }
}

/// A term at `pos`: factors joined by `+` or `-`, grouped to the right.
/// Expressions are terms.
pub open spec fn p_term(ts: Seq<TokenKind>, pos: int) -> Result<(AstView, int), ParseError>
    decreases ts.len() - pos, 3int,
{
    match p_factor(ts, pos) {
        Err(x) => Err(x),
        Ok((left, p)) => if p < pos || p >= ts.len() || !(ts[p] is Plus || ts[p] is Minus) {
            Ok((left, p))
        } else {
            let op = if ts[p] is Plus {
                TermSymbol::Add
            } else {
                TermSymbol::Sub
            };
            match p_term(ts, p + 1) {
                Err(x) => Err(x),
                Ok((right, q)) => Ok((AstView::Term(Box::new(left), op, Box::new(right)), q)),
            }
        },
    }
}

/// The arguments of a call from `pos`, after `(` and at least one
/// argument: expressions separated by `,`, up to and past `)`.
pub open spec fn p_arg_list(ts: Seq<TokenKind>, pos: int) -> Result<(Seq<AstView>, int), ParseError>
    decreases ts.len() - pos, 4int,
{
    match p_term(ts, pos) {
        Err(x) => Err(x),
        Ok((arg, p)) => if p < pos || p >= ts.len() {
            Err(ParseError::UnexpectedEnd)
        } else if ts[p] is CloseParen {
            Ok((seq![arg], p + 1))
        } else if ts[p] is Comma {
            match p_arg_list(ts, p + 1) {
                Err(x) => Err(x),
                Ok((rest, q)) => Ok((seq![arg] + rest, q)),
            }
        } else {
            Err(ParseError::ExpectedCloseParen)
        },
    }
}

/// A call of `name`, from its `(` at `pos`.
pub open spec fn p_call(ts: Seq<TokenKind>, pos: int, name: Seq<char>) -> Result<
    (AstView, int),
    ParseError,
>
    decreases ts.len() - pos, 5int,
{
    if pos < 0 || pos >= ts.len() {
        Err(ParseError::UnexpectedEnd)
    } else if !(ts[pos] is OpenParen) {
        Err(ParseError::ExpectedOpenParen)
    } else if pos + 1 >= ts.len() {
        Err(ParseError::UnexpectedEnd)
    } else if ts[pos + 1] is CloseParen {
        Ok((AstView::FunctionCall { name, args: Seq::empty() }, pos + 2))
    } else {
        match p_arg_list(ts, pos + 1) {
            Err(x) => Err(x),
            Ok((args, q)) => Ok((AstView::FunctionCall { name, args }, q)),
        }
    }
}

/// An assignment to `name`, from its `=` at `pos`.
pub open spec fn p_assignment(ts: Seq<TokenKind>, pos: int, name: Seq<char>) -> Result<
    (AstView, int),
    ParseError,
>
    decreases ts.len() - pos, 5int,
{
    if pos < 0 || pos >= ts.len() {
        Err(ParseError::UnexpectedEnd)
    } else if !(ts[pos] is Equals) {
        Err(ParseError::ExpectedEquals)
    } else {
        match p_term(ts, pos + 1) {
            Err(x) => Err(x),
            Ok((value, q)) => Ok((AstView::Assignment { name, value: Box::new(value) }, q)),
        }
    }
}

/// A variable definition after its keyword `keyword`: name at `pos`, `=`,
/// value.
pub open spec fn p_variable_definition(ts: Seq<TokenKind>, pos: int, keyword: TokenKind) -> Result<
    (AstView, int),
    ParseError,
>
    decreases ts.len() - pos, 5int,
{
    if pos < 0 || pos >= ts.len() {
        Err(ParseError::UnexpectedEnd)
    } else if !(ts[pos] is Identifier) {
        Err(ParseError::ExpectedVariableName)
    } else if pos + 1 >= ts.len() {
        Err(ParseError::UnexpectedEnd)
    } else if !(ts[pos + 1] is Equals) {
        Err(ParseError::ExpectedEquals)
    } else {
        match p_term(ts, pos + 2) {
            Err(x) => Err(x),
            Ok((value, q)) => Ok(
                (
                    AstView::VariableDefinition {
                        name: ts[pos]->Identifier_0,
                        value: Box::new(value),
                        keyword,
                    },
                    q,
                ),
            ),
        }
    }
}

/// A function definition after its keyword `keyword`: name at `pos`, `()`,
/// and a body in braces.
pub open spec fn p_function_definition(
    ts: Seq<TokenKind>,
    pos: int,
    keyword: TokenKind,
    cfg: Config,
) -> Result<(AstView, int), ParseError>
    decreases ts.len() - pos, 5int,
{
    if pos < 0 || pos + 3 >= ts.len() {
        Err(ParseError::UnexpectedEnd)
    } else if !(ts[pos] is Identifier) {
        Err(ParseError::ExpectedFunctionName)
    } else if !(ts[pos + 1] is OpenParen) {
        Err(ParseError::ExpectedOpenParen)
    } else if !(ts[pos + 2] is CloseParen) {
        Err(ParseError::ExpectedCloseParen)
    } else if !(ts[pos + 3] is OpenCurly) {
        Err(ParseError::ExpectedOpenCurly)
    } else {
        match p_statements(ts, pos + 4, cfg) {
            Err(x) => Err(x),
            Ok((body, p)) => if p < pos || p >= ts.len() {
                Err(ParseError::UnexpectedEnd)
            } else if ts[p] is CloseCurly {
                Ok(
                    (
                        AstView::FunctionDefinition {
                            name: ts[pos]->Identifier_0,
                            params: Seq::empty(),
                            body: Box::new(AstView::Block(body)),
                            keyword,
                        },
                        p + 1,
                    ),
                )
            } else {
                Err(ParseError::ExpectedCloseCurly)
            },
        }
    }
}

/// The statement at `pos`.
pub open spec fn p_statement(ts: Seq<TokenKind>, pos: int, cfg: Config) -> Result<
    (AstView, int),
    ParseError,
>
    decreases ts.len() - pos, 6int,
{
    if pos < 0 || pos >= ts.len() {
        Err(ParseError::UnexpectedEnd)
    } else {
        match ts[pos] {
            TokenKind::Identifier(word) => if pos + 1 >= ts.len() {
                Err(ParseError::UnexpectedEnd)
            } else if cfg.is_function_keyword(word) && !(ts[pos + 1] is OpenParen) {
                p_function_definition(ts, pos + 1, ts[pos], cfg)
            } else if cfg.is_variable_keyword(word) && ts[pos + 1] is Identifier {
                p_variable_definition(ts, pos + 1, ts[pos])
            } else if ts[pos + 1] is OpenParen {
                p_call(ts, pos + 1, word)
            } else if ts[pos + 1] is Equals {
                p_assignment(ts, pos + 1, word)
            } else {
                Err(ParseError::UnimplementedStatement)
            },
            TokenKind::Comment(text) => Ok((AstView::Comment(text), pos + 1)),
            _ => Err(ParseError::UnexpectedToken),
        }
    }
}

/// The statements of a block from `pos`, up to the first token that starts
/// none; each but a comment is followed by `;`.
pub open spec fn p_statements(ts: Seq<TokenKind>, pos: int, cfg: Config) -> Result<
    (Seq<AstView>, int),
    ParseError,
>
    decreases ts.len() - pos, 7int,
{
    if pos < 0 || pos >= ts.len() || !starts_statement(ts[pos]) {
        Ok((Seq::empty(), pos))
    } else {
        match p_statement(ts, pos, cfg) {
            Err(x) => Err(x),
            // A statement takes at least one token, so the first branch is
            // never taken; it keeps the definition total.
            Ok((s, p)) => if p <= pos || p > ts.len() {
                Ok((seq![s], p))
            } else if ts[pos] is Comment {
                match p_statements(ts, p, cfg) {
                    Err(x) => Err(x),
                    Ok((rest, q)) => Ok((seq![s] + rest, q)),
                }
            } else if p >= ts.len() {
                Err(ParseError::UnexpectedEnd)
            } else if !(ts[p] is Semi) {
                Err(ParseError::ExpectedSemicolon)
            } else {
                match p_statements(ts, p + 1, cfg) {
                    Err(x) => Err(x),
                    Ok((rest, q)) => Ok((seq![s] + rest, q)),
                }
            },
        }
    }
}

/// The program that a token sequence spells.
pub open spec fn parsed(ts: Seq<TokenKind>, cfg: Config) -> Result<AstView, ParseError> {
    match p_statements(ts, 0, cfg) {
        Err(x) => Err(x),
        Ok((stmts, p)) => if p < ts.len() {
            Err(ParseError::TrailingTokens)
        } else {
            Ok(AstView::Block(stmts))
        },
    }
}

/// Whether an executable parse result is the one the grammar gives.
pub open spec fn agrees(r: Result<(AST, usize), ParseError>, s: Result<(AstView, int), ParseError>) -> bool {
    match s {
        Ok((a, p)) => r is Ok && r->Ok_0.0@ == a && r->Ok_0.1 == p,
        Err(x) => r == Err::<(AST, usize), ParseError>(x),
    }
}

/// `p` before the items of `r`, or the error of `r`.
pub open spec fn prefix_list(p: Seq<AstView>, r: Result<(Seq<AstView>, int), ParseError>) -> Result<
    (Seq<AstView>, int),
    ParseError,
> {
    match r {
        Ok((rest, q)) => Ok((p + rest, q)),
        Err(x) => Err(x),
    }
}

/// Whether an executable list result is the one the grammar gives.
pub open spec fn agrees_list(
    r: Result<(Vec<AST>, usize), ParseError>,
    s: Result<(Seq<AstView>, int), ParseError>,
) -> bool {
    match s {
        Ok((a, p)) => r is Ok && views(r->Ok_0.0@) == a && r->Ok_0.1 == p,
        Err(x) => r == Err::<(Vec<AST>, usize), ParseError>(x),
    }
}

/// Whether the next result moved forward and stayed within the tokens.
pub open spec fn advances<T>(r: Result<(T, usize), ParseError>, pos: int, len: int) -> bool {
    r is Ok ==> pos < r->Ok_0.1 <= len
}

proof fn lemma_views_push(v: Seq<AST>, a: AST)
    ensures
        views(v.push(a)) == views(v).push(a@),
{
    assert(views(v.push(a)) =~= views(v).push(a@));
}

proof fn lemma_prefix_nil(r: Result<(Seq<AstView>, int), ParseError>)
    ensures
        prefix_list(Seq::empty(), r) == r,
{
    match r {
        Ok((rest, q)) => {
            assert(Seq::<AstView>::empty() + rest =~= rest);
        },
        Err(_) => {},
    }
}

fn group(tokens: &Vec<Token>, pos: usize) -> (r: Result<(AST, usize), ParseError>)
    requires
        pos <= tokens@.len(),
    ensures
        agrees(r, p_group(kinds(tokens@), pos as int)),
        advances(r, pos as int, tokens@.len() as int),
    decreases tokens@.len() - pos, 0int,
{
    if pos >= tokens.len() {
        return Err(ParseError::UnexpectedEnd);
    }
    if !matches!(tokens[pos].token_type, TokenTypes::OpenParen) {
        return Err(ParseError::ExpectedOpenParen);
    }
    match term(tokens, pos + 1) {
        Err(e) => Err(e),
        Ok((inner, p)) => {
            if p >= tokens.len() {
                Err(ParseError::UnexpectedEnd)
            } else if matches!(tokens[p].token_type, TokenTypes::CloseParen) {
                Ok((AST::Group(Box::new(inner)), p + 1))
            } else {
                Err(ParseError::ExpectedCloseParen)
            }
        },
    }
}

fn unary(tokens: &Vec<Token>, pos: usize) -> (r: Result<(AST, usize), ParseError>)
    requires
        pos <= tokens@.len(),
    ensures
        agrees(r, p_unary(kinds(tokens@), pos as int)),
        advances(r, pos as int, tokens@.len() as int),
    decreases tokens@.len() - pos, 1int,
{
    if pos >= tokens.len() {
        return Err(ParseError::UnexpectedEnd);
    }
    match &tokens[pos].token_type {
        TokenTypes::OpenParen => group(tokens, pos),
        TokenTypes::Plus => match unary(tokens, pos + 1) {
            Ok((e, p)) => Ok((AST::Unary(TermSymbol::Add, Box::new(e)), p)),
            Err(x) => Err(x),
        },
        TokenTypes::Minus => match unary(tokens, pos + 1) {
            Ok((e, p)) => Ok((AST::Unary(TermSymbol::Sub, Box::new(e)), p)),
            Err(x) => Err(x),
        },
        TokenTypes::Number { value } => Ok((AST::Number(*value), pos + 1)),
        TokenTypes::String { value } => Ok((AST::String(value.clone()), pos + 1)),
        TokenTypes::Identifier { value } => Ok((AST::Identifier(value.clone()), pos + 1)),
        _ => Err(ParseError::ExpectedOperand),
    }
}

fn factor(tokens: &Vec<Token>, pos: usize) -> (r: Result<(AST, usize), ParseError>)
    requires
        pos <= tokens@.len(),
    ensures
        agrees(r, p_factor(kinds(tokens@), pos as int)),
        advances(r, pos as int, tokens@.len() as int),
    decreases tokens@.len() - pos, 2int,
{
    match unary(tokens, pos) {
        Err(x) => Err(x),
        Ok((left, p)) => {
            if p >= tokens.len() {
                return Ok((left, p));
            }
            let op = match tokens[p].token_type {
                TokenTypes::Star => FactorSymbol::Mul,
                TokenTypes::Slash => FactorSymbol::Div,
                _ => {
                    return Ok((left, p));
                },
            };
            match factor(tokens, p + 1) {
                Err(x) => Err(x),
                Ok((right, q)) => Ok((AST::Factor(Box::new(left), op, Box::new(right)), q)),
            }
        },
    }
}

/// An expression: a term.
fn term(tokens: &Vec<Token>, pos: usize) -> (r: Result<(AST, usize), ParseError>)
    requires
        pos <= tokens@.len(),
    ensures
        agrees(r, p_term(kinds(tokens@), pos as int)),
        advances(r, pos as int, tokens@.len() as int),
    decreases tokens@.len() - pos, 3int,
{
    match factor(tokens, pos) {
        Err(x) => Err(x),
        Ok((left, p)) => {
            if p >= tokens.len() {
                return Ok((left, p));
            }
            let op = match tokens[p].token_type {
                TokenTypes::Plus => TermSymbol::Add,
                TokenTypes::Minus => TermSymbol::Sub,
                _ => {
                    return Ok((left, p));
                },
            };
            match term(tokens, p + 1) {
                Err(x) => Err(x),
                Ok((right, q)) => Ok((AST::Term(Box::new(left), op, Box::new(right)), q)),
            }
        },
    }
}

fn parse_arg_list(tokens: &Vec<Token>, start: usize) -> (r: Result<(Vec<AST>, usize), ParseError>)
    requires
        start <= tokens@.len(),
    ensures
        agrees_list(r, p_arg_list(kinds(tokens@), start as int)),
        advances(r, start as int, tokens@.len() as int),
    decreases tokens@.len() - start, 4int,
{
    let ghost ts = kinds(tokens@);
    let mut args: Vec<AST> = Vec::new();
    let mut pos = start;
    proof {
        lemma_prefix_nil(p_arg_list(ts, start as int));
    }
    loop
        invariant
            ts == kinds(tokens@),
            start <= pos <= tokens@.len(),
            p_arg_list(ts, start as int) == prefix_list(views(args@), p_arg_list(ts, pos as int)),
        decreases tokens@.len() - pos,
    {
        match term(tokens, pos) {
            Err(x) => {
                return Err(x);
            },
            Ok((arg, p)) => {
                if p >= tokens.len() {
                    return Err(ParseError::UnexpectedEnd);
                }
                let ghost before = views(args@);
                proof {
                    lemma_views_push(args@, arg);
                }
                if matches!(tokens[p].token_type, TokenTypes::CloseParen) {
                    args.push(arg);
                    assert(before + seq![arg@] =~= before.push(arg@));
                    return Ok((args, p + 1));
                } else if matches!(tokens[p].token_type, TokenTypes::Comma) {
                    args.push(arg);
                    proof {
                        match p_arg_list(ts, p + 1) {
                            Ok((rest, q)) => {
                                assert(before + (seq![arg@] + rest) =~= before.push(arg@) + rest);
                            },
                            Err(_) => {},
                        }
                    }
                    pos = p + 1;
                } else {
                    return Err(ParseError::ExpectedCloseParen);
                }
            },
        }
    }
}

fn parse_function_call(tokens: &Vec<Token>, pos: usize, name: &String) -> (r: Result<
    (AST, usize),
    ParseError,
>)
    requires
        pos <= tokens@.len(),
    ensures
        agrees(r, p_call(kinds(tokens@), pos as int, name@)),
        advances(r, pos as int, tokens@.len() as int),
    decreases tokens@.len() - pos, 5int,
{
    if pos >= tokens.len() {
        return Err(ParseError::UnexpectedEnd);
    }
    if !matches!(tokens[pos].token_type, TokenTypes::OpenParen) {
        return Err(ParseError::ExpectedOpenParen);
    }
    if pos + 1 >= tokens.len() {
        return Err(ParseError::UnexpectedEnd);
    }
    if matches!(tokens[pos + 1].token_type, TokenTypes::CloseParen) {
        let args: Vec<AST> = Vec::new();
        assert(views(args@) =~= Seq::<AstView>::empty());
        return Ok((AST::FunctionCall { name: name.clone(), args }, pos + 2));
    }
    match parse_arg_list(tokens, pos + 1) {
        Err(x) => Err(x),
        Ok((args, q)) => Ok((AST::FunctionCall { name: name.clone(), args }, q)),
    }
}

fn parse_assignment(tokens: &Vec<Token>, pos: usize, name: &String) -> (r: Result<
    (AST, usize),
    ParseError,
>)
    requires
        pos <= tokens@.len(),
    ensures
        agrees(r, p_assignment(kinds(tokens@), pos as int, name@)),
        advances(r, pos as int, tokens@.len() as int),
    decreases tokens@.len() - pos, 5int,
{
    if pos >= tokens.len() {
        return Err(ParseError::UnexpectedEnd);
    }
    if !matches!(tokens[pos].token_type, TokenTypes::Equals) {
        return Err(ParseError::ExpectedEquals);
    }
    match term(tokens, pos + 1) {
        Err(x) => Err(x),
        Ok((value, q)) => Ok((AST::Assignment { name: name.clone(), value: Box::new(value) }, q)),
    }
}

fn parse_variable_definition(tokens: &Vec<Token>, pos: usize, keyword: &Token) -> (r: Result<
    (AST, usize),
    ParseError,
>)
    requires
        pos <= tokens@.len(),
    ensures
        agrees(r, p_variable_definition(kinds(tokens@), pos as int, keyword.token_type@)),
        advances(r, pos as int, tokens@.len() as int),
    decreases tokens@.len() - pos, 5int,
{
    if pos >= tokens.len() {
        return Err(ParseError::UnexpectedEnd);
    }
    let name = match &tokens[pos].token_type {
        TokenTypes::Identifier { value } => value.clone(),
        _ => {
            return Err(ParseError::ExpectedVariableName);
        },
    };
    if pos + 1 >= tokens.len() {
        return Err(ParseError::UnexpectedEnd);
    }
    if !matches!(tokens[pos + 1].token_type, TokenTypes::Equals) {
        return Err(ParseError::ExpectedEquals);
    }
    match term(tokens, pos + 2) {
        Err(x) => Err(x),
        Ok((value, q)) => Ok(
            (
                AST::VariableDefinition {
                    name,
                    value: Box::new(value),
                    keyword_token: keyword.duplicate(),
                },
                q,
            ),
        ),
    }
}

fn parse_function_definition(
    tokens: &Vec<Token>,
    pos: usize,
    keyword: &Token,
    config: &Config,
) -> (r: Result<(AST, usize), ParseError>)
    requires
        pos <= tokens@.len(),
    ensures
        agrees(r, p_function_definition(kinds(tokens@), pos as int, keyword.token_type@, *config)),
        advances(r, pos as int, tokens@.len() as int),
    decreases tokens@.len() - pos, 5int,
{
    if pos >= tokens.len() || tokens.len() - pos <= 3 {
        return Err(ParseError::UnexpectedEnd);
    }
    let name = match &tokens[pos].token_type {
        TokenTypes::Identifier { value } => value.clone(),
        _ => {
            return Err(ParseError::ExpectedFunctionName);
        },
    };
    if !matches!(tokens[pos + 1].token_type, TokenTypes::OpenParen) {
        return Err(ParseError::ExpectedOpenParen);
    }
    if !matches!(tokens[pos + 2].token_type, TokenTypes::CloseParen) {
        return Err(ParseError::ExpectedCloseParen);
    }
    if !matches!(tokens[pos + 3].token_type, TokenTypes::OpenCurly) {
        return Err(ParseError::ExpectedOpenCurly);
    }
    match parse_block_internal(tokens, pos + 4, config) {
        Err(x) => Err(x),
        Ok((statements, p)) => {
            if p >= tokens.len() {
                Err(ParseError::UnexpectedEnd)
            } else if matches!(tokens[p].token_type, TokenTypes::CloseCurly) {
                let params: Vec<String> = Vec::new();
                let ghost stmts = views(statements@);
                let body = AST::Block { statements };
                assert(body@ == AstView::Block(stmts));
                let r = AST::FunctionDefinition {
                    name,
                    params,
                    body: Box::new(body),
                    keyword_token: keyword.duplicate(),
                };
                assert(r@->FunctionDefinition_params =~= Seq::<Seq<char>>::empty());
                Ok((r, p + 1))
            } else {
                Err(ParseError::ExpectedCloseCurly)
            }
        },
    }
}

fn parse_statement(tokens: &Vec<Token>, pos: usize, config: &Config) -> (r: Result<
    (AST, usize),
    ParseError,
>)
    requires
        pos <= tokens@.len(),
    ensures
        agrees(r, p_statement(kinds(tokens@), pos as int, *config)),
        advances(r, pos as int, tokens@.len() as int),
    decreases tokens@.len() - pos, 6int,
{
    if pos >= tokens.len() {
        return Err(ParseError::UnexpectedEnd);
    }
    match &tokens[pos].token_type {
        TokenTypes::Identifier { value: word } => {
            if pos + 1 >= tokens.len() {
                return Err(ParseError::UnexpectedEnd);
            }
            let next_open = matches!(tokens[pos + 1].token_type, TokenTypes::OpenParen);
            if config.match_function_keyword(word.as_str()) && !next_open {
                parse_function_definition(tokens, pos + 1, &tokens[pos], config)
            } else if config.match_variable_keyword(word.as_str())
                && tokens[pos + 1].token_type.is_identifier() {
                parse_variable_definition(tokens, pos + 1, &tokens[pos])
            } else if next_open {
                parse_function_call(tokens, pos + 1, word)
            } else if matches!(tokens[pos + 1].token_type, TokenTypes::Equals) {
                parse_assignment(tokens, pos + 1, word)
            } else {
                Err(ParseError::UnimplementedStatement)
            }
        },
        TokenTypes::Comment { value } => Ok((AST::Comment { value: value.clone() }, pos + 1)),
        _ => Err(ParseError::UnexpectedToken),
    }
}

fn is_valid_body_token(token: &Token) -> (r: bool)
    ensures
        r == starts_statement(token.token_type@),
{
    match &token.token_type {
        TokenTypes::Identifier { .. } | TokenTypes::Comment { .. } => true,
        _ => false,
    }
}

fn parse_block_internal(tokens: &Vec<Token>, start: usize, config: &Config) -> (r: Result<
    (Vec<AST>, usize),
    ParseError,
>)
    requires
        start <= tokens@.len(),
    ensures
        agrees_list(r, p_statements(kinds(tokens@), start as int, *config)),
        r is Ok ==> start <= r->Ok_0.1 <= tokens@.len(),
    decreases tokens@.len() - start, 7int,
{
    let ghost ts = kinds(tokens@);
    let mut statements: Vec<AST> = Vec::new();
    let mut pos = start;
    proof {
        lemma_prefix_nil(p_statements(ts, start as int, *config));
    }
    while pos < tokens.len() && is_valid_body_token(&tokens[pos])
        invariant
            ts == kinds(tokens@),
            start <= pos <= tokens@.len(),
            p_statements(ts, start as int, *config) == prefix_list(
                views(statements@),
                p_statements(ts, pos as int, *config),
            ),
        decreases tokens@.len() - pos,
    {
        let is_comment = matches!(tokens[pos].token_type, TokenTypes::Comment { .. });
        match parse_statement(tokens, pos, config) {
            Err(x) => {
                return Err(x);
            },
            Ok((statement, p)) => {
                let ghost before = views(statements@);
                proof {
                    lemma_views_push(statements@, statement);
                }
                let next = if is_comment {
                    p
                } else if p >= tokens.len() {
                    return Err(ParseError::UnexpectedEnd);
                } else if !matches!(tokens[p].token_type, TokenTypes::Semi) {
                    return Err(ParseError::ExpectedSemicolon);
                } else {
                    p + 1
                };
                statements.push(statement);
                proof {
                    match p_statements(ts, next as int, *config) {
                        Ok((rest, q)) => {
                            assert(before + (seq![statement@] + rest) =~= before.push(statement@)
                                + rest);
                        },
                        Err(_) => {},
                    }
                }
                pos = next;
            },
        }
    }
    proof {
        lemma_prefix_nil(Ok((Seq::<AstView>::empty(), pos as int)));
        assert(views(statements@) + Seq::<AstView>::empty() =~= views(statements@));
    }
    Ok((statements, pos))
}

/// The block of statements that starts at `pos`, and where it ends.
pub fn parse_block(tokens: &Vec<Token>, pos: usize, config: &Config) -> (r: Result<
    (AST, usize),
    ParseError,
>)
    requires
        pos <= tokens@.len(),
    ensures
        match p_statements(kinds(tokens@), pos as int, *config) {
            Ok((stmts, p)) => r is Ok && r->Ok_0.0@ == AstView::Block(stmts) && r->Ok_0.1 == p,
            Err(x) => r == Err::<(AST, usize), ParseError>(x),
        },
{
    match parse_block_internal(tokens, pos, config) {
        Ok((statements, p)) => Ok((AST::Block { statements }, p)),
        Err(x) => Err(x),
    }
}

/// The program that the tokens spell.
pub fn parse(tokens: &Vec<Token>, config: &Config) -> (r: Result<AST, ParseError>)
    ensures
        match parsed(kinds(tokens@), *config) {
            Ok(a) => r is Ok && r->Ok_0@ == a,
            Err(x) => r == Err::<AST, ParseError>(x),
        },
{
    match parse_block(tokens, 0, config) {
        Ok((program, p)) => {
            if p < tokens.len() {
                Err(ParseError::TrailingTokens)
            } else {
                Ok(program)
            }
        },
        Err(x) => Err(x),
    }
}

} // verus!
