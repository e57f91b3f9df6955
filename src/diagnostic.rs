//! The layout of a diagnostic that points at a token: its source line, and
//! under it a row of marks spanning the token's columns.
use vstd::prelude::*;
use crate::text::{digits, push_char, push_repeated, push_str, push_unsigned};
use crate::token::Token;

verus! {

/// How serious a diagnostic is; each has its own mark.
#[derive(Debug, Clone, Copy, PartialEq, Eq, Structural)]
pub enum Severity {
    Info,
    Warning,
    Error,
}

/// The mark that underlines a token.
pub open spec fn mark_of(s: Severity) -> char {
    match s {
        Severity::Info => '\u{FE49}',
        Severity::Warning => '~',
        Severity::Error => '\u{203E}',
    }
}

/// `n` copies of `c`.
pub open spec fn repeated(c: char, n: nat) -> Seq<char> {
    Seq::new(n, |i: int| c)
}

/// The width of a token's span; an inverted span is empty.
pub open spec fn span_width(token: Token) -> nat {
    if token.end >= token.start {
        (token.end - token.start) as nat
    } else {
        0
    }
}

impl Severity {
    pub fn mark(&self) -> (r: char)
        ensures
            r == mark_of(*self),
    {
        match self {
            Severity::Info => '\u{FE49}',
            Severity::Warning => '~',
            Severity::Error => '\u{203E}',
        }
    }
}

/// A diagnostic's lines: `header` is `<line> | <source line>`; under it
/// `indent` then `marks`, which a terminal may color.
pub struct Underline {
    pub header: String,
    pub indent: String,
    pub marks: String,
}

/// Lays out a diagnostic for `token`.
pub fn underline(token: &Token, severity: Severity) -> (r: Underline)
    ensures
        r.header@ == digits(token.line as nat) + seq![' ', '|', ' '] + token.line_contents@,
        r.indent@ == repeated(' ', digits(token.line as nat).len() + 3 + token.start as nat),
        r.marks@ == repeated(mark_of(severity), span_width(*token)),
{
    let mut number = String::new();
    push_unsigned(&mut number, token.line as u64);
    let width = crate::text::chars_of(number.as_str()).len();
    let mut header = String::new();
    push_str(&mut header, number.as_str());
    push_char(&mut header, ' ');
    push_char(&mut header, '|');
    push_char(&mut header, ' ');
    push_str(&mut header, token.line_contents.as_str());
    assert(header@ =~= digits(token.line as nat) + seq![' ', '|', ' '] + token.line_contents@);
    let mut indent = String::new();
    push_repeated(&mut indent, ' ', width);
    push_repeated(&mut indent, ' ', 3);
    push_repeated(&mut indent, ' ', token.start);
    assert(indent@ =~= repeated(' ', digits(token.line as nat).len() + 3 + token.start as nat));
    let mut marks = String::new();
    let n: usize = if token.end >= token.start {
        token.end - token.start
    } else {
        0
    };
    push_repeated(&mut marks, severity.mark(), n);
    assert(marks@ =~= repeated(mark_of(severity), span_width(*token)));
    Underline { header, indent, marks }
}

} // verus!
