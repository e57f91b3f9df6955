//! The lexical scanner: source text to tokens.
use vstd::prelude::*;
use crate::text::{chars_of, string_of};
use crate::token::{Token, TokenKind, TokenTypes, TokenView};

verus! {

/// Why scanning stopped.
#[derive(Debug, Clone, Copy, PartialEq, Eq, Structural)]
pub enum ScanError {
    /// A string literal has no closing quote.
    UnterminatedString,
    /// A numeric literal does not fit in 64 bits.
    NumberTooLarge,
}

/// What `char::is_alphanumeric` says of `c`.
pub uninterp spec fn alphanumeric(c: char) -> bool;

/// Whether `c` has the Unicode `White_Space` property.
pub open spec fn is_white_space(c: char) -> bool {
    let n = c as u32;
    (0x9 <= n <= 0xD) || n == 0x20 || n == 0x85 || n == 0xA0 || n == 0x1680 || (0x2000 <= n
        <= 0x200A) || n == 0x2028 || n == 0x2029 || n == 0x202F || n == 0x205F || n == 0x3000
}

/// `s` without its leading white space.
pub open spec fn trim_start(s: Seq<char>) -> Seq<char>
    decreases s.len(),
{
    if s.len() > 0 && is_white_space(s[0]) {
        trim_start(s.drop_first())
    } else {
        s
    }
}

/// `s` without its trailing white space.
pub open spec fn trim_end(s: Seq<char>) -> Seq<char>
    decreases s.len(),
{
    if s.len() > 0 && is_white_space(s.last()) {
        trim_end(s.drop_last())
    } else {
        s
    }
}

/// `s` without leading and trailing white space.
pub open spec fn trimmed(s: Seq<char>) -> Seq<char> {
    trim_end(trim_start(s))
}

/// Relies on `char::is_alphanumeric`: whether `c` is alphabetic or numeric;
/// among ASCII characters exactly the letters and digits are.
#[verifier::external_body]
fn is_alphanumeric(c: char) -> (r: bool)
    ensures
        r == alphanumeric(c),
        (c as u32) < 128 ==> (r <==> ('a' <= c <= 'z' || 'A' <= c <= 'Z' || '0' <= c <= '9')),
{
    c.is_alphanumeric()
}

/// Relies on `str::trim`: the text without leading and trailing characters
/// of the Unicode `White_Space` set.
#[verifier::external_body]
fn trim(s: &str) -> (r: String)
    ensures
        r@ == trimmed(s@),
{
    s.trim().to_string()
}

/// Blanks that separate tokens and produce none.
pub open spec fn is_blank(c: char) -> bool {
    c == ' ' || c == '\r' || c == '\t'
}

pub open spec fn is_digit(c: char) -> bool {
    '0' <= c <= '9'
}

pub open spec fn digit_value(c: char) -> int {
    (c as u32) as int - ('0' as u32) as int
}

/// The number that a run of decimal digits spells.
pub open spec fn number_value(ds: Seq<char>) -> int
    decreases ds.len(),
{
    if ds.len() == 0 {
        0
    } else {
        number_value(ds.drop_last()) * 10 + digit_value(ds.last())
    }
}

/// The end of the run of digits that starts at `i`.
pub open spec fn digits_end(cs: Seq<char>, i: int) -> int
    decreases cs.len() - i,
{
    if 0 <= i < cs.len() && is_digit(cs[i]) {
        digits_end(cs, i + 1)
    } else {
        i
    }
}

/// The end of the run of alphanumeric characters that starts at `i`.
pub open spec fn alnum_end(cs: Seq<char>, i: int) -> int
    decreases cs.len() - i,
{
    if 0 <= i < cs.len() && alphanumeric(cs[i]) {
        alnum_end(cs, i + 1)
    } else {
        i
    }
}

/// The first newline at or after `i`, or the end of the text.
pub open spec fn line_end(cs: Seq<char>, i: int) -> int
    decreases cs.len() - i,
{
    if 0 <= i < cs.len() && cs[i] != '\n' {
        line_end(cs, i + 1)
    } else {
        i
    }
}

/// The first quote at or after `i`, or the end of the text.
pub open spec fn quote_end(cs: Seq<char>, i: int) -> int
    decreases cs.len() - i,
{
    if 0 <= i < cs.len() && cs[i] != '"' {
        quote_end(cs, i + 1)
    } else {
        i
    }
}

/// The token that starts at `pos` and where it ends.
pub open spec fn lex(cs: Seq<char>, pos: int) -> Result<(TokenKind, int), ScanError> {
    let c = cs[pos];
    if c == '+' {
        Ok((TokenKind::Plus, pos + 1))
    } else if c == '-' {
        Ok((TokenKind::Minus, pos + 1))
    } else if c == '*' {
        Ok((TokenKind::Star, pos + 1))
    } else if c == '=' {
        Ok((TokenKind::Equals, pos + 1))
    } else if c == '(' {
        Ok((TokenKind::OpenParen, pos + 1))
    } else if c == ')' {
        Ok((TokenKind::CloseParen, pos + 1))
    } else if c == '{' {
        Ok((TokenKind::OpenCurly, pos + 1))
    } else if c == '}' {
        Ok((TokenKind::CloseCurly, pos + 1))
    } else if c == ';' {
        Ok((TokenKind::Semi, pos + 1))
    } else if c == ',' {
        Ok((TokenKind::Comma, pos + 1))
    } else if c == '/' {
        if pos + 1 < cs.len() && cs[pos + 1] == '/' {
            let e = line_end(cs, pos + 2);
            Ok((TokenKind::Comment(trimmed(cs.subrange(pos + 2, e))), e))
        } else {
            Ok((TokenKind::Slash, pos + 1))
        }
    } else if c == '"' {
        let q = quote_end(cs, pos + 1);
        if q >= cs.len() {
            Err(ScanError::UnterminatedString)
        } else {
            Ok((TokenKind::Str(cs.subrange(pos + 1, q)), q + 1))
        }
    } else if is_digit(c) {
        let e = digits_end(cs, pos);
        let v = number_value(cs.subrange(pos, e));
        if v > i64::MAX {
            Err(ScanError::NumberTooLarge)
        } else {
            Ok((TokenKind::Number(v), e))
        }
    } else {
        let e = alnum_end(cs, pos + 1);
        Ok((TokenKind::Identifier(cs.subrange(pos, e)), e))
    }
}

/// The tokens of `cs` from `pos` on, where the current line is `line` and
/// starts at `line_start`.
pub open spec fn scan_from(cs: Seq<char>, pos: int, line: nat, line_start: int) -> Result<
    Seq<TokenView>,
    ScanError,
>
    decreases cs.len() - pos,
{
    if pos < 0 || pos >= cs.len() {
        Ok(Seq::empty())
    } else if cs[pos] == '\n' {
        scan_from(cs, pos + 1, line + 1, pos + 1)
    } else if is_blank(cs[pos]) {
        scan_from(cs, pos + 1, line, line_start)
    } else {
        match lex(cs, pos) {
            Err(x) => Err(x),
            Ok((kind, e)) => if e <= pos || e > cs.len() {
                Ok(Seq::empty())
            } else {
                match scan_from(cs, e, line, line_start) {
                    Err(x) => Err(x),
                    Ok(rest) => Ok(
                        seq![
                            TokenView {
                                kind,
                                start: (pos - line_start) as nat,
                                end: (e - line_start) as nat,
                                line,
                                line_contents: cs.subrange(line_start, line_end(cs, line_start)),
                            },
                        ] + rest,
                    ),
                }
            },
        }
    }
}

/// The tokens of a whole text.
pub open spec fn scan(cs: Seq<char>) -> Result<Seq<TokenView>, ScanError> {
    scan_from(cs, 0, 1, 0)
}

pub open spec fn token_views(ts: Seq<Token>) -> Seq<TokenView> {
    ts.map_values(|t: Token| t@)
}

fn find_digits_end(cs: &Vec<char>, i: usize) -> (r: usize)
    requires
        i <= cs@.len(),
    ensures
        r == digits_end(cs@, i as int),
        digits_end(cs@, r as int) == r,
        i <= r <= cs@.len(),
{
    let mut j = i;
    while j < cs.len() && '0' <= cs[j] && cs[j] <= '9'
        invariant
            i <= j <= cs@.len(),
            digits_end(cs@, i as int) == digits_end(cs@, j as int),
        decreases cs@.len() - j,
    {
        j = j + 1;
    }
    j
}

fn find_alnum_end(cs: &Vec<char>, i: usize) -> (r: usize)
    requires
        i <= cs@.len(),
    ensures
        r == alnum_end(cs@, i as int),
        i <= r <= cs@.len(),
{
    let mut j = i;
    while j < cs.len() && is_alphanumeric(cs[j])
        invariant
            i <= j <= cs@.len(),
            alnum_end(cs@, i as int) == alnum_end(cs@, j as int),
        decreases cs@.len() - j,
    {
        j = j + 1;
    }
    j
}

fn find_line_end(cs: &Vec<char>, i: usize) -> (r: usize)
    requires
        i <= cs@.len(),
    ensures
        r == line_end(cs@, i as int),
        i <= r <= cs@.len(),
{
    let mut j = i;
    while j < cs.len() && cs[j] != '\n'
        invariant
            i <= j <= cs@.len(),
            line_end(cs@, i as int) == line_end(cs@, j as int),
        decreases cs@.len() - j,
    {
        j = j + 1;
    }
    j
}

fn find_quote_end(cs: &Vec<char>, i: usize) -> (r: usize)
    requires
        i <= cs@.len(),
    ensures
        r == quote_end(cs@, i as int),
        i <= r <= cs@.len(),
{
    let mut j = i;
    while j < cs.len() && cs[j] != '"'
        invariant
            i <= j <= cs@.len(),
            quote_end(cs@, i as int) == quote_end(cs@, j as int),
        decreases cs@.len() - j,
    {
        j = j + 1;
    }
    j
}

proof fn lemma_number_value_grows(ds: Seq<char>, i: int)
    requires
        0 <= i <= ds.len(),
        forall|k: int| 0 <= k < ds.len() ==> #[trigger] is_digit(ds[k]),
    ensures
        number_value(ds.subrange(0, i)) <= number_value(ds),
    decreases ds.len(),
{
    if i < ds.len() {
        let d = ds.drop_last();
        assert(is_digit(ds[ds.len() - 1]));
        assert forall|k: int| 0 <= k < d.len() implies #[trigger] is_digit(d[k]) by {
            assert(d[k] == ds[k]);
            assert(is_digit(ds[k]));
        }
        lemma_number_value_grows(d, i);
        assert(d.subrange(0, i) =~= ds.subrange(0, i));
        assert(number_value(d) >= 0) by {
            lemma_number_value_nonneg(d);
        }
    } else {
        assert(ds.subrange(0, i) =~= ds);
    }
}

proof fn lemma_number_value_nonneg(ds: Seq<char>)
    requires
        forall|k: int| 0 <= k < ds.len() ==> #[trigger] is_digit(ds[k]),
    ensures
        number_value(ds) >= 0,
    decreases ds.len(),
{
    if ds.len() > 0 {
        let d = ds.drop_last();
        assert(is_digit(ds[ds.len() - 1]));
        assert forall|k: int| 0 <= k < d.len() implies #[trigger] is_digit(d[k]) by {
            assert(d[k] == ds[k]);
            assert(is_digit(ds[k]));
        }
        lemma_number_value_nonneg(d);
    }
}

proof fn lemma_digits_run(cs: Seq<char>, i: int, j: int)
    requires
        0 <= i <= j,
        digits_end(cs, i) == digits_end(cs, j),
        j <= digits_end(cs, i),
    ensures
        forall|k: int| i <= k < j ==> #[trigger] is_digit(cs[k]),
    decreases j - i,
{
    if i < j {
        assert(0 <= i < cs.len() && is_digit(cs[i])) by {
            if !(0 <= i < cs.len() && is_digit(cs[i])) {
                assert(digits_end(cs, i) == i);
            }
        }
        lemma_digits_run(cs, i + 1, j);
    }
}

/// The value of the digits `cs[from..to]`, or `None` where it exceeds
/// `i64::MAX`.
fn read_number(cs: &Vec<char>, from: usize, to: usize) -> (r: Option<i64>)
    requires
        from <= to <= cs@.len(),
        forall|k: int| from <= k < to ==> #[trigger] is_digit(cs@[k]),
    ensures
        match r {
            Some(v) => v as int == number_value(cs@.subrange(from as int, to as int)),
            None => number_value(cs@.subrange(from as int, to as int)) > i64::MAX,
        },
{
    let ghost ds = cs@.subrange(from as int, to as int);
    let mut acc: i64 = 0;
    let mut k = from;
    while k < to
        invariant
            from <= k <= to <= cs@.len(),
            ds == cs@.subrange(from as int, to as int),
            forall|j: int| from <= j < to ==> #[trigger] is_digit(cs@[j]),
            acc as int == number_value(cs@.subrange(from as int, k as int)),
            acc >= 0,
        decreases to - k,
    {
        assert(cs@.subrange(from as int, k + 1).drop_last() =~= cs@.subrange(from as int, k as int));
        assert(is_digit(cs@[k as int]));
        let d = (cs[k] as u32 - '0' as u32) as i64;
        let next = match acc.checked_mul(10) {
            Some(m) => m.checked_add(d),
            None => None,
        };
        match next {
            Some(v) => {
                acc = v;
            },
            None => {
                proof {
                    assert(d as int == digit_value(cs@[k as int]));
                    assert(number_value(cs@.subrange(from as int, k + 1)) == acc * 10 + d);
                    assert(acc * 10 + d > i64::MAX) by (nonlinear_arith)
                        requires
                            acc >= 0,
                            d >= 0,
                            acc * 10 > i64::MAX || acc * 10 + d > i64::MAX,
                    ;
                    assert forall|j: int| 0 <= j < ds.len() implies #[trigger] is_digit(ds[j]) by {
                        assert(ds[j] == cs@[from + j]);
                        assert(is_digit(cs@[from + j]));
                    }
                    assert(cs@.subrange(from as int, k + 1) =~= ds.subrange(0, k + 1 - from));
                    lemma_number_value_grows(ds, k + 1 - from);
                }
                return None;
            },
        }
        k = k + 1;
    }
    Some(acc)
}

/// The token that starts at `pos`, which is neither a blank nor a newline.
fn lex_at(cs: &Vec<char>, pos: usize) -> (r: Result<(TokenTypes, usize), ScanError>)
    requires
        pos < cs@.len() < usize::MAX,
        cs@[pos as int] != '\n',
        !is_blank(cs@[pos as int]),
    ensures
        match lex(cs@, pos as int) {
            Ok((k, e)) => r is Ok && r->Ok_0.0@ == k && r->Ok_0.1 == e && pos < e <= cs@.len(),
            Err(x) => r == Err::<(TokenTypes, usize), ScanError>(x),
        },
{
    let c = cs[pos];
    if c == '+' {
        Ok((TokenTypes::Plus, pos + 1))
    } else if c == '-' {
        Ok((TokenTypes::Minus, pos + 1))
    } else if c == '*' {
        Ok((TokenTypes::Star, pos + 1))
    } else if c == '=' {
        Ok((TokenTypes::Equals, pos + 1))
    } else if c == '(' {
        Ok((TokenTypes::OpenParen, pos + 1))
    } else if c == ')' {
        Ok((TokenTypes::CloseParen, pos + 1))
    } else if c == '{' {
        Ok((TokenTypes::OpenCurly, pos + 1))
    } else if c == '}' {
        Ok((TokenTypes::CloseCurly, pos + 1))
    } else if c == ';' {
        Ok((TokenTypes::Semi, pos + 1))
    } else if c == ',' {
        Ok((TokenTypes::Comma, pos + 1))
    } else if c == '/' {
        if pos + 1 < cs.len() && cs[pos + 1] == '/' {
            let e = find_line_end(cs, pos + 2);
            let raw = string_of(cs, pos + 2, e);
            let value = trim(raw.as_str());
            Ok((TokenTypes::Comment { value }, e))
        } else {
            Ok((TokenTypes::Slash, pos + 1))
        }
    } else if c == '"' {
        let q = find_quote_end(cs, pos + 1);
        if q >= cs.len() {
            Err(ScanError::UnterminatedString)
        } else {
            let value = string_of(cs, pos + 1, q);
            Ok((TokenTypes::String { value }, q + 1))
        }
    } else if '0' <= c && c <= '9' {
        let e = find_digits_end(cs, pos + 1);
        proof {
            lemma_digits_run(cs@, pos as int, e as int);
        }
        match read_number(cs, pos, e) {
            Some(value) => Ok((TokenTypes::Number { value }, e)),
            None => Err(ScanError::NumberTooLarge),
        }
    } else {
        let e = find_alnum_end(cs, pos + 1);
        let value = string_of(cs, pos, e);
        Ok((TokenTypes::Identifier { value }, e))
    }
}

/// `p` before the tokens of `r`, or the error of `r`.
pub open spec fn prefixed(p: Seq<TokenView>, r: Result<Seq<TokenView>, ScanError>) -> Result<
    Seq<TokenView>,
    ScanError,
> {
    match r {
        Ok(rest) => Ok(p + rest),
        Err(x) => Err(x),
    }
}

/// Turns source text into tokens.
pub struct Tokenizer {
    input: Vec<char>,
}

impl View for Tokenizer {
    type V = Seq<char>;

    closed spec fn view(&self) -> Seq<char> {
        self.input@
    }
}

impl Tokenizer {
    pub fn from_string(input: String) -> (r: Tokenizer)
        ensures
            r@ == input@,
    {
        Tokenizer { input: chars_of(input.as_str()) }
    }

    /// The tokens of the whole input, or the first malformed literal.
    pub fn tokenize(self) -> (r: Result<Vec<Token>, ScanError>)
        requires
            self@.len() < usize::MAX,
        ensures
            match scan(self@) {
                Ok(ts) => r is Ok && token_views(r->Ok_0@) == ts,
                Err(x) => r == Err::<Vec<Token>, ScanError>(x),
            },
    {
        let cs = self.input;
        let n = cs.len();
        let mut out: Vec<Token> = Vec::new();
        let mut pos: usize = 0;
        let mut line: usize = 1;
        let mut ls: usize = 0;
        assert(token_views(out@) =~= Seq::<TokenView>::empty());
        assert(prefixed(Seq::empty(), scan(cs@)) =~= scan(cs@)) by {
            match scan(cs@) {
                Ok(ts) => {
                    assert(Seq::<TokenView>::empty() + ts =~= ts);
                },
                Err(_) => {},
            }
        }
        while pos < n
            invariant
                cs@ == self@,
                n == cs@.len(),
                n < usize::MAX,
                ls <= pos <= n,
                1 <= line <= pos + 1,
                scan(cs@) == prefixed(token_views(out@), scan_from(cs@, pos as int, line as nat, ls as int)),
            decreases n - pos,
        {
            let c = cs[pos];
            if c == '\n' {
                line = line + 1;
                pos = pos + 1;
                ls = pos;
            } else if c == ' ' || c == '\r' || c == '\t' {
                pos = pos + 1;
            } else {
                match lex_at(&cs, pos) {
                    Err(x) => {
                        assert(scan_from(cs@, pos as int, line as nat, ls as int) == Err::<
                            Seq<TokenView>,
                            ScanError,
                        >(x));
                        return Err(x);
                    },
                    Ok((tt, e)) => {
                        let le = find_line_end(&cs, ls);
                        let line_contents = string_of(&cs, ls, le);
                        let tok = Token { token_type: tt, start: pos - ls, end: e - ls, line, line_contents };
                        let ghost before = token_views(out@);
                        out.push(tok);
                        assert(token_views(out@) =~= before.push(tok@));
                        proof {
                            match scan_from(cs@, e as int, line as nat, ls as int) {
                                Ok(rest) => {
                                    assert(before.push(tok@) + rest =~= before + (seq![tok@] + rest));
                                },
                                Err(_) => {},
                            }
                        }
                        pos = e;
                    },
                }
            }
        }
        assert(token_views(out@) + Seq::<TokenView>::empty() =~= token_views(out@));
        Ok(out)
    }
}

} // verus!
