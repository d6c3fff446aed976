//! The tokenizer: a single-pass cursor over the characters of one formula
//! that yields positioned tokens.
//!
//! At each step the cursor skips whitespace, then dispatches on the first
//! remaining character: a digit or `.` starts a numeric literal, a
//! reserved punctuation character starts an operator token (with
//! two-character lookahead for `//`, `**`, `!=`, `<=` and `>=`), and
//! anything else starts an identifier, which is resolved against the
//! reserved words `true` and `false`.
//!
//! Every token records the half-open span `[start, end)` of the exact
//! characters it matched, counted in Unicode scalar values; the spans of
//! the yielded tokens tile the input, with nothing but whitespace between
//! them.

use vstd::prelude::*;
use vstd::string::StrSliceExecFns;
use vstd::string::StringExecFns;
use crate::error::ParseError;
use crate::token::Token;
use crate::token::TokenV;
use crate::token::digit_char;
use crate::token::digit_value;
use crate::token::false_text;
use crate::token::is_digit_char;
use crate::token::is_identifier_ending_char;
use crate::token::is_reserved_char;
use crate::token::is_whitespace_char;
use crate::token::reserved_char;
use crate::token::true_text;
use crate::token::whitespace_char;

verus! {

/// A token together with the half-open source span it matched.
#[derive(Debug, Clone, PartialEq)]
pub struct PositionedToken {
    pub token: Token,
    pub start: usize,
    pub end: usize,
}

/// The mathematical value of a [`PositionedToken`].
#[verifier::ext_equal]
pub struct PositionedTokenV {
    pub token: TokenV,
    pub start: usize,
    pub end: usize,
}

impl View for PositionedToken {
    type V = PositionedTokenV;

    open spec fn view(&self) -> PositionedTokenV {
        PositionedTokenV { token: self.token@, start: self.start, end: self.end }
    }
}

/// What one tokenizer step yields once whitespace is skipped: a token and
/// the offset just past it, or a lexical error.
#[verifier::ext_equal]
pub enum LexStep {
    Tok { token: TokenV, end: int },
    Fail { err: ParseError },
}

/// The first non-whitespace offset at or after `i`.
pub open spec fn skip_whitespace(s: Seq<char>, i: int) -> int
    decreases s.len() - i when 0 <= i <= s.len()
{
    if i >= s.len() {
        i
    } else if whitespace_char(s[i]) {
        skip_whitespace(s, i + 1)
    } else {
        i
    }
}

/// The offset just past the run of decimal digits starting at `i`.
pub open spec fn digits_end(s: Seq<char>, i: int) -> int
    decreases s.len() - i when 0 <= i <= s.len()
{
    if i >= s.len() {
        i
    } else if digit_char(s[i]) {
        digits_end(s, i + 1)
    } else {
        i
    }
}

/// The offset just past the identifier starting at `i`: identifiers run
/// until whitespace or reserved punctuation.
pub open spec fn identifier_end(s: Seq<char>, i: int) -> int
    decreases s.len() - i when 0 <= i <= s.len()
{
    if i >= s.len() {
        i
    } else if whitespace_char(s[i]) || reserved_char(s[i]) {
        i
    } else {
        identifier_end(s, i + 1)
    }
}

/// The value of a run of decimal digits, most significant first.
pub open spec fn digits_value(s: Seq<char>) -> int
    decreases s.len(),
{
    if s.len() == 0 {
        0
    } else {
        digits_value(s.drop_last()) * 10 + digit_value(s.last())
    }
}

/// The numeric-literal step at offset `p` (a digit or `.`): the maximal
/// run of digits with at most one `.` is matched; without a `.` it is a
/// signed 64-bit integer literal (rejected if its value does not fit),
/// with one it is a float literal keeping its text (rejected if it has no
/// digit at all).
pub open spec fn number_step(s: Seq<char>, p: int) -> LexStep {
    let d1 = digits_end(s, p);
    if d1 < s.len() && s[d1] == '.' {
        let e = digits_end(s, d1 + 1);
        if e - p >= 2 {
            LexStep::Tok { token: TokenV::FloatLiteral(s.subrange(p, e)), end: e }
        } else {
            LexStep::Fail {
                err: ParseError::MalformedFloatLiteral { start: p as usize, end: e as usize },
            }
        }
    } else {
        if digits_value(s.subrange(p, d1)) <= i64::MAX {
            LexStep::Tok {
                token: TokenV::IntLiteral(digits_value(s.subrange(p, d1)) as i64),
                end: d1,
            }
        } else {
            LexStep::Fail {
                err: ParseError::MalformedIntLiteral { start: p as usize, end: d1 as usize },
            }
        }
    }
}

/// The reserved-punctuation step at offset `p`: one token per symbol,
/// with two-character lookahead for the compound operators, a bare `!`
/// rejected, and the unassigned punctuation characters rejected.
pub open spec fn reserved_step(s: Seq<char>, p: int) -> LexStep {
    let c = s[p];
    if c == '+' {
        LexStep::Tok { token: TokenV::Plus, end: p + 1 }
    } else if c == '-' {
        LexStep::Tok { token: TokenV::Minus, end: p + 1 }
    } else if c == '*' {
        if p + 1 < s.len() && s[p + 1] == '*' {
            LexStep::Tok { token: TokenV::DoubleAsterisk, end: p + 2 }
        } else {
            LexStep::Tok { token: TokenV::Asterisk, end: p + 1 }
        }
    } else if c == '/' {
        if p + 1 < s.len() && s[p + 1] == '/' {
            LexStep::Tok { token: TokenV::DoubleSlash, end: p + 2 }
        } else {
            LexStep::Tok { token: TokenV::Slash, end: p + 1 }
        }
    } else if c == '\\' {
        LexStep::Tok { token: TokenV::Backslash, end: p + 1 }
    } else if c == '%' {
        LexStep::Tok { token: TokenV::Percent, end: p + 1 }
    } else if c == '^' {
        LexStep::Tok { token: TokenV::Caret, end: p + 1 }
    } else if c == '(' {
        LexStep::Tok { token: TokenV::LeftParenthesis, end: p + 1 }
    } else if c == ')' {
        LexStep::Tok { token: TokenV::RightParenthesis, end: p + 1 }
    } else if c == ',' {
        LexStep::Tok { token: TokenV::Comma, end: p + 1 }
    } else if c == '.' {
        LexStep::Tok { token: TokenV::Period, end: p + 1 }
    } else if c == '=' {
        LexStep::Tok { token: TokenV::Equals, end: p + 1 }
    } else if c == '!' {
        if p + 1 < s.len() && s[p + 1] == '=' {
            LexStep::Tok { token: TokenV::NotEquals, end: p + 2 }
        } else {
            LexStep::Fail { err: ParseError::LoneExclamation { at: p as usize } }
        }
    } else if c == '<' {
        if p + 1 < s.len() && s[p + 1] == '=' {
            LexStep::Tok { token: TokenV::LessThanOrEqual, end: p + 2 }
        } else {
            LexStep::Tok { token: TokenV::LessThan, end: p + 1 }
        }
    } else if c == '>' {
        if p + 1 < s.len() && s[p + 1] == '=' {
            LexStep::Tok { token: TokenV::GreaterThanOrEqual, end: p + 2 }
        } else {
            LexStep::Tok { token: TokenV::GreaterThan, end: p + 1 }
        }
    } else {
        LexStep::Fail { err: ParseError::UnexpectedCharacter { ch: c, at: p as usize } }
    }
}

/// The identifier step at offset `p`: the maximal identifier text,
/// resolved against the reserved words.
pub open spec fn identifier_step(s: Seq<char>, p: int) -> LexStep {
    let e = identifier_end(s, p);
    let text = s.subrange(p, e);
    if text == true_text() {
        LexStep::Tok { token: TokenV::BoolLiteral(true), end: e }
    } else if text == false_text() {
        LexStep::Tok { token: TokenV::BoolLiteral(false), end: e }
    } else {
        LexStep::Tok { token: TokenV::Identifier(text), end: e }
    }
}

/// One whole tokenizer step from offset `i`: skip whitespace, then
/// dispatch on the character class; `None` when only whitespace remains.
pub open spec fn next_step(s: Seq<char>, i: int) -> Option<LexStep> {
    let p = skip_whitespace(s, i);
    if p >= s.len() {
        None
    } else {
        let c = s[p];
        Some(
            if digit_char(c) || c == '.' {
                number_step(s, p)
            } else if reserved_char(c) {
                reserved_step(s, p)
            } else {
                identifier_step(s, p)
            },
        )
    }
}

/// Whether the characters `s` are exactly what the token `t` matches:
/// re-rendering `t` reconstructs `s`.
pub open spec fn token_matches(s: Seq<char>, t: TokenV) -> bool {
    match t {
        TokenV::Identifier(name) => name == s && s.len() > 0 && !digit_char(s[0]) && s[0] != '.'
            && (forall|j: int|
            0 <= j < s.len() ==> !(whitespace_char(s[j]) || reserved_char(s[j]))) && s
            != true_text() && s != false_text(),
        TokenV::IntLiteral(v) => s.len() > 0 && (forall|j: int|
            0 <= j < s.len() ==> digit_char(s[j])) && v == digits_value(s),
        TokenV::FloatLiteral(text) => text == s && s.len() >= 2 && (exists|j: int|
            0 <= j < s.len() && s[j] == '.') && (forall|j: int, k: int|
            0 <= j < k < s.len() && s[j] == '.' ==> s[k] != '.') && (forall|j: int|
            0 <= j < s.len() ==> digit_char(s[j]) || s[j] == '.'),
        TokenV::BoolLiteral(b) => s == (if b {
            true_text()
        } else {
            false_text()
        }),
        TokenV::Plus => s.len() == 1 && s[0] == '+',
        TokenV::Minus => s.len() == 1 && s[0] == '-',
        TokenV::Asterisk => s.len() == 1 && s[0] == '*',
        TokenV::Slash => s.len() == 1 && s[0] == '/',
        TokenV::DoubleSlash => s.len() == 2 && s[0] == '/' && s[1] == '/',
        TokenV::DoubleAsterisk => s.len() == 2 && s[0] == '*' && s[1] == '*',
        TokenV::Backslash => s.len() == 1 && s[0] == '\\',
        TokenV::Percent => s.len() == 1 && s[0] == '%',
        TokenV::Caret => s.len() == 1 && s[0] == '^',
        TokenV::LeftParenthesis => s.len() == 1 && s[0] == '(',
        TokenV::RightParenthesis => s.len() == 1 && s[0] == ')',
        TokenV::Comma => s.len() == 1 && s[0] == ',',
        TokenV::Period => s.len() == 1 && s[0] == '.',
        TokenV::Equals => s.len() == 1 && s[0] == '=',
        TokenV::NotEquals => s.len() == 2 && s[0] == '!' && s[1] == '=',
        TokenV::LessThan => s.len() == 1 && s[0] == '<',
        TokenV::LessThanOrEqual => s.len() == 2 && s[0] == '<' && s[1] == '=',
        TokenV::GreaterThan => s.len() == 1 && s[0] == '>',
        TokenV::GreaterThanOrEqual => s.len() == 2 && s[0] == '>' && s[1] == '=',
    }
}

/// The single-pass tokenizer cursor: the input characters and the count
/// of characters already read.
pub struct Tokens {
    text: String,
    length: usize,
    read: usize,
}

impl Tokens {
    /// The input as a sequence of Unicode scalar values.
    pub closed spec fn input(&self) -> Seq<char> {
        self.text@
    }

    /// The read position: the index of the next character.
    pub closed spec fn pos(&self) -> int {
        self.read as int
    }

    /// The cursor's internal consistency: the cached length is the char
    /// count and the read position never passes the end.
    pub closed spec fn wf(&self) -> bool {
        self.length == self.text@.len() && self.read <= self.length
    }

    /// A fresh cursor at the start of `text`.
    pub fn new(text: String) -> (r: Tokens)
        ensures
            r.wf(),
            r.input() == text@,
            r.pos() == 0,
    {
        let length = text.as_str().unicode_len();
        Tokens { text, length, read: 0 }
    }

    /// Reads one character, advancing past it.
    pub fn next_char(&mut self) -> (c: Option<char>)
        requires
            old(self).wf(),
        ensures
            final(self).wf(),
            final(self).input() == old(self).input(),
            old(self).pos() < old(self).input().len() ==> c == Some(
                old(self).input()[old(self).pos()],
            ) && final(self).pos() == old(self).pos() + 1,
            old(self).pos() >= old(self).input().len() ==> c == None::<char> && final(self).pos()
                == old(self).pos(),
    {
        if self.read < self.length {
            let c = self.text.as_str().get_char(self.read);
            self.read = self.read + 1;
            Some(c)
        } else {
            None
        }
    }

    /// Looks at the next character without advancing.
    pub fn peek_char(&self) -> (c: Option<char>)
        requires
            self.wf(),
        ensures
            c == (if self.pos() < self.input().len() {
                Some(self.input()[self.pos()])
            } else {
                None::<char>
            }),
    {
        if self.read < self.length {
            Some(self.text.as_str().get_char(self.read))
        } else {
            None
        }
    }

    /// Consumes the whitespace run at the read position.
    fn skip_ws(&mut self)
        requires
            old(self).wf(),
        ensures
            final(self).wf(),
            final(self).input() == old(self).input(),
            final(self).pos() == skip_whitespace(old(self).input(), old(self).pos()),
            old(self).pos() <= final(self).pos() <= old(self).input().len(),
            final(self).pos() == old(self).input().len() || !whitespace_char(
                old(self).input()[final(self).pos()],
            ),
            forall|j: int|
                old(self).pos() <= j < final(self).pos() ==> whitespace_char(
                    final(self).input()[j],
                ),
    {
        loop
            invariant
                self.wf(),
                self.input() == old(self).input(),
                old(self).pos() <= self.pos() <= self.input().len(),
                skip_whitespace(self.input(), old(self).pos()) == skip_whitespace(
                    self.input(),
                    self.pos(),
                ),
                forall|j: int|
                    old(self).pos() <= j < self.pos() ==> whitespace_char(self.input()[j]),
            decreases self.input().len() - self.pos(),
        {
            match self.peek_char() {
                Some(c) => {
                    if is_whitespace_char(c) {
                        self.next_char();
                    } else {
                        return ;
                    }
                },
                None => {
                    return ;
                },
            }
        }
    }

    /// Yields the next token and its span, a lexical error, or `None`
    /// once only whitespace remains.
    pub fn next(&mut self) -> (r: Option<Result<PositionedToken, ParseError>>)
        requires
            old(self).wf(),
        ensures
            final(self).wf(),
            final(self).input() == old(self).input(),
            final(self).pos() >= old(self).pos(),
            match r {
                None => {
                    &&& next_step(old(self).input(), old(self).pos()) is None
                    &&& final(self).pos() == old(self).input().len()
                    &&& forall|j: int|
                        old(self).pos() <= j < old(self).input().len() ==> whitespace_char(
                            old(self).input()[j],
                        )
                },
                Some(Ok(pt)) => {
                    &&& next_step(old(self).input(), old(self).pos()) == Some(
                        LexStep::Tok { token: pt.token@, end: pt.end as int },
                    )
                    &&& pt.start == skip_whitespace(old(self).input(), old(self).pos())
                    &&& old(self).pos() <= pt.start < pt.end <= old(self).input().len()
                    &&& final(self).pos() == pt.end
                    &&& token_matches(
                        old(self).input().subrange(pt.start as int, pt.end as int),
                        pt.token@,
                    )
                    &&& forall|j: int|
                        old(self).pos() <= j < pt.start ==> whitespace_char(old(self).input()[j])
                },
                Some(Err(e)) => {
                    &&& next_step(old(self).input(), old(self).pos()) == Some(
                        LexStep::Fail { err: e },
                    )
                    &&& old(self).pos() < final(self).pos() <= old(self).input().len()
                },
            },
    {
        self.skip_ws();
        let ghost s = self.input();
        let ghost p = self.pos();
        if self.read >= self.length {
            return None;
        }
        let c = self.text.as_str().get_char(self.read);
        if is_digit_char(c) || c == '.' {
            Some(self.parse_number())
        } else if is_reserved_char(c) {
            Some(self.parse_reserved_char())
        } else {
            Some(self.parse_text())
        }
    }

    /// Scans a numeric literal at the read position.
    fn parse_number(&mut self) -> (r: Result<PositionedToken, ParseError>)
        requires
            old(self).wf(),
            old(self).pos() < old(self).input().len(),
            digit_char(old(self).input()[old(self).pos()]) || old(self).input()[old(self).pos()]
                == '.',
        ensures
            final(self).wf(),
            final(self).input() == old(self).input(),
            match r {
                Ok(pt) => {
                    &&& number_step(old(self).input(), old(self).pos()) == LexStep::Tok {
                        token: pt.token@,
                        end: pt.end as int,
                    }
                    &&& pt.start == old(self).pos()
                    &&& pt.start < pt.end <= old(self).input().len()
                    &&& final(self).pos() == pt.end
                    &&& token_matches(
                        old(self).input().subrange(pt.start as int, pt.end as int),
                        pt.token@,
                    )
                },
                Err(e) => {
                    &&& number_step(old(self).input(), old(self).pos()) == LexStep::Fail { err: e }
                    &&& old(self).pos() < final(self).pos() <= old(self).input().len()
                },
            },
    {
        let ghost s = self.input();
        let start = self.read;
        self.scan_digits();
        let d1 = self.read;
        let is_float = match self.peek_char() {
            Some(c) => c == '.',
            None => false,
        };
        if is_float {
            self.next_char();
            self.scan_digits();
            let e = self.read;
            if e - start >= 2 {
                let piece = self.text.as_str().substring_char(start, e);
                let text = String::from_str(piece);
                proof {
                    assert(s.subrange(start as int, e as int) == text@);
                    let sub = s.subrange(start as int, e as int);
                    assert(sub.len() == e - start);
                    assert(forall|j: int| 0 <= j < sub.len() ==> sub[j] == s[start + j]);
                    assert(sub[d1 - start] == '.');
                    assert(!digit_char('.'));
                    assert(forall|j: int|
                        0 <= j < sub.len() && j != d1 - start ==> digit_char(#[trigger] sub[j]));
                    assert(exists|j: int| 0 <= j < sub.len() && sub[j] == '.');
                }
                Ok(PositionedToken { token: Token::FloatLiteral(text), start, end: e })
            } else {
                Err(ParseError::MalformedFloatLiteral { start, end: e })
            }
        } else {
            let ghost digits = s.subrange(start as int, d1 as int);
            proof {
                assert(digits.len() > 0);
            }
            let mut value: i64 = 0;
            let mut j = start;
            while j < d1
                invariant
                    self.wf(),
                    self.input() == s,
                    s == old(self).input(),
                    old(self).pos() == start as int,
                    self.pos() == d1 as int,
                    start <= j <= d1,
                    d1 <= s.len(),
                    d1 == digits_end(s, start as int),
                    start < d1,
                    !(d1 < s.len() && s[d1 as int] == '.'),
                    forall|k: int| start <= k < d1 ==> digit_char(s[k]),
                    0 <= value,
                    value == digits_value(s.subrange(start as int, j as int)),
                decreases d1 - j,
            {
                let c = self.text.as_str().get_char(j);
                let u = c as u32;
                let d = (u - 48) as i64;
                proof {
                    assert(s.subrange(start as int, j + 1).drop_last() == s.subrange(
                        start as int,
                        j as int,
                    ));
                    assert(s.subrange(start as int, j + 1).last() == s[j as int]);
                }
                if value > (i64::MAX - d) / 10 {
                    proof {
                        lemma_digits_value_nonneg(s, start as int, d1 as int);
                        lemma_digits_value_monotonic(s, start as int, j + 1, d1 as int);
                        assert(digits_value(s.subrange(start as int, j + 1)) == value * 10 + d);
                        assert(value * 10 + d > i64::MAX) by {
                            assert(value >= (i64::MAX - d) / 10 + 1);
                            assert(((i64::MAX - d) / 10 + 1) * 10 == ((i64::MAX - d) / 10) * 10
                                + 10);
                            assert(((i64::MAX - d) / 10) * 10 + 10 > i64::MAX - d) by (nonlinear_arith)
                                requires
                                    0 <= d <= 9,
                            {
                                assert(((i64::MAX - d) / 10) * 10 + (i64::MAX - d) % 10 == i64::MAX
                                    - d);
                            }
                            assert(value * 10 >= ((i64::MAX - d) / 10 + 1) * 10) by (nonlinear_arith)
                                requires
                                    value >= (i64::MAX - d) / 10 + 1,
                            ;
                        };
                    }
                    return Err(ParseError::MalformedIntLiteral { start, end: d1 });
                }
                proof {
                    assert(value * 10 + d <= i64::MAX) by (nonlinear_arith)
                        requires
                            0 <= value,
                            0 <= d,
                            value <= (i64::MAX - d) / 10,
                        {
                            assert(((i64::MAX - d) / 10) * 10 + (i64::MAX - d) % 10 == i64::MAX
                                - d);
                        };
                }
                value = value * 10 + d;
                j = j + 1;
            }
            proof {
                assert(s.subrange(start as int, d1 as int) == digits);
            }
            Ok(PositionedToken { token: Token::IntLiteral(value), start, end: d1 })
        }
    }

    /// Consumes the run of decimal digits at the read position.
    fn scan_digits(&mut self)
        requires
            old(self).wf(),
        ensures
            final(self).wf(),
            final(self).input() == old(self).input(),
            final(self).pos() == digits_end(old(self).input(), old(self).pos()),
            old(self).pos() <= final(self).pos() <= old(self).input().len(),
            final(self).pos() == old(self).input().len() || !digit_char(
                old(self).input()[final(self).pos()],
            ),
            forall|j: int|
                old(self).pos() <= j < final(self).pos() ==> digit_char(final(self).input()[j]),
    {
        loop
            invariant
                self.wf(),
                self.input() == old(self).input(),
                old(self).pos() <= self.pos() <= self.input().len(),
                digits_end(self.input(), old(self).pos()) == digits_end(self.input(), self.pos()),
                forall|j: int| old(self).pos() <= j < self.pos() ==> digit_char(self.input()[j]),
            decreases self.input().len() - self.pos(),
        {
            match self.peek_char() {
                Some(c) => {
                    if is_digit_char(c) {
                        self.next_char();
                    } else {
                        return ;
                    }
                },
                None => {
                    return ;
                },
            }
        }
    }

    /// Scans an identifier at the read position and resolves reserved
    /// words.
    fn parse_text(&mut self) -> (r: Result<PositionedToken, ParseError>)
        requires
            old(self).wf(),
            old(self).pos() < old(self).input().len(),
            !reserved_char(old(self).input()[old(self).pos()]),
            !whitespace_char(old(self).input()[old(self).pos()]),
            !digit_char(old(self).input()[old(self).pos()]),
            old(self).input()[old(self).pos()] != '.',
        ensures
            final(self).wf(),
            final(self).input() == old(self).input(),
            match r {
                Ok(pt) => {
                    &&& identifier_step(old(self).input(), old(self).pos()) == LexStep::Tok {
                        token: pt.token@,
                        end: pt.end as int,
                    }
                    &&& pt.start == old(self).pos()
                    &&& pt.start < pt.end <= old(self).input().len()
                    &&& final(self).pos() == pt.end
                    &&& token_matches(
                        old(self).input().subrange(pt.start as int, pt.end as int),
                        pt.token@,
                    )
                },
                Err(e) => false,
            },
    {
        let ghost s = self.input();
        let start = self.read;
        loop
            invariant
                self.wf(),
                self.input() == s,
                start < s.len(),
                !(whitespace_char(s[start as int]) || reserved_char(s[start as int])),
                start as int <= self.pos() <= s.len(),
                identifier_end(s, start as int) == identifier_end(s, self.pos()),
                forall|j: int|
                    start <= j < self.pos() ==> !(whitespace_char(s[j]) || reserved_char(s[j])),
            ensures
                self.wf(),
                self.input() == s,
                (start as int) < self.pos(),
                self.pos() <= s.len(),
                self.pos() == identifier_end(s, start as int),
                forall|j: int|
                    start <= j < self.pos() ==> !(whitespace_char(s[j]) || reserved_char(s[j])),
            decreases s.len() - self.pos(),
        {
            match self.peek_char() {
                Some(c) => {
                    if !is_identifier_ending_char(&c) {
                        self.next_char();
                    } else {
                        break ;
                    }
                },
                None => {
                    break ;
                },
            }
        }
        let e = self.read;
        proof {
            assert(identifier_end(s, start as int) == e);
        }
        let piece = self.text.as_str().substring_char(start, e);
        let text = String::from_str(piece);
        proof {
            assert(text@ == s.subrange(start as int, e as int));
        }
        let token = Token::reserved_or_identifier(text);
        Ok(PositionedToken { token, start, end: e })
    }

    /// Scans one reserved punctuation token at the read position, with
    /// two-character lookahead for the compound operators.
    fn parse_reserved_char(&mut self) -> (r: Result<PositionedToken, ParseError>)
        requires
            old(self).wf(),
            old(self).pos() < old(self).input().len(),
            reserved_char(old(self).input()[old(self).pos()]),
            !(digit_char(old(self).input()[old(self).pos()]) || old(self).input()[old(self).pos()]
                == '.'),
        ensures
            final(self).wf(),
            final(self).input() == old(self).input(),
            match r {
                Ok(pt) => {
                    &&& reserved_step(old(self).input(), old(self).pos()) == LexStep::Tok {
                        token: pt.token@,
                        end: pt.end as int,
                    }
                    &&& pt.start == old(self).pos()
                    &&& pt.start < pt.end <= old(self).input().len()
                    &&& final(self).pos() == pt.end
                    &&& token_matches(
                        old(self).input().subrange(pt.start as int, pt.end as int),
                        pt.token@,
                    )
                },
                Err(e) => {
                    &&& reserved_step(old(self).input(), old(self).pos()) == LexStep::Fail {
                        err: e,
                    }
                    &&& old(self).pos() < final(self).pos() <= old(self).input().len()
                },
            },
    {
        let ghost s = self.input();
        let start = self.read;
        let c = match self.next_char() {
            Some(c) => c,
            None => {
                proof {
                    assert(false);
                }
                return Err(ParseError::UnexpectedCharacter { ch: ' ', at: start });
            },
        };
        let token = if c == '+' {
            Token::Plus
        } else if c == '-' {
            Token::Minus
        } else if c == '*' {
            let two = match self.peek_char() {
                Some(n) => n == '*',
                None => false,
            };
            if two {
                self.next_char();
                Token::DoubleAsterisk
            } else {
                Token::Asterisk
            }
        } else if c == '/' {
            let two = match self.peek_char() {
                Some(n) => n == '/',
                None => false,
            };
            if two {
                self.next_char();
                Token::DoubleSlash
            } else {
                Token::Slash
            }
        } else if c == '\\' {
            Token::Backslash
        } else if c == '%' {
            Token::Percent
        } else if c == '^' {
            Token::Caret
        } else if c == '(' {
            Token::LeftParenthesis
        } else if c == ')' {
            Token::RightParenthesis
        } else if c == ',' {
            Token::Comma
        } else if c == '=' {
            Token::Equals
        } else if c == '!' {
            let two = match self.peek_char() {
                Some(n) => n == '=',
                None => false,
            };
            if two {
                self.next_char();
                Token::NotEquals
            } else {
                return Err(ParseError::LoneExclamation { at: start });
            }
        } else if c == '<' {
            let two = match self.peek_char() {
                Some(n) => n == '=',
                None => false,
            };
            if two {
                self.next_char();
                Token::LessThanOrEqual
            } else {
                Token::LessThan
            }
        } else if c == '>' {
            let two = match self.peek_char() {
                Some(n) => n == '=',
                None => false,
            };
            if two {
                self.next_char();
                Token::GreaterThanOrEqual
            } else {
                Token::GreaterThan
            }
        } else {
            return Err(ParseError::UnexpectedCharacter { ch: c, at: start });
        };
        let end = self.read;
        proof {
            assert(s.subrange(start as int, end as int) =~= (if end == start + 1 {
                seq![s[start as int]]
            } else {
                seq![s[start as int], s[start as int + 1]]
            }));
        }
        Ok(PositionedToken { token, start, end })
    }
}

/// Digit runs have nonnegative values.
proof fn lemma_digits_value_nonneg(s: Seq<char>, i: int, j: int)
    requires
        0 <= i <= j <= s.len(),
        forall|k: int| i <= k < j ==> digit_char(s[k]),
    ensures
        digits_value(s.subrange(i, j)) >= 0,
    decreases j - i,
{
    if j > i {
        lemma_digits_value_nonneg(s, i, j - 1);
        assert(s.subrange(i, j).drop_last() == s.subrange(i, j - 1));
        assert(s.subrange(i, j).last() == s[j - 1]);
        assert(digit_value(s[j - 1]) >= 0);
    } else {
        assert(s.subrange(i, j).len() == 0);
    }
}

/// Extending a digit run never lowers its value.
proof fn lemma_digits_value_monotonic(s: Seq<char>, i: int, j: int, k: int)
    requires
        0 <= i <= j <= k <= s.len(),
        forall|m: int| i <= m < k ==> digit_char(s[m]),
    ensures
        digits_value(s.subrange(i, j)) <= digits_value(s.subrange(i, k)),
    decreases k - j,
{
    if k > j {
        lemma_digits_value_monotonic(s, i, j, k - 1);
        lemma_digits_value_nonneg(s, i, k - 1);
        assert(s.subrange(i, k).drop_last() == s.subrange(i, k - 1));
        assert(s.subrange(i, k).last() == s[k - 1]);
        let prev = digits_value(s.subrange(i, k - 1));
        assert(digits_value(s.subrange(i, k)) == prev * 10 + digit_value(s[k - 1]));
        assert(prev * 10 >= prev) by (nonlinear_arith)
            requires
                prev >= 0,
        ;
        assert(digit_value(s[k - 1]) >= 0);
    }
}


/// The views of a sequence of positioned tokens.
pub open spec fn tokens_view(v: Seq<PositionedToken>) -> Seq<PositionedTokenV> {
    v.map(|i: int, pt: PositionedToken| pt@)
}

/// The offset where token `k`'s whitespace gap begins: the end of the
/// previous token, or the start of the input.
pub open spec fn prev_end(ts: Seq<PositionedTokenV>, k: int) -> int {
    if k == 0 {
        0
    } else {
        ts[k - 1].end as int
    }
}

/// The offset just past the last token, or the start of the input.
pub open spec fn last_end(ts: Seq<PositionedTokenV>) -> int {
    if ts.len() == 0 {
        0
    } else {
        ts[ts.len() - 1].end as int
    }
}

/// Token `k` accounts for every character from the end of token `k - 1`
/// to its own end: nothing but whitespace before its span, and its span
/// holds exactly the characters the token matches. Chained over all `k`,
/// the spans and gaps reconstruct the input with no character dropped or
/// duplicated.
pub open spec fn tile_at(s: Seq<char>, ts: Seq<PositionedTokenV>, k: int) -> bool {
    &&& prev_end(ts, k) <= ts[k].start as int
    &&& (ts[k].start as int) < ts[k].end as int
    &&& ts[k].end <= s.len()
    &&& token_matches(s.subrange(ts[k].start as int, ts[k].end as int), ts[k].token)
    &&& forall|j: int| prev_end(ts, k) <= j < ts[k].start as int ==> whitespace_char(s[j])
}

/// Token `k` is exactly what one tokenizer step yields from the end of
/// token `k - 1`.
pub open spec fn step_at(s: Seq<char>, ts: Seq<PositionedTokenV>, k: int) -> bool {
    &&& next_step(s, prev_end(ts, k)) == Some(
        LexStep::Tok { token: ts[k].token, end: ts[k].end as int },
    )
    &&& ts[k].start as int == skip_whitespace(s, prev_end(ts, k))
}

/// Token `k` both tiles the input and is the step relation's output.
pub open spec fn run_at(s: Seq<char>, ts: Seq<PositionedTokenV>, k: int) -> bool {
    tile_at(s, ts, k) && step_at(s, ts, k)
}

/// The token sequence `ts` is the exact, gap-free run of tokenizer steps
/// over `s`.
pub open spec fn token_run(s: Seq<char>, ts: Seq<PositionedTokenV>) -> bool {
    forall|k: int| 0 <= k < ts.len() ==> #[trigger] run_at(s, ts, k)
}

/// Tokenizes a whole formula.
///
/// On success the returned tokens tile the input: their spans are in
/// order, separated by nothing but whitespace, each span holds exactly
/// the characters its token matches, and only whitespace follows the
/// last one. On failure the error is the one the deterministic step
/// relation yields after some such run of tokens.
pub fn tokenize(text: String) -> (r: Result<Vec<PositionedToken>, ParseError>)
    ensures
        match r {
            Ok(toks) => {
                let ts = tokens_view(toks@);
                &&& token_run(text@, ts)
                &&& 0 <= last_end(ts) <= text@.len()
                &&& next_step(text@, last_end(ts)) is None
                &&& forall|j: int| last_end(ts) <= j < text@.len() ==> whitespace_char(text@[j])
            },
            Err(e) => exists|ts: Seq<PositionedTokenV>|
                {
                    &&& token_run(text@, ts)
                    &&& 0 <= last_end(ts) <= text@.len()
                    &&& next_step(text@, last_end(ts)) == Some(LexStep::Fail { err: e })
                },
        },
{
    let ghost s = text@;
    let mut cursor = Tokens::new(text);
    let mut out: Vec<PositionedToken> = Vec::new();
    loop
        invariant
            s == text@,
            cursor.wf(),
            cursor.input() == s,
            0 <= cursor.pos() <= s.len(),
            token_run(s, tokens_view(out@)),
            last_end(tokens_view(out@)) == cursor.pos(),
        decreases s.len() - cursor.pos(),
    {
        let ghost ts = tokens_view(out@);
        let ghost p = cursor.pos();
        match cursor.next() {
            None => {
                return Ok(out);
            },
            Some(Ok(pt)) => {
                let ghost ts2 = tokens_view(out@.push(pt));
                proof {
                    assert(ts2 =~= ts.push(pt@));
                    assert(prev_end(ts2, ts.len() as int) == p);
                    assert(tile_at(s, ts2, ts.len() as int));
                    assert(step_at(s, ts2, ts.len() as int));
                    assert(token_run(s, ts));
                    assert forall|k: int| 0 <= k < ts2.len() implies #[trigger] run_at(
                        s,
                        ts2,
                        k,
                    ) by {
                        if k < ts.len() {
                            assert(run_at(s, ts, k));
                            assert(ts2[k] == ts[k]);
                            if k > 0 {
                                assert(ts2[k - 1] == ts[k - 1]);
                            }
                            assert(prev_end(ts2, k) == prev_end(ts, k));
                            assert(step_at(s, ts2, k));
                            assert(tile_at(s, ts2, k));
                        }
                    }
                    assert(token_run(s, ts2));
                    assert(last_end(ts2) == pt.end as int);
                }
                out.push(pt);
                proof {
                    assert(tokens_view(out@) =~= ts2);
                    assert(token_run(s, tokens_view(out@)));
                    assert(last_end(tokens_view(out@)) == cursor.pos());
                }
            },
            Some(Err(e)) => {
                proof {
                    assert(token_run(s, ts));
                    assert(last_end(ts) == p);
                    assert(next_step(s, p) == Some(LexStep::Fail { err: e }));
                }
                return Err(e);
            },
        }
    }
}

} // verus!
