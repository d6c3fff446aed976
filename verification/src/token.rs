//! Lexical units and operator symbols.
//!
//! A [`Token`] is a classified lexical unit with no semantic meaning beyond
//! its kind and literal payload. An [`Operator`] is the closed set of
//! punctuation and comparison symbols; only some of them carry a binary
//! precedence tier and only `+` and `-` are legal prefix operators.

use vstd::prelude::*;

verus! {

/// A leaf lexical unit.
///
/// Numeric literals with no decimal point are signed 64-bit integers; a
/// literal with a decimal point keeps its matched decimal text, so that
/// consumers outside the core may convert it to a binary float at the
/// boundary.
#[derive(Debug, Clone, PartialEq)]
pub enum Token {
    Identifier(String),
    IntLiteral(i64),
    FloatLiteral(String),
    BoolLiteral(bool),
    Plus,
    Minus,
    Asterisk,
    Slash,
    DoubleSlash,
    DoubleAsterisk,
    Backslash,
    Percent,
    Caret,
    LeftParenthesis,
    RightParenthesis,
    Comma,
    Period,
    Equals,
    NotEquals,
    LessThan,
    LessThanOrEqual,
    GreaterThan,
    GreaterThanOrEqual,
}

/// The mathematical value of a [`Token`]: text payloads are sequences of
/// Unicode scalar values.
pub enum TokenV {
    Identifier(Seq<char>),
    IntLiteral(i64),
    FloatLiteral(Seq<char>),
    BoolLiteral(bool),
    Plus,
    Minus,
    Asterisk,
    Slash,
    DoubleSlash,
    DoubleAsterisk,
    Backslash,
    Percent,
    Caret,
    LeftParenthesis,
    RightParenthesis,
    Comma,
    Period,
    Equals,
    NotEquals,
    LessThan,
    LessThanOrEqual,
    GreaterThan,
    GreaterThanOrEqual,
}

impl View for Token {
    type V = TokenV;

    open spec fn view(&self) -> TokenV {
        match self {
            Token::Identifier(s) => TokenV::Identifier(s@),
            Token::IntLiteral(i) => TokenV::IntLiteral(*i),
            Token::FloatLiteral(s) => TokenV::FloatLiteral(s@),
            Token::BoolLiteral(b) => TokenV::BoolLiteral(*b),
            Token::Plus => TokenV::Plus,
            Token::Minus => TokenV::Minus,
            Token::Asterisk => TokenV::Asterisk,
            Token::Slash => TokenV::Slash,
            Token::DoubleSlash => TokenV::DoubleSlash,
            Token::DoubleAsterisk => TokenV::DoubleAsterisk,
            Token::Backslash => TokenV::Backslash,
            Token::Percent => TokenV::Percent,
            Token::Caret => TokenV::Caret,
            Token::LeftParenthesis => TokenV::LeftParenthesis,
            Token::RightParenthesis => TokenV::RightParenthesis,
            Token::Comma => TokenV::Comma,
            Token::Period => TokenV::Period,
            Token::Equals => TokenV::Equals,
            Token::NotEquals => TokenV::NotEquals,
            Token::LessThan => TokenV::LessThan,
            Token::LessThanOrEqual => TokenV::LessThanOrEqual,
            Token::GreaterThan => TokenV::GreaterThan,
            Token::GreaterThanOrEqual => TokenV::GreaterThanOrEqual,
        }
    }
}

/// The punctuation and comparison symbols, as they appear between operands.
#[derive(Debug, Clone, Copy, PartialEq, Eq, Structural)]
pub enum Operator {
    Plus,
    Minus,
    Asterisk,
    Slash,
    DoubleSlash,
    DoubleAsterisk,
    Backslash,
    Percent,
    Caret,
    Comma,
    Equals,
    NotEquals,
    LessThan,
    LessThanOrEqual,
    GreaterThan,
    GreaterThanOrEqual,
    Period,
}

/// The precedence tier of an operator when used as an infix binary
/// operator: tier 1 for `+ -`, tier 2 for `* / // %`, tier 3 for the two
/// exponentiation spellings, and nothing for every other symbol.
pub open spec fn spec_binary_precedence(op: Operator) -> Option<usize> {
    match op {
        Operator::Plus | Operator::Minus => Some(1usize),
        Operator::Asterisk | Operator::Slash | Operator::DoubleSlash | Operator::Percent => Some(
            2usize,
        ),
        Operator::DoubleAsterisk | Operator::Caret => Some(3usize),
        _ => None,
    }
}

impl Operator {
    /// The precedence tier of this operator as an infix binary operator,
    /// or `None` for symbols that have no binary meaning.
    pub fn binary_precedence(&self) -> (r: Option<usize>)
        ensures
            r == spec_binary_precedence(*self),
    {
        match self {
            Operator::Plus | Operator::Minus => Some(1),
            Operator::Asterisk | Operator::Slash | Operator::DoubleSlash | Operator::Percent => {
                Some(2)
            },
            Operator::DoubleAsterisk | Operator::Caret => Some(3),
            _ => None,
        }
    }

    /// The conventional spelling of this operator, for messages.
    pub fn symbol_str(&self) -> (s: &'static str)
        ensures
            s@ == spec_symbol_text(*self),
    {
        let s: &'static str = match self {
            Operator::Plus => "+",
            Operator::Minus => "-",
            Operator::Asterisk => "*",
            Operator::Slash => "/",
            Operator::DoubleSlash => "//",
            Operator::DoubleAsterisk => "**",
            Operator::Backslash => "\\",
            Operator::Percent => "%",
            Operator::Caret => "^",
            Operator::Comma => ",",
            Operator::Equals => "=",
            Operator::NotEquals => "!=",
            Operator::LessThan => "<",
            Operator::LessThanOrEqual => "<=",
            Operator::GreaterThan => ">",
            Operator::GreaterThanOrEqual => ">=",
            Operator::Period => ".",
        };
        proof {
            reveal_strlit("+");
            reveal_strlit("-");
            reveal_strlit("*");
            reveal_strlit("/");
            reveal_strlit("//");
            reveal_strlit("**");
            reveal_strlit("\\");
            reveal_strlit("%");
            reveal_strlit("^");
            reveal_strlit(",");
            reveal_strlit("=");
            reveal_strlit("!=");
            reveal_strlit("<");
            reveal_strlit("<=");
            reveal_strlit(">");
            reveal_strlit(">=");
            reveal_strlit(".");
        }
        s
    }
}

/// The conventional spelling of each operator, as a character sequence.
pub open spec fn spec_symbol_text(op: Operator) -> Seq<char> {
    match op {
        Operator::Plus => seq!['+'],
        Operator::Minus => seq!['-'],
        Operator::Asterisk => seq!['*'],
        Operator::Slash => seq!['/'],
        Operator::DoubleSlash => seq!['/', '/'],
        Operator::DoubleAsterisk => seq!['*', '*'],
        Operator::Backslash => seq!['\\'],
        Operator::Percent => seq!['%'],
        Operator::Caret => seq!['^'],
        Operator::Comma => seq![','],
        Operator::Equals => seq!['='],
        Operator::NotEquals => seq!['!', '='],
        Operator::LessThan => seq!['<'],
        Operator::LessThanOrEqual => seq!['<', '='],
        Operator::GreaterThan => seq!['>'],
        Operator::GreaterThanOrEqual => seq!['>', '='],
        Operator::Period => seq!['.'],
    }
}

/// The fixed set of reserved punctuation characters: a character in this
/// set can never be part of an identifier.
pub open spec fn reserved_char(c: char) -> bool {
    c == '+' || c == '-' || c == '/' || c == '\'' || c == '*' || c == '!' || c == '@' || c == '#'
        || c == '$' || c == '%' || c == '^' || c == '&' || c == '(' || c == ')' || c == ';' || c
        == ':' || c == '<' || c == '>' || c == '=' || c == '?' || c == ',' || c == '.' || c == '\\'
        || c == '|' || c == '~' || c == '`' || c == '"'
}

/// Whether `c` is a Unicode whitespace character (the `White_Space`
/// property, the set that `char::is_whitespace` accepts).
pub open spec fn whitespace_char(c: char) -> bool {
    let u = c as u32;
    (0x09 <= u && u <= 0x0d) || u == 0x20 || u == 0x85 || u == 0xa0 || u == 0x1680 || (0x2000 <= u
        && u <= 0x200a) || u == 0x2028 || u == 0x2029 || u == 0x202f || u == 0x205f || u == 0x3000
}

/// Whether `c` is an ASCII decimal digit.
pub open spec fn digit_char(c: char) -> bool {
    0x30 <= c as u32 && c as u32 <= 0x39
}

/// The numeric value of an ASCII decimal digit.
pub open spec fn digit_value(c: char) -> int {
    c as u32 - 0x30
}

/// Runtime test for [`reserved_char`].
pub fn is_reserved_char(c: char) -> (r: bool)
    ensures
        r == reserved_char(c),
{
    c == '+' || c == '-' || c == '/' || c == '\'' || c == '*' || c == '!' || c == '@' || c == '#'
        || c == '$' || c == '%' || c == '^' || c == '&' || c == '(' || c == ')' || c == ';' || c
        == ':' || c == '<' || c == '>' || c == '=' || c == '?' || c == ',' || c == '.' || c == '\\'
        || c == '|' || c == '~' || c == '`' || c == '"'
}

/// Runtime test for [`whitespace_char`].
pub fn is_whitespace_char(c: char) -> (r: bool)
    ensures
        r == whitespace_char(c),
{
    let u = c as u32;
    (0x09 <= u && u <= 0x0d) || u == 0x20 || u == 0x85 || u == 0xa0 || u == 0x1680 || (0x2000 <= u
        && u <= 0x200a) || u == 0x2028 || u == 0x2029 || u == 0x202f || u == 0x205f || u == 0x3000
}

/// Runtime test for [`digit_char`].
pub fn is_digit_char(c: char) -> (r: bool)
    ensures
        r == digit_char(c),
{
    let u = c as u32;
    0x30 <= u && u <= 0x39
}

/// Whether `c` ends an identifier: identifiers run until whitespace or a
/// reserved punctuation character.
pub fn is_identifier_ending_char(char: &char) -> (r: bool)
    ensures
        r == (whitespace_char(*char) || reserved_char(*char)),
{
    is_whitespace_char(*char) || is_reserved_char(*char)
}

/// Whether `c` may start an identifier: any character that is not reserved
/// punctuation. (Whitespace and digits are dispatched before this test.)
pub fn is_valid_identifier_starting_char(char: &char) -> (r: bool)
    ensures
        r == !reserved_char(*char),
{
    !is_reserved_char(*char)
}

/// The spelling of the reserved word for `true`.
pub open spec fn true_text() -> Seq<char> {
    seq!['t', 'r', 'u', 'e']
}

/// The spelling of the reserved word for `false`.
pub open spec fn false_text() -> Seq<char> {
    seq!['f', 'a', 'l', 's', 'e']
}

impl Token {
    /// The token for a reserved word, if `s` is one: `true` and `false`
    /// are the boolean literals.
    pub fn from_reserved(s: &str) -> (r: Option<Token>)
        ensures
            r == (if s@ == true_text() {
                Some(Token::BoolLiteral(true))
            } else if s@ == false_text() {
                Some(Token::BoolLiteral(false))
            } else {
                None::<Token>
            }),
    {
        proof {
            reveal_strlit("true");
            reveal_strlit("false");
            assert("true"@ =~= true_text());
            assert("false"@ =~= false_text());
        }
        if eq_str(s, "true") {
            Some(Token::BoolLiteral(true))
        } else if eq_str(s, "false") {
            Some(Token::BoolLiteral(false))
        } else {
            None
        }
    }

    /// Resolves scanned identifier text: a reserved word becomes its
    /// token, anything else an identifier carrying the text.
    pub fn reserved_or_identifier(s: String) -> (r: Token)
        ensures
            r@ == (if s@ == true_text() {
                TokenV::BoolLiteral(true)
            } else if s@ == false_text() {
                TokenV::BoolLiteral(false)
            } else {
                TokenV::Identifier(s@)
            }),
    {
        match Token::from_reserved(s.as_str()) {
            Some(reserved) => reserved,
            None => Token::Identifier(s),
        }
    }
}

/// Character-wise equality of two string slices.
pub fn eq_str(a: &str, b: &str) -> (r: bool)
    ensures
        r == (a@ == b@),
{
    let a_len = a.unicode_len();
    let b_len = b.unicode_len();
    if a_len != b_len {
        proof {
            assert(a@ != b@) by {
                assert(a@.len() != b@.len());
            }
        }
        return false;
    }
    let mut i: usize = 0;
    while i < a_len
        invariant
            i <= a_len,
            a_len == a@.len(),
            b_len == b@.len(),
            a_len == b_len,
            forall|j: int| 0 <= j < i ==> a@[j] == b@[j],
        decreases a_len - i,
    {
        if a.get_char(i) != b.get_char(i) {
            proof {
                assert(a@[i as int] != b@[i as int]);
            }
            return false;
        }
        i = i + 1;
    }
    proof {
        assert(a@ =~= b@);
    }
    true
}

} // verus!
