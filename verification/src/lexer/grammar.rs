//! The lexical grammar of Lua as the lexer implements it.
//!
//! Each lexeme class is a predicate on a candidate lexeme (a sequence of
//! characters). The lexer reads, at each position, the longest prefix of the
//! remaining input that is a lexeme of some class (maximal munch); keywords
//! take precedence over identifiers of the same text. Whitespace and comments
//! are skipped, integer numerals whose value does not fit in an `i64` are
//! dropped, and input at which no lexeme starts is dropped as well: one
//! character, or, for an unterminated quoted string, the text up to the point
//! at which it can no longer be continued.
use vstd::prelude::*;
use crate::lexer::Token;
use crate::lexer::helpers::unescaped;

verus! {

pub open spec fn is_space(c: char) -> bool {
    c == ' ' || c == '\t' || c == '\n' || c == '\x0c'
}

pub open spec fn is_digit(c: char) -> bool {
    '0' <= c && c <= '9'
}

pub open spec fn is_hex_digit(c: char) -> bool {
    is_digit(c) || ('a' <= c && c <= 'f') || ('A' <= c && c <= 'F')
}

pub open spec fn is_ident_start(c: char) -> bool {
    ('a' <= c && c <= 'z') || ('A' <= c && c <= 'Z') || c == '_'
}

pub open spec fn is_ident_char(c: char) -> bool {
    is_ident_start(c) || is_digit(c)
}

/// `[ \t\n\f]+`
pub open spec fn space_run(s: Seq<char>) -> bool {
    s.len() >= 1 && forall|k: int| 0 <= k < s.len() ==> is_space(#[trigger] s[k])
}

/// `--[^\n]*`
pub open spec fn line_comment(s: Seq<char>) -> bool {
    &&& s.len() >= 2
    &&& s[0] == '-'
    &&& s[1] == '-'
    &&& forall|k: int| 2 <= k < s.len() ==> #[trigger] s[k] != '\n'
}

/// `([^\]]|\][^\]])*`: every `]` is followed by a character other than `]`.
pub open spec fn bracket_body(t: Seq<char>) -> bool {
    forall|k: int| 0 <= k < t.len() && #[trigger] t[k] == ']' ==> k + 1 < t.len() && t[k + 1] != ']'
}

/// `--\[\[([^\]]|\][^\]])*\]\]`
pub open spec fn block_comment(s: Seq<char>) -> bool {
    &&& s.len() >= 6
    &&& s[0] == '-'
    &&& s[1] == '-'
    &&& s[2] == '['
    &&& s[3] == '['
    &&& s[s.len() - 2] == ']'
    &&& s[s.len() - 1] == ']'
    &&& bracket_body(s.subrange(4, s.len() - 2))
}

/// `\[\[([^\]]|\][^\]])*\]\]`
pub open spec fn long_string(s: Seq<char>) -> bool {
    &&& s.len() >= 4
    &&& s[0] == '['
    &&& s[1] == '['
    &&& s[s.len() - 2] == ']'
    &&& s[s.len() - 1] == ']'
    &&& bracket_body(s.subrange(2, s.len() - 2))
}

/// `[a-zA-Z_][a-zA-Z0-9_]*`
pub open spec fn identifier(s: Seq<char>) -> bool {
    &&& s.len() >= 1
    &&& is_ident_start(s[0])
    &&& forall|k: int| 1 <= k < s.len() ==> is_ident_char(#[trigger] s[k])
}

/// `<[a-zA-Z_][a-zA-Z0-9_]*>`
pub open spec fn attribute(s: Seq<char>) -> bool {
    &&& s.len() >= 3
    &&& s[0] == '<'
    &&& s[s.len() - 1] == '>'
    &&& identifier(s.subrange(1, s.len() - 1))
}

/// `::[a-zA-Z_][a-zA-Z0-9_]*::`
pub open spec fn label(s: Seq<char>) -> bool {
    &&& s.len() >= 5
    &&& s[0] == ':'
    &&& s[1] == ':'
    &&& s[s.len() - 2] == ':'
    &&& s[s.len() - 1] == ':'
    &&& identifier(s.subrange(2, s.len() - 2))
}

/// `[0-9](?:_[0-9]|[0-9])*`: decimal digits, where a separator `_` may stand
/// between two digits.
pub open spec fn digits(s: Seq<char>) -> bool {
    &&& s.len() >= 1
    &&& is_digit(s[0])
    &&& forall|k: int|
        0 <= k < s.len() ==> (is_digit(#[trigger] s[k]) || (s[k] == '_' && k + 1 < s.len() && is_digit(
            s[k + 1],
        )))
}

/// `[eE][+-]?D`
pub open spec fn exponent(s: Seq<char>) -> bool {
    &&& s.len() >= 2
    &&& (s[0] == 'e' || s[0] == 'E')
    &&& (digits(s.skip(1)) || ((s[1] == '+' || s[1] == '-') && digits(s.skip(2))))
}

/// `s` splits as `D\.D(?:[eE][+-]?D)?` with the point at `a` and the
/// exponent, if any, starting at `b`.
pub open spec fn float_point_at(s: Seq<char>, a: int, b: int) -> bool {
    &&& 1 <= a < b <= s.len()
    &&& s[a] == '.'
    &&& digits(s.take(a))
    &&& digits(s.subrange(a + 1, b))
    &&& (b == s.len() || exponent(s.skip(b)))
}

/// `D\.D(?:[eE][+-]?D)?`
pub open spec fn float_point(s: Seq<char>) -> bool {
    exists|a: int, b: int| float_point_at(s, a, b)
}

/// `s` splits as `D[eE][+-]?D` with the exponent starting at `a`.
pub open spec fn float_exponent_at(s: Seq<char>, a: int) -> bool {
    1 <= a < s.len() && digits(s.take(a)) && exponent(s.skip(a))
}

/// `D[eE][+-]?D`
pub open spec fn float_exponent(s: Seq<char>) -> bool {
    exists|a: int| float_exponent_at(s, a)
}

/// `0[xX][0-9a-fA-F]+`
pub open spec fn hex_integer(s: Seq<char>) -> bool {
    &&& s.len() >= 3
    &&& s[0] == '0'
    &&& (s[1] == 'x' || s[1] == 'X')
    &&& forall|k: int| 2 <= k < s.len() ==> is_hex_digit(#[trigger] s[k])
}

/// The body of a string literal quoted by `q`: `([^q\\]|\\.)*`, where `.` is
/// any character but a line feed.
pub open spec fn quoted_body(t: Seq<char>, q: char) -> bool
    decreases t.len(),
{
    if t.len() == 0 {
        true
    } else if t[0] == '\\' {
        t.len() >= 2 && t[1] != '\n' && quoted_body(t.skip(2), q)
    } else {
        t[0] != q && quoted_body(t.skip(1), q)
    }
}

/// A string literal quoted by `q` (`"` or `'`).
pub open spec fn quoted(s: Seq<char>, q: char) -> bool {
    &&& s.len() >= 2
    &&& s[0] == q
    &&& s[s.len() - 1] == q
    &&& quoted_body(s.subrange(1, s.len() - 1), q)
}

/// The one-character operators and punctuation.
pub open spec fn single_symbol(c: char) -> Option<Token> {
    if c == '=' {
        Some(Token::Assign)
    } else if c == '~' {
        Some(Token::BitXor)
    } else if c == '&' {
        Some(Token::BitAnd)
    } else if c == '|' {
        Some(Token::BitOr)
    } else if c == '>' {
        Some(Token::GreaterThan)
    } else if c == '<' {
        Some(Token::LessThan)
    } else if c == '+' {
        Some(Token::Plus)
    } else if c == '-' {
        Some(Token::Minus)
    } else if c == '*' {
        Some(Token::Multiply)
    } else if c == '/' {
        Some(Token::Divide)
    } else if c == '%' {
        Some(Token::Modulus)
    } else if c == '^' {
        Some(Token::Power)
    } else if c == '#' {
        Some(Token::Length)
    } else if c == ':' {
        Some(Token::Colon)
    } else if c == ';' {
        Some(Token::Semicolon)
    } else if c == ',' {
        Some(Token::Comma)
    } else if c == '.' {
        Some(Token::Dot)
    } else if c == '(' {
        Some(Token::LeftParen)
    } else if c == ')' {
        Some(Token::RightParen)
    } else if c == '{' {
        Some(Token::LeftBrace)
    } else if c == '}' {
        Some(Token::RightBrace)
    } else if c == '[' {
        Some(Token::LeftBracket)
    } else if c == ']' {
        Some(Token::RightBracket)
    } else {
        None
    }
}

/// The two-character operators.
pub open spec fn double_symbol(a: char, b: char) -> Option<Token> {
    if a == '.' && b == '.' {
        Some(Token::Concat)
    } else if a == ':' && b == ':' {
        Some(Token::LabelDelim)
    } else if a == '=' && b == '=' {
        Some(Token::Equal)
    } else if a == '~' && b == '=' {
        Some(Token::NotEqual)
    } else if a == '<' && b == '=' {
        Some(Token::LessEqual)
    } else if a == '>' && b == '=' {
        Some(Token::GreaterEqual)
    } else if a == '<' && b == '<' {
        Some(Token::ShiftLeft)
    } else if a == '>' && b == '>' {
        Some(Token::ShiftRight)
    } else if a == '/' && b == '/' {
        Some(Token::FloorDivide)
    } else {
        None
    }
}

/// The operator or punctuation token that `s` spells, if any.
pub open spec fn symbol(s: Seq<char>) -> Option<Token> {
    if s.len() == 1 {
        single_symbol(s[0])
    } else if s.len() == 2 {
        double_symbol(s[0], s[1])
    } else if s.len() == 3 && s[0] == '.' && s[1] == '.' && s[2] == '.' {
        Some(Token::VarArgs)
    } else {
        None
    }
}

/// The keyword token that `s` spells, if any.
pub open spec fn keyword(s: Seq<char>) -> Option<Token> {
    if s == seq!['a', 'n', 'd'] {
        Some(Token::And)
    } else if s == seq!['b', 'r', 'e', 'a', 'k'] {
        Some(Token::Break)
    } else if s == seq!['d', 'o'] {
        Some(Token::Do)
    } else if s == seq!['e', 'l', 's', 'e'] {
        Some(Token::Else)
    } else if s == seq!['e', 'l', 's', 'e', 'i', 'f'] {
        Some(Token::ElseIf)
    } else if s == seq!['e', 'n', 'd'] {
        Some(Token::End)
    } else if s == seq!['f', 'a', 'l', 's', 'e'] {
        Some(Token::False)
    } else if s == seq!['f', 'o', 'r'] {
        Some(Token::For)
    } else if s == seq!['f', 'u', 'n', 'c', 't', 'i', 'o', 'n'] {
        Some(Token::Function)
    } else if s == seq!['g', 'o', 't', 'o'] {
        Some(Token::Goto)
    } else if s == seq!['i', 'f'] {
        Some(Token::If)
    } else if s == seq!['i', 'n'] {
        Some(Token::In)
    } else if s == seq!['l', 'o', 'c', 'a', 'l'] {
        Some(Token::Local)
    } else if s == seq!['n', 'i', 'l'] {
        Some(Token::Nil)
    } else if s == seq!['n', 'o', 't'] {
        Some(Token::Not)
    } else if s == seq!['o', 'r'] {
        Some(Token::Or)
    } else if s == seq!['r', 'e', 'p', 'e', 'a', 't'] {
        Some(Token::Repeat)
    } else if s == seq!['r', 'e', 't', 'u', 'r', 'n'] {
        Some(Token::Return)
    } else if s == seq!['t', 'h', 'e', 'n'] {
        Some(Token::Then)
    } else if s == seq!['t', 'r', 'u', 'e'] {
        Some(Token::True)
    } else if s == seq!['u', 'n', 't', 'i', 'l'] {
        Some(Token::Until)
    } else if s == seq!['w', 'h', 'i', 'l', 'e'] {
        Some(Token::While)
    } else {
        None
    }
}

/// `s` is a lexeme of some class.
pub open spec fn is_lexeme(s: Seq<char>) -> bool {
    ||| space_run(s)
    ||| line_comment(s)
    ||| block_comment(s)
    ||| identifier(s)
    ||| attribute(s)
    ||| label(s)
    ||| symbol(s) is Some
    ||| float_point(s)
    ||| float_exponent(s)
    ||| hex_integer(s)
    ||| digits(s)
    ||| long_string(s)
    ||| quoted(s, '"')
    ||| quoted(s, '\'')
}

/// The `m` characters of `cs` from `i` on form the longest lexeme that starts
/// at `i`.
pub open spec fn is_longest(cs: Seq<char>, i: int, m: int) -> bool {
    &&& 1 <= m
    &&& 0 <= i
    &&& i + m <= cs.len()
    &&& is_lexeme(cs.subrange(i, i + m))
    &&& forall|m2: int| m < m2 && i + m2 <= cs.len() ==> !is_lexeme(#[trigger] cs.subrange(i, i + m2))
}

pub open spec fn digit_value(c: char) -> int {
    c as int - '0' as int
}

pub open spec fn hex_digit_value(c: char) -> int {
    if is_digit(c) {
        c as int - '0' as int
    } else if 'a' <= c && c <= 'f' {
        c as int - 'a' as int + 10
    } else {
        c as int - 'A' as int + 10
    }
}

/// The value of a decimal numeral; separators are ignored.
pub open spec fn decimal_value(s: Seq<char>) -> int
    decreases s.len(),
{
    if s.len() == 0 {
        0
    } else if s.last() == '_' {
        decimal_value(s.drop_last())
    } else {
        decimal_value(s.drop_last()) * 10 + digit_value(s.last())
    }
}

/// The value of a sequence of hexadecimal digits.
pub open spec fn hex_value(s: Seq<char>) -> int
    decreases s.len(),
{
    if s.len() == 0 {
        0
    } else {
        hex_value(s.drop_last()) * 16 + hex_digit_value(s.last())
    }
}

/// `s` with its digit separators removed.
pub open spec fn without_separators(s: Seq<char>) -> Seq<char>
    decreases s.len(),
{
    if s.len() == 0 {
        s
    } else if s.last() == '_' {
        without_separators(s.drop_last())
    } else {
        without_separators(s.drop_last()).push(s.last())
    }
}

/// Whitespace and comments.
pub open spec fn is_skipped(s: Seq<char>) -> bool {
    space_run(s) || line_comment(s) || block_comment(s)
}

pub open spec fn is_integer_numeral(s: Seq<char>) -> bool {
    hex_integer(s) || digits(s)
}

pub open spec fn numeral_value(s: Seq<char>) -> int {
    if hex_integer(s) {
        hex_value(s.skip(2))
    } else {
        decimal_value(s)
    }
}

/// The lexeme `s` produces no token: it is skipped, or it is an integer
/// numeral too large for an `i64`.
pub open spec fn is_silent(s: Seq<char>) -> bool {
    is_skipped(s) || (is_integer_numeral(s) && numeral_value(s) > i64::MAX)
}

/// The lexeme `s` produces the token `t`.
pub open spec fn yields(s: Seq<char>, t: Token) -> bool {
    if is_skipped(s) {
        false
    } else if keyword(s) is Some {
        t == keyword(s)->0
    } else if identifier(s) {
        t matches Token::Identifier(x) && x@ == s
    } else if attribute(s) {
        t matches Token::Attribute(x) && x@ == s.subrange(1, s.len() - 1)
    } else if label(s) {
        t matches Token::Label(x) && x@ == s.subrange(2, s.len() - 2)
    } else if symbol(s) is Some {
        t == symbol(s)->0
    } else if float_point(s) || float_exponent(s) {
        t matches Token::Number(x) && x@ == without_separators(s)
    } else if is_integer_numeral(s) {
        numeral_value(s) <= i64::MAX && t == Token::Integer(numeral_value(s) as i64)
    } else if long_string(s) {
        t matches Token::StringLiteral(x) && x@ == s.subrange(2, s.len() - 2)
    } else if quoted(s, '"') || quoted(s, '\'') {
        t matches Token::StringLiteral(x) && x@ == unescaped(s.subrange(1, s.len() - 1))
    } else {
        false
    }
}

/// Scans the body of a quoted string from `k`: `Ok(e)` when the closing quote
/// ends at `e` (exclusive), `Err(e)` when the body can no longer continue at
/// `e` (a backslash before a line feed, or the end of input).
pub open spec fn quote_scan(cs: Seq<char>, k: int, q: char) -> Result<int, int>
    decreases cs.len() - k,
{
    if k < 0 || k >= cs.len() {
        Err(cs.len() as int)
    } else if cs[k] == q {
        Ok(k + 1)
    } else if cs[k] == '\\' {
        if k + 1 < cs.len() && cs[k + 1] != '\n' {
            quote_scan(cs, k + 2, q)
        } else {
            Err(k + 1)
        }
    } else {
        quote_scan(cs, k + 1, q)
    }
}

/// How much input is dropped at `i` when no lexeme starts there.
pub open spec fn unmatched_len(cs: Seq<char>, i: int) -> int {
    let e = if cs[i] == '"' || cs[i] == '\'' {
        match quote_scan(cs, i + 1, cs[i]) {
            Ok(e) => e,
            Err(e) => e,
        }
    } else {
        i + 1
    };
    if e - i < 1 {
        1
    } else if e > cs.len() {
        cs.len() - i
    } else {
        e - i
    }
}

/// Lexing `cs` from position `i` produces the tokens `ts`.
pub open spec fn lexes_from(cs: Seq<char>, i: int, ts: Seq<Token>) -> bool
    decreases cs.len() - i,
{
    if i < 0 || i >= cs.len() {
        ts.len() == 0
    } else if exists|m: int| is_longest(cs, i, m) {
        let m = choose|m: int| is_longest(cs, i, m);
        let s = cs.subrange(i, i + m);
        if is_silent(s) {
            lexes_from(cs, i + m, ts)
        } else {
            ts.len() > 0 && yields(s, ts[0]) && lexes_from(cs, i + m, ts.drop_first())
        }
    } else {
        lexes_from(cs, i + unmatched_len(cs, i), ts)
    }
}

} // verus!
