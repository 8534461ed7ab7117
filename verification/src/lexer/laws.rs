//! Laws of the lexical grammar: each keyword, operator and punctuation mark
//! of Lua is spelled by its own characters and gives its own token, and an
//! integer numeral has the value of its digits in base 10, or in base 16
//! after `0x`.
use vstd::prelude::*;
use crate::lexer::Token;
use crate::lexer::grammar::{
    symbol,
    keyword,
    yields,
    is_digit,
    is_hex_digit,
    hex_integer,
    digits,
    decimal_value,
    hex_value,
    hex_digit_value,
    numeral_value,
};

verus! {

/// The token each operator or punctuation spelling stands for.
pub proof fn lemma_symbol_spellings()
    ensures
        symbol(seq!['+']) == Some(Token::Plus),
        symbol(seq!['-']) == Some(Token::Minus),
        symbol(seq!['*']) == Some(Token::Multiply),
        symbol(seq!['/']) == Some(Token::Divide),
        symbol(seq!['/', '/']) == Some(Token::FloorDivide),
        symbol(seq!['%']) == Some(Token::Modulus),
        symbol(seq!['^']) == Some(Token::Power),
        symbol(seq!['#']) == Some(Token::Length),
        symbol(seq!['&']) == Some(Token::BitAnd),
        symbol(seq!['~']) == Some(Token::BitXor),
        symbol(seq!['|']) == Some(Token::BitOr),
        symbol(seq!['<', '<']) == Some(Token::ShiftLeft),
        symbol(seq!['>', '>']) == Some(Token::ShiftRight),
        symbol(seq!['=', '=']) == Some(Token::Equal),
        symbol(seq!['~', '=']) == Some(Token::NotEqual),
        symbol(seq!['<', '=']) == Some(Token::LessEqual),
        symbol(seq!['>', '=']) == Some(Token::GreaterEqual),
        symbol(seq!['<']) == Some(Token::LessThan),
        symbol(seq!['>']) == Some(Token::GreaterThan),
        symbol(seq!['=']) == Some(Token::Assign),
        symbol(seq!['(']) == Some(Token::LeftParen),
        symbol(seq![')']) == Some(Token::RightParen),
        symbol(seq!['{']) == Some(Token::LeftBrace),
        symbol(seq!['}']) == Some(Token::RightBrace),
        symbol(seq!['[']) == Some(Token::LeftBracket),
        symbol(seq![']']) == Some(Token::RightBracket),
        symbol(seq![':', ':']) == Some(Token::LabelDelim),
        symbol(seq![';']) == Some(Token::Semicolon),
        symbol(seq![':']) == Some(Token::Colon),
        symbol(seq![',']) == Some(Token::Comma),
        symbol(seq!['.']) == Some(Token::Dot),
        symbol(seq!['.', '.']) == Some(Token::Concat),
        symbol(seq!['.', '.', '.']) == Some(Token::VarArgs),
{
}

/// A lexeme that spells an operator or punctuation mark gives exactly the
/// token of that spelling.
pub proof fn lemma_symbol_yields(s: Seq<char>, t: Token)
    requires
        symbol(s) is Some,
    ensures
        yields(s, t) <==> t == symbol(s)->0,
{
}

/// The token each keyword spelling stands for.
pub proof fn lemma_keyword_spellings()
    ensures
        keyword(seq!['a', 'n', 'd']) == Some(Token::And),
        keyword(seq!['b', 'r', 'e', 'a', 'k']) == Some(Token::Break),
        keyword(seq!['d', 'o']) == Some(Token::Do),
        keyword(seq!['e', 'l', 's', 'e']) == Some(Token::Else),
        keyword(seq!['e', 'l', 's', 'e', 'i', 'f']) == Some(Token::ElseIf),
        keyword(seq!['e', 'n', 'd']) == Some(Token::End),
        keyword(seq!['f', 'a', 'l', 's', 'e']) == Some(Token::False),
        keyword(seq!['f', 'o', 'r']) == Some(Token::For),
        keyword(seq!['f', 'u', 'n', 'c', 't', 'i', 'o', 'n']) == Some(Token::Function),
        keyword(seq!['g', 'o', 't', 'o']) == Some(Token::Goto),
        keyword(seq!['i', 'f']) == Some(Token::If),
        keyword(seq!['i', 'n']) == Some(Token::In),
        keyword(seq!['l', 'o', 'c', 'a', 'l']) == Some(Token::Local),
        keyword(seq!['n', 'i', 'l']) == Some(Token::Nil),
        keyword(seq!['n', 'o', 't']) == Some(Token::Not),
        keyword(seq!['o', 'r']) == Some(Token::Or),
        keyword(seq!['r', 'e', 'p', 'e', 'a', 't']) == Some(Token::Repeat),
        keyword(seq!['r', 'e', 't', 'u', 'r', 'n']) == Some(Token::Return),
        keyword(seq!['t', 'h', 'e', 'n']) == Some(Token::Then),
        keyword(seq!['t', 'r', 'u', 'e']) == Some(Token::True),
        keyword(seq!['u', 'n', 't', 'i', 'l']) == Some(Token::Until),
        keyword(seq!['w', 'h', 'i', 'l', 'e']) == Some(Token::While),
{
    let elseif = seq!['e', 'l', 's', 'e', 'i', 'f'];
    assert(elseif.len() == 6);
    assert(elseif != seq!['e', 'l', 's', 'e']);
    assert(elseif != seq!['e', 'n', 'd']);
}

/// A keyword lexeme gives exactly the token of that keyword.
pub proof fn lemma_keyword_yields(s: Seq<char>, t: Token)
    requires
        keyword(s) is Some,
    ensures
        yields(s, t) <==> t == keyword(s)->0,
{
}

/// The value of an integer numeral: a further decimal digit multiplies the
/// value so far by 10 and adds the digit, a separator `_` adds nothing, and a
/// further hexadecimal digit multiplies by 16 and adds the digit's value
/// (`0`-`9`, then `a`-`f` and `A`-`F` for 10 to 15). A numeral after `0x` or
/// `0X` is read in base 16, any other in base 10.
pub proof fn lemma_numeral_digits(s: Seq<char>, c: char)
    ensures
        is_digit(c) ==> decimal_value(s.push(c)) == 10 * decimal_value(s) + (c as int - '0' as int),
        decimal_value(s.push('_')) == decimal_value(s),
        is_hex_digit(c) ==> hex_value(s.push(c)) == 16 * hex_value(s) + hex_digit_value(c),
        is_digit(c) ==> hex_digit_value(c) == c as int - '0' as int,
        'a' <= c <= 'f' ==> hex_digit_value(c) == c as int - 'a' as int + 10,
        'A' <= c <= 'F' ==> hex_digit_value(c) == c as int - 'A' as int + 10,
        hex_integer(s) ==> numeral_value(s) == hex_value(s.skip(2)),
        digits(s) ==> numeral_value(s) == decimal_value(s),
{
    assert(s.push(c).drop_last() =~= s);
    assert(s.push('_').drop_last() =~= s);
    if digits(s) && hex_integer(s) {
        assert(is_digit(s[1]) || s[1] == '_');
    }
}

} // verus!
