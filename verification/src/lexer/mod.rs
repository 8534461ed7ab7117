//! The Lua lexer: the token type, the lexical grammar and the lexer that
//! turns source text into tokens.
pub mod grammar;
pub mod helpers;
pub mod scan;
pub mod laws;


use vstd::prelude::*;
use crate::lexer::grammar::{is_lexeme, is_longest, is_silent, lexes_from, yields, unmatched_len};
use crate::lexer::scan::{scan_at, no_lexeme_at};
use crate::text::chars_of;


verus! {

/// A Lua token.
///
/// `Number` holds the text of a floating-point numeral with its digit
/// separators (`_`) removed; converting it to a machine float is left to the
/// caller. `Integer` holds the value of a decimal or hexadecimal integer
/// numeral. `StringLiteral` holds the text a string literal denotes, with
/// escape sequences decoded. `LineComment` and `BlockComment` name the two
/// kinds of comment; comments are skipped and never appear in the lexer's
/// output, and `Eof` marks the end of the token stream.
#[derive(Debug, PartialEq, Clone)]
pub enum Token {
    And,
    Break,
    Do,
    Else,
    ElseIf,
    End,
    False,
    For,
    Function,
    Goto,
    If,
    In,
    Local,
    Nil,
    Not,
    Or,
    Repeat,
    Return,
    Then,
    True,
    Until,
    While,
    VarArgs,
    Concat,
    LabelDelim,
    Equal,
    NotEqual,
    LessEqual,
    GreaterEqual,
    ShiftLeft,
    ShiftRight,
    FloorDivide,
    Assign,
    BitXor,
    BitAnd,
    BitOr,
    GreaterThan,
    LessThan,
    Plus,
    Minus,
    Multiply,
    Divide,
    Modulus,
    Power,
    Length,
    Colon,
    Semicolon,
    Comma,
    Dot,
    LeftParen,
    RightParen,
    LeftBrace,
    RightBrace,
    LeftBracket,
    RightBracket,
    Attribute(String),
    Label(String),
    Identifier(String),
    Number(String),
    Integer(i64),
    StringLiteral(String),
    LineComment,
    BlockComment,
    Eof,
}

/// A lexer over a source text. `collect` reads the whole text once; a lexer
/// that has been collected yields only the end-of-input token afterwards.
pub struct Lexer<'source> {
    source: &'source str,
    exhausted: bool,
}

impl<'source> Lexer<'source> {
    /// The source text the lexer reads.
    pub closed spec fn text(&self) -> Seq<char> {
        self.source@
    }

    /// The lexer has already read its text.
    pub closed spec fn is_exhausted(&self) -> bool {
        self.exhausted
    }

    /// A lexer over `source`.
    pub fn new(source: &'source str) -> (lexer: Lexer<'source>)
        ensures
            lexer.text() == source@,
            !lexer.is_exhausted(),
    {
        Lexer { source, exhausted: false }
    }

    /// All tokens of the text, in order, followed by `Token::Eof`.
    pub fn collect(&mut self) -> (tokens: Vec<Token>)
        ensures
            final(self).text() == old(self).text(),
            final(self).is_exhausted(),
            tokens@.len() >= 1,
            tokens@.last() == Token::Eof,
            !old(self).is_exhausted() ==> lexes_from(old(self).text(), 0, tokens@.drop_last()),
            old(self).is_exhausted() ==> tokens@.len() == 1,
            forall|k: int|
                0 <= k < tokens@.len() - 1 ==> !(#[trigger] tokens@[k] is LineComment)
                    && !(tokens@[k] is BlockComment) && !(tokens@[k] is Eof),
    {
        let mut tokens: Vec<Token> = Vec::new();
        if !self.exhausted {
            let cs = chars_of(self.source);
            let ghost text = cs@;
            let mut i: usize = 0;
            proof {
                assert forall|ts: Seq<Token>| #[trigger] lexes_from(text, 0, ts) implies lexes_from(
                    text,
                    0,
                    tokens@ + ts,
                ) by {
                    assert(tokens@ + ts =~= ts);
                }
            }
            while i < cs.len()
                invariant
                    i <= cs.len(),
                    cs@ == text,
                    forall|ts: Seq<Token>| #[trigger]
                        lexes_from(text, i as int, ts) ==> lexes_from(text, 0, tokens@ + ts),
                decreases cs.len() - i,
            {
                let (n, out) = scan_at(&cs, i);
                let ghost before = tokens@;
                proof {
                    if is_longest(text, i as int, n as int) {
                        lemma_longest_unique(text, i as int, n as int);
                    } else {
                        assert(no_lexeme_at(text, i as int));
                        assert(!exists|m: int| is_longest(text, i as int, m)) by {
                            if exists|m: int| is_longest(text, i as int, m) {
                                let m = choose|m: int| is_longest(text, i as int, m);
                                assert(text.subrange(i as int, i + m) == text.subrange(i as int, i + m));
                            }
                        }
                    }
                }
                match out {
                    Some(t) => {
                        tokens.push(t);
                        proof {
                            assert forall|ts: Seq<Token>| #[trigger]
                                lexes_from(text, i + n, ts) implies lexes_from(text, 0, tokens@ + ts) by {
                                let us = seq![t] + ts;
                                assert(us.drop_first() =~= ts);
                                assert(us[0] == t);
                                assert(lexes_from(text, i as int, us));
                                assert(before + us =~= tokens@ + ts);
                            }
                        }
                    },
                    None => {
                        proof {
                            assert forall|ts: Seq<Token>| #[trigger]
                                lexes_from(text, i + n, ts) implies lexes_from(text, 0, tokens@ + ts) by {
                                assert(lexes_from(text, i as int, ts));
                            }
                        }
                    },
                }
                i += n;
            }
            proof {
                assert(lexes_from(text, i as int, Seq::<Token>::empty()));
                assert(tokens@ + Seq::<Token>::empty() =~= tokens@);
            }
            self.exhausted = true;
        }
        let ghost body = tokens@;
        proof {
            if !old(self).exhausted {
                lemma_lexed_tokens(old(self).text(), 0, body);
            }
        }
        tokens.push(Token::Eof);
        assert(tokens@.drop_last() =~= body);
        tokens
    }
}

/// A token that a lexeme produces is neither a comment nor the end marker.
pub proof fn lemma_yields_no_comment(s: Seq<char>, t: Token)
    requires
        yields(s, t),
    ensures
        !(t is LineComment),
        !(t is BlockComment),
        !(t is Eof),
{
}

/// Comments are skipped: the tokens that lexing produces contain no comment
/// and no end marker.
pub proof fn lemma_lexed_tokens(cs: Seq<char>, i: int, ts: Seq<Token>)
    requires
        lexes_from(cs, i, ts),
    ensures
        forall|k: int|
            0 <= k < ts.len() ==> !(#[trigger] ts[k] is LineComment) && !(ts[k] is BlockComment)
                && !(ts[k] is Eof),
    decreases cs.len() - i,
{
    if i < 0 || i >= cs.len() {
    } else if exists|m: int| is_longest(cs, i, m) {
        let m = choose|m: int| is_longest(cs, i, m);
        let s = cs.subrange(i, i + m);
        if is_silent(s) {
            lemma_lexed_tokens(cs, i + m, ts);
        } else {
            lemma_lexed_tokens(cs, i + m, ts.drop_first());
            lemma_yields_no_comment(s, ts[0]);
            assert forall|k: int| 0 <= k < ts.len() implies !(#[trigger] ts[k] is LineComment)
                && !(ts[k] is BlockComment) && !(ts[k] is Eof) by {
                if k > 0 {
                    assert(ts[k] == ts.drop_first()[k - 1]);
                }
            }
        }
    } else {
        lemma_lexed_tokens(cs, i + unmatched_len(cs, i), ts);
    }
}

/// `a` and `b` are the same token: of the same kind, with payloads that
/// read the same.
pub open spec fn same_token(a: Token, b: Token) -> bool {
    match (a, b) {
        (Token::Attribute(x), Token::Attribute(y)) => x@ == y@,
        (Token::Label(x), Token::Label(y)) => x@ == y@,
        (Token::Identifier(x), Token::Identifier(y)) => x@ == y@,
        (Token::Number(x), Token::Number(y)) => x@ == y@,
        (Token::StringLiteral(x), Token::StringLiteral(y)) => x@ == y@,
        _ => a == b,
    }
}

/// A lexeme produces one token.
pub proof fn lemma_yields_unique(s: Seq<char>, a: Token, b: Token)
    requires
        yields(s, a),
        yields(s, b),
    ensures
        same_token(a, b),
{
}

/// Lexing is deterministic: a text has one token sequence.
pub proof fn lemma_lexing_unique(cs: Seq<char>, i: int, ts1: Seq<Token>, ts2: Seq<Token>)
    requires
        lexes_from(cs, i, ts1),
        lexes_from(cs, i, ts2),
    ensures
        ts1.len() == ts2.len(),
        forall|k: int| 0 <= k < ts1.len() ==> same_token(#[trigger] ts1[k], ts2[k]),
    decreases cs.len() - i,
{
    if i < 0 || i >= cs.len() {
    } else if exists|m: int| is_longest(cs, i, m) {
        let m = choose|m: int| is_longest(cs, i, m);
        let s = cs.subrange(i, i + m);
        if is_silent(s) {
            lemma_lexing_unique(cs, i + m, ts1, ts2);
        } else {
            lemma_lexing_unique(cs, i + m, ts1.drop_first(), ts2.drop_first());
            lemma_yields_unique(s, ts1[0], ts2[0]);
            assert forall|k: int| 0 <= k < ts1.len() implies same_token(#[trigger] ts1[k], ts2[k]) by {
                if k > 0 {
                    assert(ts1[k] == ts1.drop_first()[k - 1]);
                    assert(ts2[k] == ts2.drop_first()[k - 1]);
                }
            }
        }
    } else {
        lemma_lexing_unique(cs, i + unmatched_len(cs, i), ts1, ts2);
    }
}

/// There is at most one longest lexeme at a position.
pub proof fn lemma_longest_unique(cs: Seq<char>, i: int, n: int)
    requires
        is_longest(cs, i, n),
    ensures
        forall|m: int| is_longest(cs, i, m) ==> m == n,
        (choose|m: int| is_longest(cs, i, m)) == n,
{
    assert forall|m: int| is_longest(cs, i, m) implies m == n by {
        if m < n {
            assert(is_lexeme(cs.subrange(i, i + n)));
        } else if m > n {
            assert(is_lexeme(cs.subrange(i, i + m)));
        }
    }
}

} // verus!

verus! {

/// A token without a payload.
pub open spec fn is_fieldless(t: Token) -> bool {
    !(t is Attribute || t is Label || t is Identifier || t is Number || t is Integer
        || t is StringLiteral)
}

impl Token {
    /// A copy of this token.
    pub fn copied(&self) -> (r: Token)
        ensures
            r == *self,
    {
        match self {
            Token::Attribute(s) => Token::Attribute(s.clone()),
            Token::Label(s) => Token::Label(s.clone()),
            Token::Identifier(s) => Token::Identifier(s.clone()),
            Token::Number(s) => Token::Number(s.clone()),
            Token::Integer(v) => Token::Integer(*v),
            Token::StringLiteral(s) => Token::StringLiteral(s.clone()),
            Token::And => Token::And,
            Token::Break => Token::Break,
            Token::Do => Token::Do,
            Token::Else => Token::Else,
            Token::ElseIf => Token::ElseIf,
            Token::End => Token::End,
            Token::False => Token::False,
            Token::For => Token::For,
            Token::Function => Token::Function,
            Token::Goto => Token::Goto,
            Token::If => Token::If,
            Token::In => Token::In,
            Token::Local => Token::Local,
            Token::Nil => Token::Nil,
            Token::Not => Token::Not,
            Token::Or => Token::Or,
            Token::Repeat => Token::Repeat,
            Token::Return => Token::Return,
            Token::Then => Token::Then,
            Token::True => Token::True,
            Token::Until => Token::Until,
            Token::While => Token::While,
            Token::VarArgs => Token::VarArgs,
            Token::Concat => Token::Concat,
            Token::LabelDelim => Token::LabelDelim,
            Token::Equal => Token::Equal,
            Token::NotEqual => Token::NotEqual,
            Token::LessEqual => Token::LessEqual,
            Token::GreaterEqual => Token::GreaterEqual,
            Token::ShiftLeft => Token::ShiftLeft,
            Token::ShiftRight => Token::ShiftRight,
            Token::FloorDivide => Token::FloorDivide,
            Token::Assign => Token::Assign,
            Token::BitXor => Token::BitXor,
            Token::BitAnd => Token::BitAnd,
            Token::BitOr => Token::BitOr,
            Token::GreaterThan => Token::GreaterThan,
            Token::LessThan => Token::LessThan,
            Token::Plus => Token::Plus,
            Token::Minus => Token::Minus,
            Token::Multiply => Token::Multiply,
            Token::Divide => Token::Divide,
            Token::Modulus => Token::Modulus,
            Token::Power => Token::Power,
            Token::Length => Token::Length,
            Token::Colon => Token::Colon,
            Token::Semicolon => Token::Semicolon,
            Token::Comma => Token::Comma,
            Token::Dot => Token::Dot,
            Token::LeftParen => Token::LeftParen,
            Token::RightParen => Token::RightParen,
            Token::LeftBrace => Token::LeftBrace,
            Token::RightBrace => Token::RightBrace,
            Token::LeftBracket => Token::LeftBracket,
            Token::RightBracket => Token::RightBracket,
            Token::LineComment => Token::LineComment,
            Token::BlockComment => Token::BlockComment,
            Token::Eof => Token::Eof,
        }
    }

    /// This token is `other`, which has no payload.
    pub fn is(&self, other: &Token) -> (b: bool)
        requires
            is_fieldless(*other),
        ensures
            b == (*self == *other),
    {
        match other {
            Token::And => matches!(self, Token::And),
            Token::Break => matches!(self, Token::Break),
            Token::Do => matches!(self, Token::Do),
            Token::Else => matches!(self, Token::Else),
            Token::ElseIf => matches!(self, Token::ElseIf),
            Token::End => matches!(self, Token::End),
            Token::False => matches!(self, Token::False),
            Token::For => matches!(self, Token::For),
            Token::Function => matches!(self, Token::Function),
            Token::Goto => matches!(self, Token::Goto),
            Token::If => matches!(self, Token::If),
            Token::In => matches!(self, Token::In),
            Token::Local => matches!(self, Token::Local),
            Token::Nil => matches!(self, Token::Nil),
            Token::Not => matches!(self, Token::Not),
            Token::Or => matches!(self, Token::Or),
            Token::Repeat => matches!(self, Token::Repeat),
            Token::Return => matches!(self, Token::Return),
            Token::Then => matches!(self, Token::Then),
            Token::True => matches!(self, Token::True),
            Token::Until => matches!(self, Token::Until),
            Token::While => matches!(self, Token::While),
            Token::VarArgs => matches!(self, Token::VarArgs),
            Token::Concat => matches!(self, Token::Concat),
            Token::LabelDelim => matches!(self, Token::LabelDelim),
            Token::Equal => matches!(self, Token::Equal),
            Token::NotEqual => matches!(self, Token::NotEqual),
            Token::LessEqual => matches!(self, Token::LessEqual),
            Token::GreaterEqual => matches!(self, Token::GreaterEqual),
            Token::ShiftLeft => matches!(self, Token::ShiftLeft),
            Token::ShiftRight => matches!(self, Token::ShiftRight),
            Token::FloorDivide => matches!(self, Token::FloorDivide),
            Token::Assign => matches!(self, Token::Assign),
            Token::BitXor => matches!(self, Token::BitXor),
            Token::BitAnd => matches!(self, Token::BitAnd),
            Token::BitOr => matches!(self, Token::BitOr),
            Token::GreaterThan => matches!(self, Token::GreaterThan),
            Token::LessThan => matches!(self, Token::LessThan),
            Token::Plus => matches!(self, Token::Plus),
            Token::Minus => matches!(self, Token::Minus),
            Token::Multiply => matches!(self, Token::Multiply),
            Token::Divide => matches!(self, Token::Divide),
            Token::Modulus => matches!(self, Token::Modulus),
            Token::Power => matches!(self, Token::Power),
            Token::Length => matches!(self, Token::Length),
            Token::Colon => matches!(self, Token::Colon),
            Token::Semicolon => matches!(self, Token::Semicolon),
            Token::Comma => matches!(self, Token::Comma),
            Token::Dot => matches!(self, Token::Dot),
            Token::LeftParen => matches!(self, Token::LeftParen),
            Token::RightParen => matches!(self, Token::RightParen),
            Token::LeftBrace => matches!(self, Token::LeftBrace),
            Token::RightBrace => matches!(self, Token::RightBrace),
            Token::LeftBracket => matches!(self, Token::LeftBracket),
            Token::RightBracket => matches!(self, Token::RightBracket),
            Token::LineComment => matches!(self, Token::LineComment),
            Token::BlockComment => matches!(self, Token::BlockComment),
            Token::Eof => matches!(self, Token::Eof),
            _ => false,
        }
    }
}

} // verus!
