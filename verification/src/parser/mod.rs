//! The Lua parser: a recursive-descent parser over the tokens of the lexer.
pub mod grammar;
mod helpers;
mod expressions;
mod statements;
mod blocks;
pub mod laws;
pub mod statement_laws;

use vstd::prelude::*;
use crate::ast::{ASTNode, StatementNode, ast_v, asts_v, stmt_v, strs_v};
use crate::lexer::{Token, is_fieldless};
use crate::parser::grammar::{PState, peek, take, check, err, add_top, advanced, remaining, spec_parse, grows};

verus! {

/// A parser over a token sequence. It records the problems it meets in
/// `errors` and the top-level statements it reads in `ast`.
pub struct Parser<'a> {
    tokens: &'a [Token],
    pos: usize,
    _source: &'a str,
    pub errors: Vec<String>,
    pub ast: Vec<ASTNode>,
}

impl<'a> Parser<'a> {
    /// The tokens the parser reads.
    pub closed spec fn toks(&self) -> Seq<Token> {
        self.tokens@
    }

    /// The parser's position, the error messages and the top-level
    /// statements read so far.
    pub closed spec fn state(&self) -> PState {
        PState { pos: self.pos as int, errors: strs_v(self.errors@), ast: asts_v(self.ast@) }
    }

    /// A parser at the start of `tokens`, with no errors and no statements.
    pub fn new(source: &'a str, tokens: &'a [Token]) -> (p: Self)
        ensures
            p.toks() == tokens@,
            p.state() == (PState { pos: 0, errors: Seq::empty(), ast: Seq::empty() }),
    {
        let p = Parser { tokens, pos: 0, _source: source, errors: Vec::new(), ast: Vec::new() };
        proof {
            assert(strs_v(p.errors@) =~= Seq::<Seq<char>>::empty());
        }
        p
    }

    /// Reads the whole token sequence: the top-level statements up to
    /// `Token::Eof` (which is read) or to the end of the tokens, each added
    /// to `ast` when it is complete, and the errors met on the way added to
    /// `errors`. Returns the statements read.
    pub fn parse(&mut self) -> (r: &Vec<ASTNode>)
        ensures
            final(self).toks() == old(self).toks(),
            final(self).state() == spec_parse(old(self).toks(), old(self).state()),
            asts_v(r@) == final(self).state().ast,
            grows(old(self).state(), final(self).state()),
            final(self).state().pos >= final(self).toks().len()
                || final(self).toks()[final(self).state().pos - 1] == Token::Eof,
            old(self).state().pos >= old(self).toks().len()
                ==> final(self).state() == old(self).state(),
            forall|j: int|
                #![trigger old(self).toks()[j]]
                old(self).state().pos <= j < old(self).toks().len() && old(self).toks()[j]
                    == Token::Eof && (forall|k: int|
                    old(self).state().pos <= k < j ==> old(self).toks()[k] != Token::Eof)
                    ==> final(self).state().pos > j,
    {
        proof {
            reveal_with_fuel(spec_parse, 1);
        }
        let ghost toks = self.toks();
        let ghost st0 = self.state();
        loop
            invariant_except_break
                spec_parse(toks, self.state()) == spec_parse(toks, st0),
            invariant
                self.toks() == toks,
                toks == old(self).toks(),
                st0 == old(self).state(),
                grows(st0, self.state()),
            ensures
                self.toks() == toks,
                self.state() == spec_parse(toks, st0),
                grows(st0, self.state()),
                self.state().pos >= toks.len() || (toks[self.state().pos - 1] == Token::Eof
                    && st0.pos <= self.state().pos - 1),
            decreases remaining(toks, self.state()),
        {
            proof {
                reveal_with_fuel(spec_parse, 1);
            }
            let ghost cur = self.state();
            let t = match self.peek() {
                Some(t) => t,
                None => break,
            };
            if t.is(&Token::Eof) {
                self.next();
                break;
            }
            if let Some(stmt) = self.parse_statement() {
                self.add_top_statement(stmt);
            }
            proof {
                assert(advanced(toks, cur, self.state()));
            }
        }
        &self.ast
    }

    /// The next token, which is not read.
    pub(crate) fn peek(&self) -> (r: Option<&'a Token>)
        ensures
            match r {
                Some(t) => peek(self.toks(), self.state()) == Some(*t),
                None => peek(self.toks(), self.state()) is None,
            },
    {
        if self.pos < self.tokens.len() {
            Some(&self.tokens[self.pos])
        } else {
            None
        }
    }

    /// Reads the next token, if there is one.
    pub fn next(&mut self) -> (r: Option<&'a Token>)
        ensures
            final(self).toks() == old(self).toks(),
            (match r {
                Some(t) => Some(*t),
                None => None,
            }, final(self).state()) == take(old(self).toks(), old(self).state()),
    {
        if self.pos < self.tokens.len() {
            let t = &self.tokens[self.pos];
            self.pos += 1;
            Some(t)
        } else {
            None
        }
    }

    /// Reads the next token if it is `expected`.
    pub(crate) fn check_next(&mut self, expected: Token) -> (r: bool)
        requires
            is_fieldless(expected),
        ensures
            final(self).toks() == old(self).toks(),
            (r, final(self).state()) == check(old(self).toks(), old(self).state(), expected),
    {
        if self.pos < self.tokens.len() && self.tokens[self.pos].is(&expected) {
            self.pos += 1;
            true
        } else {
            false
        }
    }

    /// Records the error message `msg`.
    pub(crate) fn report(&mut self, msg: &str)
        ensures
            final(self).toks() == old(self).toks(),
            final(self).state() == err(old(self).state(), msg@),
    {
        let m = msg.to_owned();
        self.errors.push(m);
        proof {
            assert(strs_v(self.errors@) =~= strs_v(old(self).errors@).push(msg@));
        }
    }

    /// Adds `s` to the top-level statements.
    pub(crate) fn add_top_statement(&mut self, s: StatementNode)
        ensures
            final(self).toks() == old(self).toks(),
            final(self).state() == add_top(old(self).state(), stmt_v(s)),
    {
        let ghost before = self.ast@;
        let ghost node = ASTNode::Statement(s);
        self.ast.push(ASTNode::Statement(s));
        proof {
            assert(self.ast@.subrange(0, self.ast@.len() - 1) =~= before);
            assert(self.ast@[self.ast@.len() - 1] == node);
            assert(asts_v(self.ast@) == asts_v(before).push(ast_v(node)));
        }
    }
}

} // verus!
