//! The statement dispatcher, blocks that end at stop tokens, and the
//! compound statements: `if`, `while`, `repeat`, `do` and `for`, together with
//! labels, `goto` and `return`.
use vstd::prelude::*;
use crate::ast::{
    ASTNode,
    StatementNode,
    ExpressionNode,
    asts_v,
    strs_v,
    stmt_v,
    opt_stmt_v,
    opt_asts_v,
    opt_strs_v,
    lemma_asts_v_push,
    lemma_strs_v_push,
};
use crate::lexer::{Token, is_fieldless};
use crate::parser::Parser;
use crate::parser::grammar::{
    peek,
    add_top_opt,
    spec_statement,
    spec_block_until,
    spec_if_statement,
    spec_if_tail,
    spec_expression,
    spec_expression_list,
    spec_local_statement,
    spec_function_decl,
    spec_identifier_statement,
    spec_return_tail,
    spec_return_statement,
    spec_label_statement,
    spec_goto_statement,
    spec_do_block,
    spec_repeat_statement,
    spec_while_statement,
    spec_for_body,
    spec_for_step,
    spec_numeric_for,
    spec_for_variables,
    spec_generic_for,
    spec_for_statement,
    if_stops,
    remaining,
    advanced,
    grows,
};

verus! {

/// `t` is one of `stops`, which have no payload.
fn is_stop(t: &Token, stops: &[Token]) -> (b: bool)
    requires
        forall|i: int| 0 <= i < stops@.len() ==> is_fieldless(#[trigger] stops@[i]),
    ensures
        b == stops@.contains(*t),
{
    let mut i: usize = 0;
    while i < stops.len()
        invariant
            i <= stops@.len(),
            forall|j: int| 0 <= j < stops@.len() ==> is_fieldless(#[trigger] stops@[j]),
            forall|j: int| 0 <= j < i ==> stops@[j] != *t,
        decreases stops@.len() - i,
    {
        if t.is(&stops[i]) {
            assert(stops@[i as int] == *t);
            return true;
        }
        i += 1;
    }
    false
}

impl<'a> Parser<'a> {
    /// A `return` statement after `return`.
    pub fn parse_return_statement(&mut self) -> (r: Option<StatementNode>)
        ensures
            final(self).toks() == old(self).toks(),
            grows(old(self).state(), final(self).state()),
            final(self).state().ast == old(self).state().ast,
            (opt_stmt_v(r), final(self).state()) == spec_return_statement(old(self).toks(), old(self).state()),
        decreases remaining(old(self).toks(), old(self).state()), 6int,
    {
        proof {
            reveal_with_fuel(spec_return_statement, 1);
            reveal_with_fuel(spec_return_tail, 1);
        }
        let values = match self.parse_return_tail() {
            Some(v) => v,
            None => return None,
        };
        Some(StatementNode::Return(values))
    }

    /// A label statement after `::label::`.
    pub fn parse_label_statement(&mut self, label: String) -> (r: StatementNode)
        ensures
            final(self).toks() == old(self).toks(),
            grows(old(self).state(), final(self).state()),
            final(self).state().ast == old(self).state().ast,
            (stmt_v(r), final(self).state()) == spec_label_statement(old(self).toks(), old(self).state(), label@),
    {
        let _ = self.check_next(Token::Semicolon);
        StatementNode::Label(label)
    }

    /// A `goto` statement after `goto`.
    pub fn parse_goto_statement(&mut self) -> (r: Option<StatementNode>)
        ensures
            final(self).toks() == old(self).toks(),
            grows(old(self).state(), final(self).state()),
            final(self).state().ast == old(self).state().ast,
            (opt_stmt_v(r), final(self).state()) == spec_goto_statement(old(self).toks(), old(self).state()),
    {
        let label = match self.next() {
            Some(Token::Identifier(name)) => name.clone(),
            _ => {
                self.report("Expected label name after 'goto' keyword");
                return None;
            },
        };
        let _ = self.check_next(Token::Semicolon);
        Some(StatementNode::Goto(label))
    }

    /// One statement: the next token selects the statement parser. A `;` is
    /// an empty statement; any other token that starts no statement is read
    /// and reported.
    pub(crate) fn parse_statement(&mut self) -> (r: Option<StatementNode>)
        ensures
            final(self).toks() == old(self).toks(),
            grows(old(self).state(), final(self).state()),
            final(self).state().ast == old(self).state().ast,
            (opt_stmt_v(r), final(self).state()) == spec_statement(old(self).toks(), old(self).state()),
            peek(old(self).toks(), old(self).state()) is Some ==> advanced(
                old(self).toks(),
                old(self).state(),
                final(self).state(),
            ),
        decreases remaining(old(self).toks(), old(self).state()), 0int,
    {
        proof {
            reveal_with_fuel(spec_statement, 1);
            reveal_with_fuel(spec_return_statement, 1);
            reveal_with_fuel(spec_local_statement, 1);
            reveal_with_fuel(spec_function_decl, 1);
            reveal_with_fuel(spec_identifier_statement, 1);
            reveal_with_fuel(spec_if_statement, 1);
            reveal_with_fuel(spec_while_statement, 1);
            reveal_with_fuel(spec_for_statement, 1);
            reveal_with_fuel(spec_repeat_statement, 1);
            reveal_with_fuel(spec_do_block, 1);
        }
        let t = match self.peek() {
            Some(t) => t,
            None => return None,
        };
        match t {
            Token::Return => {
                self.next();
                self.parse_return_statement()
            },
            Token::Local => {
                self.next();
                self.parse_local_statement()
            },
            Token::Function => {
                self.next();
                self.parse_function_decl(false)
            },
            Token::Identifier(name) => {
                let ident = name.clone();
                self.next();
                self.parse_identifier_statement(ident)
            },
            Token::If => {
                self.next();
                self.parse_if()
            },
            Token::While => {
                self.next();
                self.parse_while_statement()
            },
            Token::For => {
                self.next();
                self.parse_for_statement()
            },
            Token::Repeat => {
                self.next();
                self.parse_repeat_statement()
            },
            Token::Do => {
                self.next();
                self.parse_do_block()
            },
            Token::Label(name) => {
                let label = name.clone();
                self.next();
                Some(self.parse_label_statement(label))
            },
            Token::Goto => {
                self.next();
                self.parse_goto_statement()
            },
            Token::Break => {
                self.next();
                Some(StatementNode::Break)
            },
            Token::Semicolon => {
                self.next();
                None
            },
            _ => {
                self.next();
                self.report("Unexpected token at start of statement");
                None
            },
        }
    }

    /// Statements up to one of `stop_tokens`, `Eof` or the end of input,
    /// which are not read.
    pub(crate) fn parse_block_until(&mut self, stop_tokens: &[Token]) -> (r: Vec<ASTNode>)
        requires
            forall|i: int| 0 <= i < stop_tokens@.len() ==> is_fieldless(#[trigger] stop_tokens@[i]),
        ensures
            final(self).toks() == old(self).toks(),
            grows(old(self).state(), final(self).state()),
            final(self).state().ast == old(self).state().ast,
            (asts_v(r@), final(self).state()) == spec_block_until(old(self).toks(), old(self).state(), stop_tokens@, Seq::empty()),
        decreases remaining(old(self).toks(), old(self).state()), 1int,
    {
        proof {
            reveal_with_fuel(spec_block_until, 1);
            reveal_with_fuel(spec_statement, 1);
        }
        let ghost toks = self.toks();
        let ghost st0 = self.state();
        let mut stmts: Vec<ASTNode> = Vec::new();
        proof {
            lemma_asts_v_push(stmts@, ASTNode::Statement(StatementNode::Break));
        }
        loop
            invariant
                self.toks() == toks,
                toks == old(self).toks(),
                st0 == old(self).state(),
                grows(st0, self.state()),
                self.state().ast == st0.ast,
                forall|i: int| 0 <= i < stop_tokens@.len() ==> is_fieldless(#[trigger] stop_tokens@[i]),
                spec_block_until(toks, self.state(), stop_tokens@, asts_v(stmts@))
                    == spec_block_until(toks, st0, stop_tokens@, Seq::empty()),
            decreases remaining(toks, self.state()),
        {
            proof {
                reveal_with_fuel(spec_block_until, 1);
                reveal_with_fuel(spec_statement, 1);
            }
            let t = match self.peek() {
                Some(t) => t,
                None => return stmts,
            };
            if is_stop(t, stop_tokens) || t.is(&Token::Eof) {
                return stmts;
            }
            if let Some(stmt) = self.parse_statement() {
                let node = ASTNode::Statement(stmt);
                proof {
                    lemma_asts_v_push(stmts@, node);
                }
                stmts.push(node);
            }
        }
    }

    /// An `if` statement after `if`.
    fn parse_if(&mut self) -> (r: Option<StatementNode>)
        ensures
            final(self).toks() == old(self).toks(),
            grows(old(self).state(), final(self).state()),
            final(self).state().ast == old(self).state().ast,
            (opt_stmt_v(r), final(self).state()) == spec_if_statement(old(self).toks(), old(self).state()),
        decreases remaining(old(self).toks(), old(self).state()), 4int,
    {
        proof {
            reveal_with_fuel(spec_if_statement, 1);
            reveal_with_fuel(spec_expression, 1);
            reveal_with_fuel(spec_block_until, 1);
            reveal_with_fuel(spec_if_tail, 1);
        }
        let condition = match self.parse_expression(1) {
            Some(e) => e,
            None => {
                self.report("Expected expression after 'if'");
                return None;
            },
        };
        if !self.check_next(Token::Then) {
            self.report("Expected 'then' after condition");
            return None;
        }
        let stops = [Token::ElseIf, Token::Else, Token::End];
        proof {
            assert(stops@ =~= if_stops());
        }
        let then_block = self.parse_block_until(&stops);
        let else_block = match self.parse_if_tail() {
            Some(b) => b,
            None => return None,
        };
        Some(StatementNode::If { condition, then_block, else_block })
    }

    /// What follows the block of an `if` or `elseif` branch, up to and
    /// including `end`: the else block. An `elseif` branch becomes an `if`
    /// statement, alone in the else block, whose own else block is what
    /// follows it.
    fn parse_if_tail(&mut self) -> (r: Option<Vec<ASTNode>>)
        ensures
            final(self).toks() == old(self).toks(),
            grows(old(self).state(), final(self).state()),
            final(self).state().ast == old(self).state().ast,
            (opt_asts_v(r), final(self).state()) == spec_if_tail(old(self).toks(), old(self).state()),
        decreases remaining(old(self).toks(), old(self).state()), 0int,
    {
        proof {
            reveal_with_fuel(spec_if_tail, 1);
            reveal_with_fuel(spec_expression, 1);
            reveal_with_fuel(spec_block_until, 1);
        }
        match self.peek() {
            Some(Token::ElseIf) => {
                self.next();
                let condition = match self.parse_expression(1) {
                    Some(e) => e,
                    None => {
                        self.report("Expected expression after 'elseif'");
                        return None;
                    },
                };
                if !self.check_next(Token::Then) {
                    self.report("Expected 'then' after 'elseif' condition");
                    return None;
                }
                let stops = [Token::ElseIf, Token::Else, Token::End];
                proof {
                    assert(stops@ =~= if_stops());
                }
                let then_block = self.parse_block_until(&stops);
                let else_block = match self.parse_if_tail() {
                    Some(b) => b,
                    None => return None,
                };
                let node = ASTNode::Statement(StatementNode::If { condition, then_block, else_block });
                let mut v: Vec<ASTNode> = Vec::new();
                proof {
                    lemma_asts_v_push(v@, node);
                    assert(v@.push(node) =~= seq![node]);
                }
                v.push(node);
                Some(v)
            },
            Some(Token::Else) => {
                self.next();
                let end_only = [Token::End];
                proof {
                    assert(end_only@ =~= seq![Token::End]);
                }
                let body = self.parse_block_until(&end_only);
                if !self.check_next(Token::End) {
                    self.report("Expected 'end' to close 'if' statement");
                    return None;
                }
                Some(body)
            },
            _ => {
                if !self.check_next(Token::End) {
                    self.report("Expected 'end' to close 'if' statement");
                    return None;
                }
                let v: Vec<ASTNode> = Vec::new();
                proof {
                    lemma_asts_v_push(v@, ASTNode::Statement(StatementNode::Break));
                }
                Some(v)
            },
        }
    }

    /// An `if` statement after `if`; when it is complete it is added to the
    /// top-level statements.
    pub fn parse_if_statement(&mut self)
        ensures
            final(self).toks() == old(self).toks(),
            grows(old(self).state(), final(self).state()),
            final(self).state() == ({
                let (s, st) = spec_if_statement(old(self).toks(), old(self).state());
                add_top_opt(st, s)
            }),
    {
        if let Some(stmt) = self.parse_if() {
            self.add_top_statement(stmt);
        }
    }

    /// A `do` block after `do`.
    pub fn parse_do_block(&mut self) -> (r: Option<StatementNode>)
        ensures
            final(self).toks() == old(self).toks(),
            grows(old(self).state(), final(self).state()),
            final(self).state().ast == old(self).state().ast,
            (opt_stmt_v(r), final(self).state()) == spec_do_block(old(self).toks(), old(self).state()),
        decreases remaining(old(self).toks(), old(self).state()), 2int,
    {
        proof {
            reveal_with_fuel(spec_do_block, 1);
            reveal_with_fuel(spec_block_until, 1);
        }
        let end_only = [Token::End];
        proof {
            assert(end_only@ =~= seq![Token::End]);
        }
        let body = self.parse_block_until(&end_only);
        if !self.check_next(Token::End) {
            self.report("Expected 'end' to close 'do' block");
            return None;
        }
        Some(StatementNode::DoBlock { body })
    }

    /// A `repeat` statement after `repeat`.
    pub fn parse_repeat_statement(&mut self) -> (r: Option<StatementNode>)
        ensures
            final(self).toks() == old(self).toks(),
            grows(old(self).state(), final(self).state()),
            final(self).state().ast == old(self).state().ast,
            (opt_stmt_v(r), final(self).state()) == spec_repeat_statement(old(self).toks(), old(self).state()),
        decreases remaining(old(self).toks(), old(self).state()), 2int,
    {
        proof {
            reveal_with_fuel(spec_repeat_statement, 1);
            reveal_with_fuel(spec_block_until, 1);
            reveal_with_fuel(spec_expression, 1);
        }
        let until_only = [Token::Until];
        proof {
            assert(until_only@ =~= seq![Token::Until]);
        }
        let body = self.parse_block_until(&until_only);
        if !self.check_next(Token::Until) {
            self.report("Expected 'until' to close 'repeat' statement");
            return None;
        }
        let condition = match self.parse_expression(1) {
            Some(e) => e,
            None => {
                self.report("Expected expression after 'until'");
                return None;
            },
        };
        Some(StatementNode::Repeat { body, condition })
    }

    /// A `while` statement after `while`.
    pub fn parse_while_statement(&mut self) -> (r: Option<StatementNode>)
        ensures
            final(self).toks() == old(self).toks(),
            grows(old(self).state(), final(self).state()),
            final(self).state().ast == old(self).state().ast,
            (opt_stmt_v(r), final(self).state()) == spec_while_statement(old(self).toks(), old(self).state()),
        decreases remaining(old(self).toks(), old(self).state()), 4int,
    {
        proof {
            reveal_with_fuel(spec_while_statement, 1);
            reveal_with_fuel(spec_expression, 1);
            reveal_with_fuel(spec_block_until, 1);
        }
        let condition = match self.parse_expression(1) {
            Some(e) => e,
            None => {
                self.report("Expected expression after 'while'");
                return None;
            },
        };
        if !self.check_next(Token::Do) {
            self.report("Expected 'do' after condition");
            return None;
        }
        let end_only = [Token::End];
        proof {
            assert(end_only@ =~= seq![Token::End]);
        }
        let body = self.parse_block_until(&end_only);
        if !self.check_next(Token::End) {
            self.report("Expected 'end' to close 'while' statement");
            return None;
        }
        Some(StatementNode::While { condition, body })
    }

    /// The body of a `for` loop after `do`, up to and including `end`.
    fn parse_for_body(&mut self) -> (r: Option<Vec<ASTNode>>)
        ensures
            final(self).toks() == old(self).toks(),
            grows(old(self).state(), final(self).state()),
            final(self).state().ast == old(self).state().ast,
            (opt_asts_v(r), final(self).state()) == spec_for_body(old(self).toks(), old(self).state()),
        decreases remaining(old(self).toks(), old(self).state()), 2int,
    {
        proof {
            reveal_with_fuel(spec_for_body, 1);
            reveal_with_fuel(spec_block_until, 1);
        }
        let end_only = [Token::End];
        proof {
            assert(end_only@ =~= seq![Token::End]);
        }
        let body = self.parse_block_until(&end_only);
        if !self.check_next(Token::End) {
            self.report("Expected 'end' to close 'for' statement");
            return None;
        }
        Some(body)
    }

    /// The optional step of a numeric `for` loop.
    fn parse_for_step(&mut self) -> (r: Option<Option<ExpressionNode>>)
        ensures
            final(self).toks() == old(self).toks(),
            grows(old(self).state(), final(self).state()),
            final(self).state().ast == old(self).state().ast,
            (match r {
                Some(s) => Some(crate::ast::opt_expr_v(s)),
                None => None,
            }, final(self).state()) == spec_for_step(old(self).toks(), old(self).state()),
        decreases remaining(old(self).toks(), old(self).state()), 0int,
    {
        proof {
            reveal_with_fuel(spec_for_step, 1);
            reveal_with_fuel(spec_expression, 1);
        }
        if !self.check_next(Token::Comma) {
            return Some(None);
        }
        match self.parse_expression(1) {
            Some(e) => Some(Some(e)),
            None => {
                self.report("Expected step expression in 'for' statement");
                None
            },
        }
    }

    /// A numeric `for` loop after `for var_name =`.
    fn parse_numeric_for(&mut self, var_name: String) -> (r: Option<StatementNode>)
        ensures
            final(self).toks() == old(self).toks(),
            grows(old(self).state(), final(self).state()),
            final(self).state().ast == old(self).state().ast,
            (opt_stmt_v(r), final(self).state()) == spec_numeric_for(old(self).toks(), old(self).state(), var_name@),
        decreases remaining(old(self).toks(), old(self).state()), 4int,
    {
        proof {
            reveal_with_fuel(spec_numeric_for, 1);
            reveal_with_fuel(spec_expression, 1);
            reveal_with_fuel(spec_for_step, 1);
            reveal_with_fuel(spec_for_body, 1);
        }
        let start = match self.parse_expression(1) {
            Some(e) => e,
            None => {
                self.report("Expected start expression in 'for' statement");
                return None;
            },
        };
        if !self.check_next(Token::Comma) {
            self.report("Expected ',' after start expression in 'for' statement");
            return None;
        }
        let end = match self.parse_expression(1) {
            Some(e) => e,
            None => {
                self.report("Expected end expression in 'for' statement");
                return None;
            },
        };
        let step = match self.parse_for_step() {
            Some(s) => s,
            None => return None,
        };
        if !self.check_next(Token::Do) {
            self.report("Expected 'do' in 'for' statement");
            return None;
        }
        let body = match self.parse_for_body() {
            Some(b) => b,
            None => return None,
        };
        Some(StatementNode::ForNumeric { variable: var_name, start, end, step, body })
    }

    /// The further variables of a generic `for` loop, after those in
    /// `first`.
    fn parse_for_variables(&mut self, first: Vec<String>) -> (r: Option<Vec<String>>)
        ensures
            final(self).toks() == old(self).toks(),
            grows(old(self).state(), final(self).state()),
            final(self).state().ast == old(self).state().ast,
            (opt_strs_v(r), final(self).state()) == spec_for_variables(
                old(self).toks(),
                old(self).state(),
                strs_v(first@),
            ),
    {
        proof {
            reveal_with_fuel(spec_for_variables, 1);
        }
        let ghost toks = self.toks();
        let ghost st0 = self.state();
        let mut variables = first;
        loop
            invariant
                self.toks() == toks,
                toks == old(self).toks(),
                st0 == old(self).state(),
                grows(st0, self.state()),
                self.state().ast == st0.ast,
                spec_for_variables(toks, self.state(), strs_v(variables@)) == spec_for_variables(
                    toks,
                    st0,
                    strs_v(first@),
                ),
            decreases remaining(toks, self.state()),
        {
            proof {
                reveal_with_fuel(spec_for_variables, 1);
            }
            if !self.check_next(Token::Comma) {
                return Some(variables);
            }
            match self.next() {
                Some(Token::Identifier(name)) => {
                    let n = name.clone();
                    proof {
                        lemma_strs_v_push(variables@, n);
                    }
                    variables.push(n);
                },
                _ => {
                    self.report("Expected variable name after ','");
                    return None;
                },
            }
        }
    }

    /// A generic `for` loop after `for first_var`.
    fn parse_generic_for(&mut self, first_var: String) -> (r: Option<StatementNode>)
        ensures
            final(self).toks() == old(self).toks(),
            grows(old(self).state(), final(self).state()),
            final(self).state().ast == old(self).state().ast,
            (opt_stmt_v(r), final(self).state()) == spec_generic_for(old(self).toks(), old(self).state(), first_var@),
        decreases remaining(old(self).toks(), old(self).state()), 0int,
    {
        proof {
            reveal_with_fuel(spec_generic_for, 1);
            reveal_with_fuel(spec_expression_list, 1);
            reveal_with_fuel(spec_for_body, 1);
        }
        let ghost first_v = first_var@;
        let first = vec![first_var];
        proof {
            assert(strs_v(first@) =~= seq![first_v]);
        }
        let variables = match self.parse_for_variables(first) {
            Some(v) => v,
            None => return None,
        };
        if !self.check_next(Token::In) {
            self.report("Expected 'in' in generic 'for' loop");
            return None;
        }
        let expressions = match self.parse_expression_list() {
            Some(e) => e,
            None => return None,
        };
        if !self.check_next(Token::Do) {
            self.report("Expected 'do' in 'for' statement");
            return None;
        }
        let body = match self.parse_for_body() {
            Some(b) => b,
            None => return None,
        };
        Some(StatementNode::ForGeneric { variables, expressions, body })
    }

    /// A `for` statement after `for`: a numeric loop when `=` follows the
    /// first variable, a generic loop otherwise.
    pub fn parse_for_statement(&mut self) -> (r: Option<StatementNode>)
        ensures
            final(self).toks() == old(self).toks(),
            grows(old(self).state(), final(self).state()),
            final(self).state().ast == old(self).state().ast,
            (opt_stmt_v(r), final(self).state()) == spec_for_statement(old(self).toks(), old(self).state()),
        decreases remaining(old(self).toks(), old(self).state()), 0int,
    {
        proof {
            reveal_with_fuel(spec_for_statement, 1);
            reveal_with_fuel(spec_numeric_for, 1);
            reveal_with_fuel(spec_generic_for, 1);
        }
        let first_var = match self.next() {
            Some(Token::Identifier(name)) => name.clone(),
            _ => {
                self.report("Expected variable name in 'for' statement");
                return None;
            },
        };
        if self.check_next(Token::Assign) {
            self.parse_numeric_for(first_var)
        } else {
            self.parse_generic_for(first_var)
        }
    }
}

} // verus!
