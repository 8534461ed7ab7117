//! The expression parser: precedence climbing over unary and primary
//! expressions, calls, method calls, indexing and table constructors.
use vstd::prelude::*;
use crate::ast::{
    ExprV,
    LitV,
    ASTNode,
    StatementNode,
    ExpressionNode,
    LiteralNode,
    Numeral,
    expr_v,
    exprs_v,
    entries_v,
    opt_expr_v,
    opt_exprs_v,
    lemma_entries_v_push,
};
use crate::lexer::Token;
use crate::parser::Parser;
use crate::parser::helpers::one_expression;
use crate::parser::grammar::{
    spec_expression,
    spec_binary_tail,
    spec_unary,
    spec_primary,
    spec_postfix_expression,
    spec_postfix,
    spec_call_arguments,
    spec_table,
    spec_anonymous_function,
    spec_expression_list,
    spec_function_body,
    postfix_continue,
    table_continue,
    literal_of,
    remaining,
    advanced,
    grows,
};

verus! {

impl<'a> Parser<'a> {
    /// The literal expression that `t` stands for, if it is a literal.
    fn literal(t: &Token) -> (r: Option<ExpressionNode>)
        ensures
            opt_expr_v(r) == literal_of(*t),
    {
        match t {
            Token::Integer(v) => Some(ExpressionNode::Literal(LiteralNode::Number(Numeral::Integer(*v)))),
            Token::Number(x) => Some(ExpressionNode::Literal(LiteralNode::Number(Numeral::Float(x.clone())))),
            Token::StringLiteral(s) => Some(ExpressionNode::Literal(LiteralNode::String(s.clone()))),
            Token::True => Some(ExpressionNode::Literal(LiteralNode::Boolean(true))),
            Token::False => Some(ExpressionNode::Literal(LiteralNode::Boolean(false))),
            Token::Nil => Some(ExpressionNode::Literal(LiteralNode::Nil)),
            Token::VarArgs => Some(ExpressionNode::VarArg),
            _ => None,
        }
    }

    /// An expression whose binary operators bind at least as tightly as
    /// `min_prec`.
    pub(crate) fn parse_expression(&mut self, min_prec: u8) -> (r: Option<ExpressionNode>)
        ensures
            final(self).toks() == old(self).toks(),
            grows(old(self).state(), final(self).state()),
            final(self).state().ast == old(self).state().ast,
            (opt_expr_v(r), final(self).state()) == spec_expression(
                old(self).toks(),
                old(self).state(),
                min_prec as int,
            ),
            r is Some ==> advanced(old(self).toks(), old(self).state(), final(self).state()),
        decreases remaining(old(self).toks(), old(self).state()), 3int,
    {
        proof {
            reveal_with_fuel(spec_expression, 1);
            reveal_with_fuel(spec_unary, 1);
            reveal_with_fuel(spec_binary_tail, 1);
        }
        let ghost toks = self.toks();
        let ghost st0 = self.state();
        let mut left = match self.parse_unary() {
            Some(e) => e,
            None => return None,
        };
        loop
            invariant
                self.toks() == toks,
                toks == old(self).toks(),
                st0 == old(self).state(),
                advanced(toks, st0, self.state()),
                grows(st0, self.state()),
                self.state().ast == st0.ast,
                spec_binary_tail(toks, self.state(), expr_v(left), min_prec as int)
                    == spec_expression(toks, st0, min_prec as int),
            decreases remaining(toks, self.state()),
        {
            proof {
                reveal_with_fuel(spec_expression, 1);
                reveal_with_fuel(spec_unary, 1);
                reveal_with_fuel(spec_binary_tail, 1);
            }
            let op = match self.peek() {
                Some(t) => t,
                None => return Some(left),
            };
            if !Self::is_binary_op(op) {
                return Some(left);
            }
            let prec = Self::precedence(op);
            if prec < min_prec {
                return Some(left);
            }
            let right_assoc = Self::right_associative(op);
            self.next();
            let next_min = if right_assoc {
                prec
            } else {
                prec + 1
            };
            let right = match self.parse_expression(next_min) {
                Some(e) => e,
                None => return None,
            };
            left = ExpressionNode::BinaryOp {
                left: Box::new(left),
                operator: op.copied(),
                right: Box::new(right),
            };
        }
    }

    /// A unary expression: `-`, `not`, `#` or `~` applied to an operand in which
    /// only `^` binds, or a primary expression.
    fn parse_unary(&mut self) -> (r: Option<ExpressionNode>)
        ensures
            final(self).toks() == old(self).toks(),
            grows(old(self).state(), final(self).state()),
            final(self).state().ast == old(self).state().ast,
            (opt_expr_v(r), final(self).state()) == spec_unary(old(self).toks(), old(self).state()),
            r is Some ==> advanced(old(self).toks(), old(self).state(), final(self).state()),
        decreases remaining(old(self).toks(), old(self).state()), 2int,
    {
        proof {
            reveal_with_fuel(spec_unary, 1);
            reveal_with_fuel(spec_primary, 1);
            reveal_with_fuel(spec_expression, 1);
        }
        if let Some(tok) = self.peek() {
            if matches!(tok, Token::Minus | Token::Not | Token::Length | Token::BitXor) {
                let op = tok.copied();
                self.next();
                let operand = match self.parse_expression(Self::precedence(&Token::Power)) {
                    Some(e) => e,
                    None => return None,
                };
                return Some(ExpressionNode::UnaryOp { operator: op, operand: Box::new(operand) });
            }
        }
        self.parse_primary()
    }

    /// A primary expression and the calls and indexing that follow it.
    fn parse_primary(&mut self) -> (r: Option<ExpressionNode>)
        ensures
            final(self).toks() == old(self).toks(),
            grows(old(self).state(), final(self).state()),
            final(self).state().ast == old(self).state().ast,
            (opt_expr_v(r), final(self).state()) == spec_primary(old(self).toks(), old(self).state()),
            r is Some ==> advanced(old(self).toks(), old(self).state(), final(self).state()),
        decreases remaining(old(self).toks(), old(self).state()), 1int,
    {
        proof {
            reveal_with_fuel(spec_primary, 1);
            reveal_with_fuel(spec_postfix, 1);
            reveal_with_fuel(spec_anonymous_function, 1);
            reveal_with_fuel(spec_expression, 1);
            reveal_with_fuel(spec_table, 1);
        }
        let t = match self.next() {
            Some(t) => t,
            None => return None,
        };
        match t {
            Token::Identifier(name) => self.parse_postfix(ExpressionNode::Variable(name.clone())),
            Token::Function => self.parse_anonymous_function(),
            Token::LeftParen => {
                let expr = match self.parse_expression(1) {
                    Some(e) => e,
                    None => return None,
                };
                if !self.check_next(Token::RightParen) {
                    self.report("Expected ')'");
                }
                self.parse_postfix(expr)
            },
            Token::LeftBrace => self.parse_table_constructor(),
            _ => match Self::literal(t) {
                Some(e) => self.parse_postfix(e),
                None => {
                    self.report("Unexpected token in expression");
                    None
                },
            },
        }
    }

    /// An assignment target: a name or a parenthesised expression, with the
    /// calls and indexing that follow it.
    pub(crate) fn parse_postfix_expression(&mut self) -> (r: Option<ExpressionNode>)
        ensures
            final(self).toks() == old(self).toks(),
            grows(old(self).state(), final(self).state()),
            final(self).state().ast == old(self).state().ast,
            (opt_expr_v(r), final(self).state()) == spec_postfix_expression(
                old(self).toks(),
                old(self).state(),
            ),
            r is Some ==> advanced(old(self).toks(), old(self).state(), final(self).state()),
        decreases remaining(old(self).toks(), old(self).state()), 1int,
    {
        proof {
            reveal_with_fuel(spec_postfix_expression, 1);
            reveal_with_fuel(spec_postfix, 1);
            reveal_with_fuel(spec_expression, 1);
        }
        let t = match self.next() {
            Some(t) => t,
            None => return None,
        };
        let base = match t {
            Token::Identifier(name) => ExpressionNode::Variable(name.clone()),
            Token::LeftParen => {
                let expr = match self.parse_expression(1) {
                    Some(e) => e,
                    None => return None,
                };
                if !self.check_next(Token::RightParen) {
                    self.report("Expected ')'");
                }
                expr
            },
            _ => {
                self.report("Expected expression");
                return None;
            },
        };
        self.parse_postfix(base)
    }

    /// The arguments of a call after `(`, up to and including `)`.
    fn parse_call_arguments(&mut self) -> (r: Option<Vec<ExpressionNode>>)
        ensures
            final(self).toks() == old(self).toks(),
            grows(old(self).state(), final(self).state()),
            final(self).state().ast == old(self).state().ast,
            (opt_exprs_v(r), final(self).state()) == spec_call_arguments(
                old(self).toks(),
                old(self).state(),
            ),
        decreases remaining(old(self).toks(), old(self).state()), 5int,
    {
        proof {
            reveal_with_fuel(spec_call_arguments, 1);
            reveal_with_fuel(spec_expression_list, 1);
        }
        let args = if matches!(self.peek(), Some(Token::RightParen)) {
            let v: Vec<ExpressionNode> = Vec::new();
            proof {
                assert(exprs_v(v@) =~= Seq::<crate::ast::ExprV>::empty());
            }
            v
        } else {
            match self.parse_expression_list() {
                Some(a) => a,
                None => return None,
            }
        };
        if !self.check_next(Token::RightParen) {
            self.report("Expected ')' after arguments");
            return None;
        }
        Some(args)
    }

    /// Calls, method calls and indexing applied to `base`.
    pub(crate) fn parse_postfix(&mut self, base: ExpressionNode) -> (r: Option<ExpressionNode>)
        ensures
            final(self).toks() == old(self).toks(),
            grows(old(self).state(), final(self).state()),
            final(self).state().ast == old(self).state().ast,
            (opt_expr_v(r), final(self).state()) == spec_postfix(
                old(self).toks(),
                old(self).state(),
                expr_v(base),
            ),
        decreases remaining(old(self).toks(), old(self).state()), 1int,
    {
        proof {
            reveal_with_fuel(spec_postfix, 1);
            reveal_with_fuel(spec_call_arguments, 1);
            reveal_with_fuel(postfix_continue, 1);
            reveal_with_fuel(spec_table, 1);
            reveal_with_fuel(spec_expression, 1);
        }
        let ghost toks = self.toks();
        let ghost st0 = self.state();
        let mut node = base;
        loop
            invariant
                self.toks() == toks,
                toks == old(self).toks(),
                st0 == old(self).state(),
                grows(st0, self.state()),
                self.state().ast == st0.ast,
                spec_postfix(toks, self.state(), expr_v(node)) == spec_postfix(toks, st0, expr_v(base)),
            decreases remaining(toks, self.state()),
        {
            proof {
                reveal_with_fuel(spec_postfix, 1);
                reveal_with_fuel(spec_call_arguments, 1);
                reveal_with_fuel(postfix_continue, 1);
                reveal_with_fuel(spec_table, 1);
                reveal_with_fuel(spec_expression, 1);
            }
            let ghost cur = self.state();
            let t = match self.peek() {
                Some(t) => t,
                None => return None,
            };
            match t {
                Token::LeftParen => {
                    self.next();
                    let arguments = match self.parse_call_arguments() {
                        Some(a) => a,
                        None => return None,
                    };
                    node = ExpressionNode::FunctionCall {
                        function: Box::new(node),
                        method: None,
                        arguments,
                    };
                },
                Token::Colon => {
                    self.next();
                    let method = match self.next() {
                        Some(Token::Identifier(name)) => name.clone(),
                        _ => {
                            self.report("Expected method name after ':'");
                            return None;
                        },
                    };
                    let arguments = if self.check_next(Token::LeftParen) {
                        match self.parse_call_arguments() {
                            Some(a) => a,
                            None => return None,
                        }
                    } else {
                        match self.peek() {
                            Some(Token::LeftBrace) => {
                                self.next();
                                let table = match self.parse_table_constructor() {
                                    Some(tb) => tb,
                                    None => return None,
                                };
                                one_expression(table)
                            },
                            Some(Token::StringLiteral(s)) => {
                                let s = s.clone();
                                self.next();
                                let arg = ExpressionNode::Literal(LiteralNode::String(s));
                                one_expression(arg)
                            },
                            _ => {
                                self.report("Expected arguments after method name");
                                return None;
                            },
                        }
                    };
                    node = ExpressionNode::FunctionCall {
                        function: Box::new(node),
                        method: Some(method),
                        arguments,
                    };
                },
                Token::LeftBrace => {
                    self.next();
                    let table = match self.parse_table_constructor() {
                        Some(tb) => tb,
                        None => return None,
                    };
                    node = ExpressionNode::FunctionCall {
                        function: Box::new(node),
                        method: None,
                        arguments: one_expression(table),
                    };
                },
                Token::StringLiteral(s) => {
                    let s = s.clone();
                    self.next();
                    let arg = ExpressionNode::Literal(LiteralNode::String(s));
                    node = ExpressionNode::FunctionCall {
                        function: Box::new(node),
                        method: None,
                        arguments: one_expression(arg),
                    };
                },
                Token::LeftBracket => {
                    self.next();
                    let index = match self.parse_expression(1) {
                        Some(e) => e,
                        None => return None,
                    };
                    if !self.check_next(Token::RightBracket) {
                        self.report("Expected ']'");
                        return None;
                    }
                    node = ExpressionNode::Index { table: Box::new(node), index: Box::new(index) };
                },
                Token::Dot => {
                    self.next();
                    match self.next() {
                        Some(Token::Identifier(key)) => {
                            let key_expr = ExpressionNode::Literal(LiteralNode::String(key.clone()));
                            assert(expr_v(key_expr) == ExprV::Literal(LitV::String(key@)));
                            node = ExpressionNode::Index {
                                table: Box::new(node),
                                index: Box::new(key_expr),
                            };
                        },
                        _ => {
                            self.report("Expected identifier after '.'");
                            return None;
                        },
                    }
                },
                _ => return Some(node),
            }
            proof {
                assert(advanced(toks, cur, self.state()));
            }
        }
    }

    /// A table constructor after `{`.
    fn parse_table_constructor(&mut self) -> (r: Option<ExpressionNode>)
        ensures
            final(self).toks() == old(self).toks(),
            grows(old(self).state(), final(self).state()),
            final(self).state().ast == old(self).state().ast,
            (opt_expr_v(r), final(self).state()) == spec_table(
                old(self).toks(),
                old(self).state(),
                Seq::empty(),
            ),
        decreases remaining(old(self).toks(), old(self).state()), 4int,
    {
        proof {
            reveal_with_fuel(spec_table, 1);
            reveal_with_fuel(spec_expression, 1);
            reveal_with_fuel(table_continue, 1);
        }
        let ghost toks = self.toks();
        let ghost st0 = self.state();
        let mut entries: Vec<(Option<ExpressionNode>, ExpressionNode)> = Vec::new();
        proof {
            lemma_entries_v_push(entries@, (None, ExpressionNode::VarArg));
        }
        loop
            invariant
                self.toks() == toks,
                toks == old(self).toks(),
                st0 == old(self).state(),
                grows(st0, self.state()),
                self.state().ast == st0.ast,
                spec_table(toks, self.state(), entries_v(entries@)) == spec_table(
                    toks,
                    st0,
                    Seq::empty(),
                ),
            decreases remaining(toks, self.state()),
        {
            proof {
                reveal_with_fuel(spec_table, 1);
                reveal_with_fuel(spec_expression, 1);
                reveal_with_fuel(table_continue, 1);
            }
            let ghost cur = self.state();
            let ghost before = entries@;
            let t = match self.peek() {
                Some(t) => t,
                None => return None,
            };
            match t {
                Token::RightBrace => {
                    self.next();
                    return Some(ExpressionNode::TableConstructor { entries });
                },
                Token::LeftBracket => {
                    self.next();
                    let key = match self.parse_expression(1) {
                        Some(e) => e,
                        None => return None,
                    };
                    if !self.check_next(Token::RightBracket) {
                        self.report("Expected ']'");
                        return None;
                    }
                    if !self.check_next(Token::Assign) {
                        self.report("Expected '=' after table key");
                        return None;
                    }
                    let value = match self.parse_expression(1) {
                        Some(e) => e,
                        None => return None,
                    };
                    let entry = (Some(key), value);
                    proof {
                        lemma_entries_v_push(entries@, entry);
                    }
                    entries.push(entry);
                },
                Token::Identifier(_) => {
                    let start_expr = match self.parse_expression(1) {
                        Some(e) => e,
                        None => return None,
                    };
                    if self.check_next(Token::Assign) {
                        let value = match self.parse_expression(1) {
                            Some(e) => e,
                            None => return None,
                        };
                        let entry = (Some(start_expr), value);
                        proof {
                            lemma_entries_v_push(entries@, entry);
                        }
                        entries.push(entry);
                    } else {
                        let entry = (None, start_expr);
                        proof {
                            lemma_entries_v_push(entries@, entry);
                        }
                        entries.push(entry);
                    }
                },
                _ => {
                    let value = match self.parse_expression(1) {
                        Some(e) => e,
                        None => return None,
                    };
                    let entry = (None, value);
                    proof {
                        lemma_entries_v_push(entries@, entry);
                    }
                    entries.push(entry);
                },
            }
            if !self.check_next(Token::Comma) && !self.check_next(Token::Semicolon) {
                if !matches!(self.peek(), Some(Token::RightBrace)) {
                    self.report("Expected ',' or '}' in table constructor");
                    return None;
                }
            }
            proof {
                assert(advanced(toks, cur, self.state()));
            }
        }
    }

    /// An anonymous function after `function`.
    fn parse_anonymous_function(&mut self) -> (r: Option<ExpressionNode>)
        ensures
            final(self).toks() == old(self).toks(),
            grows(old(self).state(), final(self).state()),
            final(self).state().ast == old(self).state().ast,
            (opt_expr_v(r), final(self).state()) == spec_anonymous_function(
                old(self).toks(),
                old(self).state(),
            ),
        decreases remaining(old(self).toks(), old(self).state()), 1int,
    {
        proof {
            reveal_with_fuel(spec_anonymous_function, 1);
            reveal_with_fuel(spec_function_body, 1);
        }
        if !self.check_next(Token::LeftParen) {
            self.report("Expected '(' after 'function' keyword");
            return None;
        }
        let parameters = match self.parse_parameter_list() {
            Some(p) => p,
            None => return None,
        };
        if !self.check_next(Token::RightParen) {
            self.report("Expected ')' after parameter list");
            return None;
        }
        let body_stmts = match self.parse_block() {
            Some(b) => b,
            None => return None,
        };
        let body = ASTNode::Statement(StatementNode::Block(body_stmts));
        Some(ExpressionNode::AnonymousFunction { parameters, body: Box::new(body) })
    }
}

} // verus!
