//! The statement parser: declarations, assignments, calls, returns, labels,
//! jumps and the block forms.
use vstd::prelude::*;
use crate::ast::{
    ASTNode,
    StatementNode,
    ExpressionNode,
    AstV,
    asts_v,
    exprs_v,
    strs_v,
    targets_v,
    opt_stmt_v,
    opt_exprs_v,
    opt_strs_v,
    opt_asts_v,
    lemma_exprs_v_push,
    lemma_targets_v_push,
    lemma_strs_v_push,
    expr_v,
};
use crate::lexer::Token;
use crate::parser::Parser;
use crate::parser::helpers::one_expression;
use crate::parser::grammar::{
    spec_parameter_list,
    spec_local_targets,
    spec_name_path,
    spec_function_body,
    spec_block_until,
    spec_local_statement,
    spec_function_decl,
    spec_local_assignment,
    spec_assignment_targets,
    spec_assignment_values,
    spec_identifier_statement,
    spec_multiple_assignment,
    spec_return_tail,
    spec_postfix,
    spec_postfix_expression,
    spec_expression_list,
    remaining,
    advanced,
    grows,
    function_decl_error,
};

verus! {

impl<'a> Parser<'a> {
    /// A parameter list up to, but not including, the closing parenthesis.
    pub(crate) fn parse_parameter_list(&mut self) -> (r: Option<Vec<String>>)
        ensures
            final(self).toks() == old(self).toks(),
            grows(old(self).state(), final(self).state()),
            final(self).state().ast == old(self).state().ast,
            r is Some ==> final(self).state().errors == old(self).state().errors,
            r is None ==> final(self).state().errors == old(self).state().errors.push(
                "Unexpected token in parameter list"@,
            ),
            (opt_strs_v(r), final(self).state()) == spec_parameter_list(
                old(self).toks(),
                old(self).state(),
                Seq::empty(),
            ),
    {
        proof {
            reveal_with_fuel(spec_parameter_list, 1);
        }
        let ghost toks = self.toks();
        let ghost st0 = self.state();
        let mut parameters: Vec<String> = Vec::new();
        proof {
            assert(strs_v(parameters@) =~= Seq::<Seq<char>>::empty());
        }
        loop
            invariant
                self.toks() == toks,
                toks == old(self).toks(),
                st0 == old(self).state(),
                grows(st0, self.state()),
                self.state().errors == st0.errors,
                self.state().ast == st0.ast,
                spec_parameter_list(toks, self.state(), strs_v(parameters@)) == spec_parameter_list(
                    toks,
                    st0,
                    Seq::empty(),
                ),
            decreases remaining(toks, self.state()),
        {
            proof {
                reveal_with_fuel(spec_parameter_list, 1);
            }
            let t = match self.peek() {
                Some(t) => t,
                None => return Some(parameters),
            };
            match t {
                Token::Identifier(param) => {
                    let p = param.clone();
                    proof {
                        lemma_strs_v_push(parameters@, p);
                    }
                    parameters.push(p);
                    self.next();
                    if !self.check_next(Token::Comma) {
                        return Some(parameters);
                    }
                },
                Token::VarArgs => {
                    let p = "...".to_owned();
                    proof {
                        lemma_strs_v_push(parameters@, p);
                    }
                    parameters.push(p);
                    self.next();
                    return Some(parameters);
                },
                Token::RightParen => return Some(parameters),
                _ => {
                    self.report("Unexpected token in parameter list");
                    return None;
                },
            }
        }
    }

    /// `attr` names a local attribute that the parser keeps.
    fn is_local_attribute(attr: &String) -> (b: bool)
        ensures
            b == (attr@ == "const"@ || attr@ == "close"@),
    {
        let c = "const".to_owned();
        let d = "close".to_owned();
        *attr == c || *attr == d
    }

    /// The targets of a `local` declaration, each with its attribute.
    fn parse_local_targets(&mut self) -> (r: Option<Vec<(ExpressionNode, Option<String>)>>)
        ensures
            final(self).toks() == old(self).toks(),
            grows(old(self).state(), final(self).state()),
            final(self).state().ast == old(self).state().ast,
            (match r {
                Some(v) => Some(targets_v(v@)),
                None => None,
            }, final(self).state()) == spec_local_targets(
                old(self).toks(),
                old(self).state(),
                Seq::empty(),
            ),
            r is Some ==> advanced(old(self).toks(), old(self).state(), final(self).state()),
    {
        proof {
            reveal_with_fuel(spec_local_targets, 1);
        }
        let ghost toks = self.toks();
        let ghost st0 = self.state();
        let mut targets: Vec<(ExpressionNode, Option<String>)> = Vec::new();
        proof {
            lemma_targets_v_push(targets@, (ExpressionNode::VarArg, None));
        }
        loop
            invariant
                self.toks() == toks,
                toks == old(self).toks(),
                st0 == old(self).state(),
                grows(st0, self.state()),
                self.state().ast == st0.ast,
                spec_local_targets(toks, self.state(), targets_v(targets@)) == spec_local_targets(
                    toks,
                    st0,
                    Seq::empty(),
                ),
            decreases remaining(toks, self.state()),
        {
            proof {
                reveal_with_fuel(spec_local_targets, 1);
            }
            let ghost cur = self.state();
            let var_name = match self.next() {
                Some(Token::Identifier(name)) => ExpressionNode::Variable(name.clone()),
                _ => {
                    self.report("Expected identifier in local declaration");
                    return None;
                },
            };
            let attribute = match self.peek() {
                Some(Token::Attribute(attr)) => if Self::is_local_attribute(attr) {
                    let a = attr.clone();
                    self.next();
                    Some(a)
                } else {
                    None
                },
                _ => None,
            };
            let target = (var_name, attribute);
            proof {
                lemma_targets_v_push(targets@, target);
            }
            targets.push(target);
            if !self.check_next(Token::Comma) {
                return Some(targets);
            }
            proof {
                assert(advanced(toks, cur, self.state()));
            }
        }
    }

    /// A local declaration after `local`.
    pub(crate) fn parse_local_assignment(&mut self) -> (r: Option<StatementNode>)
        ensures
            final(self).toks() == old(self).toks(),
            grows(old(self).state(), final(self).state()),
            final(self).state().ast == old(self).state().ast,
            (opt_stmt_v(r), final(self).state()) == spec_local_assignment(
                old(self).toks(),
                old(self).state(),
            ),
        decreases remaining(old(self).toks(), old(self).state()), 1int,
    {
        proof {
            reveal_with_fuel(spec_local_assignment, 1);
            reveal_with_fuel(spec_expression_list, 1);
        }
        let targets = match self.parse_local_targets() {
            Some(t) => t,
            None => return None,
        };
        let values = if self.check_next(Token::Assign) {
            match self.parse_expression_list() {
                Some(v) => v,
                None => return None,
            }
        } else {
            let v: Vec<ExpressionNode> = Vec::new();
            proof {
                lemma_exprs_v_push(v@, ExpressionNode::VarArg);
            }
            v
        };
        let _ = self.check_next(Token::Semicolon);
        Some(StatementNode::LocalAssignment { targets, values })
    }

    /// The statement that `local` starts, after `local`: a local function or
    /// a local declaration.
    pub(crate) fn parse_local_statement(&mut self) -> (r: Option<StatementNode>)
        ensures
            final(self).toks() == old(self).toks(),
            grows(old(self).state(), final(self).state()),
            final(self).state().ast == old(self).state().ast,
            (opt_stmt_v(r), final(self).state()) == spec_local_statement(
                old(self).toks(),
                old(self).state(),
            ),
        decreases remaining(old(self).toks(), old(self).state()), 2int,
    {
        proof {
            reveal_with_fuel(spec_local_statement, 1);
            reveal_with_fuel(spec_function_decl, 1);
            reveal_with_fuel(spec_local_assignment, 1);
        }
        if self.check_next(Token::Function) {
            self.parse_function_decl(true)
        } else {
            self.parse_local_assignment()
        }
    }

    /// The rest of a global function's name after its first part: names
    /// after `.`, and possibly a last one after `:`, which makes it a method.
    fn parse_name_path(&mut self, first: Vec<String>) -> (r: Option<(Vec<String>, bool)>)
        ensures
            final(self).toks() == old(self).toks(),
            grows(old(self).state(), final(self).state()),
            final(self).state().ast == old(self).state().ast,
            r is Some ==> final(self).state().errors == old(self).state().errors,
            r is None ==> final(self).state().errors == old(self).state().errors.push(
                "Expected identifier after '.'"@,
            ) || final(self).state().errors == old(self).state().errors.push(
                "Expected identifier after ':'"@,
            ),
            (match r {
                Some((v, m)) => Some((strs_v(v@), m)),
                None => None,
            }, final(self).state()) == spec_name_path(
                old(self).toks(),
                old(self).state(),
                strs_v(first@),
            ),
    {
        proof {
            reveal_with_fuel(spec_name_path, 1);
        }
        let ghost toks = self.toks();
        let ghost st0 = self.state();
        let mut name_path = first;
        loop
            invariant
                self.toks() == toks,
                toks == old(self).toks(),
                st0 == old(self).state(),
                grows(st0, self.state()),
                self.state().errors == st0.errors,
                self.state().ast == st0.ast,
                spec_name_path(toks, self.state(), strs_v(name_path@)) == spec_name_path(
                    toks,
                    st0,
                    strs_v(first@),
                ),
            decreases remaining(toks, self.state()),
        {
            proof {
                reveal_with_fuel(spec_name_path, 1);
            }
            if self.check_next(Token::Dot) {
                match self.next() {
                    Some(Token::Identifier(name)) => {
                        let n = name.clone();
                        proof {
                            lemma_strs_v_push(name_path@, n);
                        }
                        name_path.push(n);
                    },
                    _ => {
                        self.report("Expected identifier after '.'");
                        return None;
                    },
                }
            } else if self.check_next(Token::Colon) {
                match self.next() {
                    Some(Token::Identifier(name)) => {
                        let n = name.clone();
                        proof {
                            lemma_strs_v_push(name_path@, n);
                        }
                        name_path.push(n);
                        return Some((name_path, true));
                    },
                    _ => {
                        self.report("Expected identifier after ':'");
                        return None;
                    },
                }
            } else {
                return Some((name_path, false));
            }
        }
    }

    /// A function declaration after `function`, or after `local function`
    /// when `is_local` holds.
    pub fn parse_function_decl(&mut self, is_local: bool) -> (r: Option<StatementNode>)
        ensures
            final(self).toks() == old(self).toks(),
            grows(old(self).state(), final(self).state()),
            final(self).state().ast == old(self).state().ast,
            r is None ==> final(self).state().errors.len() > old(self).state().errors.len()
                && function_decl_error(final(self).state().errors.last()),
            r is None && final(self).state().errors.last()
                != "Expected 'end' to close function body"@ ==> final(self).state().errors.len()
                == old(self).state().errors.len() + 1,
            (opt_stmt_v(r), final(self).state()) == spec_function_decl(
                old(self).toks(),
                old(self).state(),
                is_local,
            ),
        decreases remaining(old(self).toks(), old(self).state()), 1int,
    {
        proof {
            reveal_with_fuel(spec_function_decl, 1);
            reveal_with_fuel(spec_function_body, 1);
        }
        let first_name = match self.next() {
            Some(Token::Identifier(name)) => name.clone(),
            _ => {
                self.report("Expected function name after 'function' keyword");
                return None;
            },
        };
        if is_local {
            if !self.check_next(Token::LeftParen) {
                self.report("Expected '(' after function name");
                return None;
            }
            let parameters = match self.parse_parameter_list() {
                Some(p) => p,
                None => return None,
            };
            if !self.check_next(Token::RightParen) {
                self.report("Expected ')' after parameter list");
                return None;
            }
            let body_stmts = match self.parse_block() {
                Some(b) => b,
                None => return None,
            };
            let ghost body_v = asts_v(body_stmts@);
            let body = ASTNode::Statement(StatementNode::Block(body_stmts));
            proof {
                assert(crate::ast::ast_v(body) == AstV::Statement(crate::ast::StmtV::Block(body_v)));
            }
            return Some(
                StatementNode::LocalFunctionDeclaration {
                    name: first_name,
                    parameters,
                    body: Box::new(body),
                },
            );
        }
        let ghost first_v = first_name@;
        let first = vec![first_name];
        proof {
            assert(strs_v(first@) =~= seq![first_v]);
        }
        let (name_path, is_method) = match self.parse_name_path(first) {
            Some(p) => p,
            None => return None,
        };
        if !self.check_next(Token::LeftParen) {
            self.report("Expected '(' after function name");
            return None;
        }
        let mut parameters = match self.parse_parameter_list() {
            Some(p) => p,
            None => return None,
        };
        if is_method {
            let ghost ps = parameters@;
            let s = "self".to_owned();
            parameters.insert(0, s);
            proof {
                assert(strs_v(parameters@) =~= seq!["self"@] + strs_v(ps));
            }
        }
        if !self.check_next(Token::RightParen) {
            self.report("Expected ')' after parameter list");
            return None;
        }
        let body_stmts = match self.parse_block() {
            Some(b) => b,
            None => return None,
        };
        let ghost body_v = asts_v(body_stmts@);
        let body = ASTNode::Statement(StatementNode::Block(body_stmts));
        proof {
            assert(crate::ast::ast_v(body) == AstV::Statement(crate::ast::StmtV::Block(body_v)));
        }
        Some(StatementNode::FunctionDeclaration { name_path, is_method, parameters, body: Box::new(body) })
    }

    /// The further targets of a multiple assignment, after those in `first`.
    fn parse_assignment_targets(&mut self, first: Vec<ExpressionNode>) -> (r: Option<Vec<ExpressionNode>>)
        ensures
            final(self).toks() == old(self).toks(),
            grows(old(self).state(), final(self).state()),
            final(self).state().ast == old(self).state().ast,
            (opt_exprs_v(r), final(self).state()) == spec_assignment_targets(
                old(self).toks(),
                old(self).state(),
                exprs_v(first@),
            ),
            r is Some ==> advanced(old(self).toks(), old(self).state(), final(self).state()),
        decreases remaining(old(self).toks(), old(self).state()), 2int,
    {
        proof {
            reveal_with_fuel(spec_assignment_targets, 1);
            reveal_with_fuel(spec_postfix_expression, 1);
        }
        let ghost toks = self.toks();
        let ghost st0 = self.state();
        let mut targets = first;
        loop
            invariant
                self.toks() == toks,
                toks == old(self).toks(),
                st0 == old(self).state(),
                grows(st0, self.state()),
                self.state().ast == st0.ast,
                spec_assignment_targets(toks, self.state(), exprs_v(targets@))
                    == spec_assignment_targets(toks, st0, exprs_v(first@)),
            decreases remaining(toks, self.state()),
        {
            proof {
                reveal_with_fuel(spec_assignment_targets, 1);
                reveal_with_fuel(spec_postfix_expression, 1);
            }
            let e = match self.parse_postfix_expression() {
                Some(e) => e,
                None => return None,
            };
            proof {
                lemma_exprs_v_push(targets@, e);
            }
            targets.push(e);
            if !self.check_next(Token::Comma) {
                return Some(targets);
            }
        }
    }

    /// The values of an assignment to `targets`, after `=`, and an optional
    /// `;`.
    fn parse_assignment_values(&mut self, targets: Vec<ExpressionNode>) -> (r: Option<StatementNode>)
        ensures
            final(self).toks() == old(self).toks(),
            grows(old(self).state(), final(self).state()),
            final(self).state().ast == old(self).state().ast,
            (opt_stmt_v(r), final(self).state()) == spec_assignment_values(
                old(self).toks(),
                old(self).state(),
                exprs_v(targets@),
            ),
        decreases remaining(old(self).toks(), old(self).state()), 5int,
    {
        proof {
            reveal_with_fuel(spec_assignment_values, 1);
            reveal_with_fuel(spec_expression_list, 1);
        }
        let values = match self.parse_expression_list() {
            Some(v) => v,
            None => return None,
        };
        let _ = self.check_next(Token::Semicolon);
        Some(StatementNode::Assignment { targets, values })
    }

    /// A multiple assignment after its first target `first` and the comma
    /// that follows it.
    fn parse_multiple_assignment(&mut self, first: ExpressionNode) -> (r: Option<StatementNode>)
        ensures
            final(self).toks() == old(self).toks(),
            grows(old(self).state(), final(self).state()),
            final(self).state().ast == old(self).state().ast,
            (opt_stmt_v(r), final(self).state()) == spec_multiple_assignment(
                old(self).toks(),
                old(self).state(),
                expr_v(first),
            ),
        decreases remaining(old(self).toks(), old(self).state()), 3int,
    {
        proof {
            reveal_with_fuel(spec_multiple_assignment, 1);
            reveal_with_fuel(spec_assignment_targets, 1);
            reveal_with_fuel(spec_assignment_values, 1);
        }
        let firsts = one_expression(first);
        let targets = match self.parse_assignment_targets(firsts) {
            Some(t) => t,
            None => return None,
        };
        if !self.check_next(Token::Assign) {
            self.report("Expected '=' in assignment");
            return None;
        }
        self.parse_assignment_values(targets)
    }

    /// A statement that starts with the name `first`, already read: an
    /// assignment or a call.
    pub(crate) fn parse_identifier_statement(&mut self, first: String) -> (r: Option<StatementNode>)
        ensures
            final(self).toks() == old(self).toks(),
            grows(old(self).state(), final(self).state()),
            final(self).state().ast == old(self).state().ast,
            (opt_stmt_v(r), final(self).state()) == spec_identifier_statement(
                old(self).toks(),
                old(self).state(),
                first@,
            ),
        decreases remaining(old(self).toks(), old(self).state()), 2int,
    {
        proof {
            reveal_with_fuel(spec_identifier_statement, 1);
            reveal_with_fuel(spec_postfix, 1);
            reveal_with_fuel(spec_multiple_assignment, 1);
            reveal_with_fuel(spec_assignment_values, 1);
        }
        let expr = match self.parse_postfix(ExpressionNode::Variable(first)) {
            Some(e) => e,
            None => return None,
        };
        if self.check_next(Token::Comma) {
            self.parse_multiple_assignment(expr)
        } else if self.check_next(Token::Assign) {
            let targets = one_expression(expr);
            self.parse_assignment_values(targets)
        } else {
            let _ = self.check_next(Token::Semicolon);
            Some(StatementNode::ExpressionStatement(expr))
        }
    }

    /// The values of a `return`, after `return`: none at the end of the
    /// tokens or before a token that ends a block, otherwise a list of
    /// expressions and an optional `;`.
    pub(crate) fn parse_return_tail(&mut self) -> (r: Option<Vec<ExpressionNode>>)
        ensures
            final(self).toks() == old(self).toks(),
            grows(old(self).state(), final(self).state()),
            final(self).state().ast == old(self).state().ast,
            (opt_exprs_v(r), final(self).state()) == spec_return_tail(
                old(self).toks(),
                old(self).state(),
            ),
        decreases remaining(old(self).toks(), old(self).state()), 5int,
    {
        proof {
            reveal_with_fuel(spec_return_tail, 1);
            reveal_with_fuel(spec_expression_list, 1);
        }
        let at_end = match self.peek() {
            None => true,
            Some(tok) => matches!(
                tok,
                Token::End | Token::Semicolon | Token::Eof | Token::Else | Token::ElseIf | Token::Until
            ),
        };
        if at_end {
            let v: Vec<ExpressionNode> = Vec::new();
            proof {
                lemma_exprs_v_push(v@, ExpressionNode::VarArg);
            }
            return Some(v);
        }
        let values = match self.parse_expression_list() {
            Some(v) => v,
            None => return None,
        };
        let _ = self.check_next(Token::Semicolon);
        Some(values)
    }

    /// A function body after the parameter list, up to and including
    /// `end`; a missing `end` is reported.
    pub(crate) fn parse_block(&mut self) -> (r: Option<Vec<ASTNode>>)
        ensures
            final(self).toks() == old(self).toks(),
            grows(old(self).state(), final(self).state()),
            final(self).state().ast == old(self).state().ast,
            (opt_asts_v(r), final(self).state()) == spec_function_body(
                old(self).toks(),
                old(self).state(),
            ),
            r is None ==> final(self).state().errors.len() > old(self).state().errors.len()
                && final(self).state().errors.last() == "Expected 'end' to close function body"@,
        decreases remaining(old(self).toks(), old(self).state()), 2int,
    {
        proof {
            reveal_with_fuel(spec_function_body, 1);
            reveal_with_fuel(spec_block_until, 1);
        }
        let end_only = [Token::End];
        proof {
            assert(end_only@ =~= seq![Token::End]);
        }
        let body = self.parse_block_until(&end_only);
        if !self.check_next(Token::End) {
            self.report("Expected 'end' to close function body");
            return None;
        }
        Some(body)
    }
}

} // verus!
