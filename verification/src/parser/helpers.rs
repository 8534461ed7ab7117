//! Operator tables and the expression list, shared by the expression and
//! statement parsers.
use vstd::prelude::*;
use crate::ast::{ExpressionNode, ExprV, expr_v, exprs_v, opt_exprs_v, lemma_exprs_v_push};
use crate::lexer::Token;
use crate::parser::Parser;
use crate::parser::grammar::{
    is_binary_operator,
    binding_power,
    is_right_associative,
    spec_expression_list,
    spec_expression,
    remaining,
    advanced,
    grows,
};

verus! {

/// A vector that holds the one expression `e`.
pub(crate) fn one_expression(e: ExpressionNode) -> (v: Vec<ExpressionNode>)
    ensures
        exprs_v(v@) == seq![expr_v(e)],
{
    let mut v: Vec<ExpressionNode> = Vec::new();
    proof {
        lemma_exprs_v_push(v@, e);
    }
    v.push(e);
    proof {
        assert(Seq::<ExprV>::empty().push(expr_v(e)) =~= seq![expr_v(e)]);
    }
    v
}

impl<'a> Parser<'a> {
    /// `token` is a binary operator.
    pub(crate) fn is_binary_op(token: &Token) -> (b: bool)
        ensures
            b == is_binary_operator(*token),
    {
        matches!(
            token,
            Token::Plus | Token::Minus | Token::Multiply | Token::Divide | Token::Modulus
                | Token::Power | Token::Concat | Token::Equal | Token::NotEqual | Token::LessEqual
                | Token::GreaterEqual | Token::LessThan | Token::GreaterThan | Token::And
                | Token::Or | Token::FloorDivide | Token::BitOr | Token::BitXor | Token::BitAnd
                | Token::ShiftLeft | Token::ShiftRight
        )
    }

    /// How tightly the binary operator `token` binds (0 for other tokens).
    pub(crate) fn precedence(token: &Token) -> (p: u8)
        ensures
            p as int == binding_power(*token),
    {
        match token {
            Token::Or => 1,
            Token::And => 2,
            Token::Equal | Token::NotEqual | Token::LessEqual | Token::GreaterEqual
            | Token::LessThan | Token::GreaterThan => 3,
            Token::BitOr => 4,
            Token::BitXor => 5,
            Token::BitAnd => 6,
            Token::ShiftLeft | Token::ShiftRight => 7,
            Token::Concat => 8,
            Token::Plus | Token::Minus => 9,
            Token::Multiply | Token::Divide | Token::Modulus | Token::FloorDivide => 10,
            Token::Power => 12,
            _ => 0,
        }
    }

    /// The binary operator `token` groups to the right.
    pub(crate) fn right_associative(token: &Token) -> (b: bool)
        ensures
            b == is_right_associative(*token),
    {
        matches!(token, Token::Power | Token::Concat)
    }

    /// Comma-separated expressions.
    pub(crate) fn parse_expression_list(&mut self) -> (r: Option<Vec<ExpressionNode>>)
        ensures
            final(self).toks() == old(self).toks(),
            grows(old(self).state(), final(self).state()),
            final(self).state().ast == old(self).state().ast,
            (opt_exprs_v(r), final(self).state()) == spec_expression_list(
                old(self).toks(),
                old(self).state(),
                Seq::empty(),
            ),
            r is Some ==> advanced(old(self).toks(), old(self).state(), final(self).state()),
        decreases remaining(old(self).toks(), old(self).state()), 4int,
    {
        proof {
            reveal_with_fuel(spec_expression_list, 1);
            reveal_with_fuel(spec_expression, 1);
        }
        let ghost toks = self.toks();
        let ghost st0 = self.state();
        let mut values: Vec<ExpressionNode> = Vec::new();
        proof {
            lemma_exprs_v_push(values@, ExpressionNode::VarArg);
        }
        loop
            invariant
                self.toks() == toks,
                toks == old(self).toks(),
                st0 == old(self).state(),
                grows(st0, self.state()),
                self.state().ast == st0.ast,
                spec_expression_list(toks, self.state(), exprs_v(values@)) == spec_expression_list(
                    toks,
                    st0,
                    Seq::empty(),
                ),
            decreases remaining(toks, self.state()),
        {
            proof {
                reveal_with_fuel(spec_expression_list, 1);
                reveal_with_fuel(spec_expression, 1);
            }
            let expr = match self.parse_expression(1) {
                Some(e) => e,
                None => return None,
            };
            proof {
                lemma_exprs_v_push(values@, expr);
            }
            values.push(expr);
            if !self.check_next(Token::Comma) {
                return Some(values);
            }
        }
    }
}

} // verus!
