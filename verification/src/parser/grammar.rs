//! What the parser does, as functions from a token sequence and a parser
//! state to a result and the next state.
//!
//! The state records the position in the token sequence, the error
//! messages reported so far and the top-level statements collected so far.
//! Each function below describes the parser method of the same name; a loop
//! of a method is described by a function that takes what the loop has
//! collected so far. Where a function continues from a state that a nested
//! parse returned, it does so only when that state lies further on (a guard
//! with `advanced`); the parser methods are proved never to reach the other
//! branch.
use vstd::prelude::*;
use crate::ast::{AstV, StmtV, ExprV, LitV, NumV};
use crate::lexer::Token;

verus! {

/// The state of a parser.
pub struct PState {
    pub pos: int,
    pub errors: Seq<Seq<char>>,
    pub ast: Seq<AstV>,
}

pub open spec fn peek(ts: Seq<Token>, st: PState) -> Option<Token> {
    if 0 <= st.pos < ts.len() {
        Some(ts[st.pos])
    } else {
        None
    }
}

pub open spec fn advance(st: PState) -> PState {
    PState { pos: st.pos + 1, errors: st.errors, ast: st.ast }
}

/// `st` with the message `msg` reported.
pub open spec fn err(st: PState, msg: Seq<char>) -> PState {
    PState { pos: st.pos, errors: st.errors.push(msg), ast: st.ast }
}

/// `st` with the statement `s` added to the top-level statements.
pub open spec fn add_top(st: PState, s: StmtV) -> PState {
    PState { pos: st.pos, errors: st.errors, ast: st.ast.push(AstV::Statement(s)) }
}

/// Takes the next token, if there is one.
pub open spec fn take(ts: Seq<Token>, st: PState) -> (Option<Token>, PState) {
    match peek(ts, st) {
        Some(t) => (Some(t), advance(st)),
        None => (None, st),
    }
}

/// Takes the next token if it is `t`.
pub open spec fn check(ts: Seq<Token>, st: PState, t: Token) -> (bool, PState) {
    if peek(ts, st) == Some(t) {
        (true, advance(st))
    } else {
        (false, st)
    }
}

/// The remaining length of input, the measure of progress.
pub open spec fn remaining(ts: Seq<Token>, st: PState) -> nat {
    if 0 <= st.pos < ts.len() {
        (ts.len() - st.pos) as nat
    } else {
        0
    }
}

/// From `st` to `st2` the parser did not move back, and the error messages
/// and top-level statements of `st` were kept, in order, at the front of
/// those of `st2`.
pub open spec fn grows(st: PState, st2: PState) -> bool {
    &&& st.pos <= st2.pos
    &&& st.errors.len() <= st2.errors.len()
    &&& forall|i: int| 0 <= i < st.errors.len() ==> st2.errors[i] == st.errors[i]
    &&& st.ast.len() <= st2.ast.len()
    &&& forall|i: int| 0 <= i < st.ast.len() ==> st2.ast[i] == st.ast[i]
}

/// From `st` to `st2` at least one token was read.
pub open spec fn advanced(ts: Seq<Token>, st: PState, st2: PState) -> bool {
    0 <= st.pos < st2.pos && st.pos < ts.len()
}

pub open spec fn is_binary_operator(t: Token) -> bool {
    t is Plus || t is Minus || t is Multiply || t is Divide || t is Modulus || t is Power
        || t is Concat || t is Equal || t is NotEqual || t is LessEqual || t is GreaterEqual
        || t is LessThan || t is GreaterThan || t is And || t is Or || t is FloorDivide
        || t is BitOr || t is BitXor || t is BitAnd || t is ShiftLeft || t is ShiftRight
}

/// How tightly a binary operator binds, following Lua 5.4 from `or` (loosest)
/// to `^` (tightest); 0 for other tokens.
pub open spec fn binding_power(t: Token) -> int {
    if t is Or {
        1
    } else if t is And {
        2
    } else if t is Equal || t is NotEqual || t is LessEqual || t is GreaterEqual || t is LessThan
        || t is GreaterThan {
        3
    } else if t is BitOr {
        4
    } else if t is BitXor {
        5
    } else if t is BitAnd {
        6
    } else if t is ShiftLeft || t is ShiftRight {
        7
    } else if t is Concat {
        8
    } else if t is Plus || t is Minus {
        9
    } else if t is Multiply || t is Divide || t is Modulus || t is FloorDivide {
        10
    } else if t is Power {
        12
    } else {
        0
    }
}

/// `t` is a unary operator: `-`, `not`, `#` or `~`.
pub open spec fn is_unary_operator(t: Token) -> bool {
    t is Minus || t is Not || t is Length || t is BitXor
}

pub open spec fn is_right_associative(t: Token) -> bool {
    t is Power || t is Concat
}

pub open spec fn block_of(body: Seq<AstV>) -> Box<AstV> {
    Box::new(AstV::Statement(StmtV::Block(body)))
}

/// The literal expression a token stands for, if it is a literal.
pub open spec fn literal_of(t: Token) -> Option<ExprV> {
    match t {
        Token::Integer(v) => Some(ExprV::Literal(LitV::Number(NumV::Integer(v)))),
        Token::Number(x) => Some(ExprV::Literal(LitV::Number(NumV::Float(x@)))),
        Token::StringLiteral(s) => Some(ExprV::Literal(LitV::String(s@))),
        Token::True => Some(ExprV::Literal(LitV::Boolean(true))),
        Token::False => Some(ExprV::Literal(LitV::Boolean(false))),
        Token::Nil => Some(ExprV::Literal(LitV::Nil)),
        Token::VarArgs => Some(ExprV::VarArg),
        _ => None,
    }
}

/// A parameter list up to, but not including, the closing parenthesis.
#[verifier::opaque]
pub open spec fn spec_parameter_list(ts: Seq<Token>, st: PState, acc: Seq<Seq<char>>) -> (
    Option<Seq<Seq<char>>>,
    PState,
)
    decreases remaining(ts, st),
{
    match peek(ts, st) {
        Some(Token::Identifier(p)) => {
            let (more, st2) = check(ts, advance(st), Token::Comma);
            if more {
                spec_parameter_list(ts, st2, acc.push(p@))
            } else {
                (Some(acc.push(p@)), st2)
            }
        },
        Some(Token::VarArgs) => (Some(acc.push("..."@)), advance(st)),
        Some(Token::RightParen) => (Some(acc), st),
        Some(_) => (None, err(st, "Unexpected token in parameter list"@)),
        None => (Some(acc), st),
    }
}

/// The targets of a `local` declaration, each with its attribute.
#[verifier::opaque]
pub open spec fn spec_local_targets(
    ts: Seq<Token>,
    st: PState,
    acc: Seq<(ExprV, Option<Seq<char>>)>,
) -> (Option<Seq<(ExprV, Option<Seq<char>>)>>, PState)
    decreases remaining(ts, st),
{
    match take(ts, st) {
        (Some(Token::Identifier(name)), st1) => {
            let (attr, st2) = match peek(ts, st1) {
                Some(Token::Attribute(a)) => if a@ == "const"@ || a@ == "close"@ {
                    (Some(a@), advance(st1))
                } else {
                    (None, st1)
                },
                _ => (None, st1),
            };
            let acc2 = acc.push((ExprV::Variable(name@), attr));
            let (more, st3) = check(ts, st2, Token::Comma);
            if more && advanced(ts, st, st3) {
                spec_local_targets(ts, st3, acc2)
            } else {
                (Some(acc2), st3)
            }
        },
        (_, st1) => (None, err(st1, "Expected identifier in local declaration"@)),
    }
}

/// The name of a global function: names separated by `.`, the last one
/// possibly after `:` (which makes the function a method).
#[verifier::opaque]
pub open spec fn spec_name_path(ts: Seq<Token>, st: PState, acc: Seq<Seq<char>>) -> (
    Option<(Seq<Seq<char>>, bool)>,
    PState,
)
    decreases remaining(ts, st),
{
    let (dot, st1) = check(ts, st, Token::Dot);
    if dot {
        match take(ts, st1) {
            (Some(Token::Identifier(n)), st2) => spec_name_path(ts, st2, acc.push(n@)),
            (_, st2) => (None, err(st2, "Expected identifier after '.'"@)),
        }
    } else {
        let (colon, st2) = check(ts, st1, Token::Colon);
        if colon {
            match take(ts, st2) {
                (Some(Token::Identifier(n)), st3) => (Some((acc.push(n@), true)), st3),
                (_, st3) => (None, err(st3, "Expected identifier after ':'"@)),
            }
        } else {
            (Some((acc, false)), st2)
        }
    }
}

/// An expression whose binary operators bind at least as tightly as
/// `min_prec`.
#[verifier::opaque]
pub open spec fn spec_expression(ts: Seq<Token>, st: PState, min_prec: int) -> (
    Option<ExprV>,
    PState,
)
    decreases remaining(ts, st), 3int,
{
    let (u, st1) = spec_unary(ts, st);
    match u {
        Some(left) => if advanced(ts, st, st1) {
            spec_binary_tail(ts, st1, left, min_prec)
        } else {
            (None, st1)
        },
        None => (None, st1),
    }
}

/// The binary operators that follow the operand `left`.
#[verifier::opaque]
pub open spec fn spec_binary_tail(ts: Seq<Token>, st: PState, left: ExprV, min_prec: int) -> (
    Option<ExprV>,
    PState,
)
    decreases remaining(ts, st), 1int,
{
    match peek(ts, st) {
        Some(op) => if is_binary_operator(op) && binding_power(op) >= min_prec {
            let prec = binding_power(op);
            let next_min = if is_right_associative(op) {
                prec
            } else {
                prec + 1
            };
            let (r, st2) = spec_expression(ts, advance(st), next_min);
            match r {
                Some(right) => if advanced(ts, st, st2) {
                    spec_binary_tail(
                        ts,
                        st2,
                        ExprV::BinaryOp { left: Box::new(left), operator: op, right: Box::new(right) },
                        min_prec,
                    )
                } else {
                    (None, st2)
                },
                None => (None, st2),
            }
        } else {
            (Some(left), st)
        },
        None => (Some(left), st),
    }
}


/// A primary expression and the calls and indexing that follow it.
#[verifier::opaque]
pub open spec fn spec_primary(ts: Seq<Token>, st: PState) -> (Option<ExprV>, PState)
    decreases remaining(ts, st), 1int,
{
    match peek(ts, st) {
        None => (None, st),
        Some(t) => {
            let st1 = advance(st);
            match t {
                Token::Identifier(n) => spec_postfix(ts, st1, ExprV::Variable(n@)),
                Token::Function => spec_anonymous_function(ts, st1),
                Token::LeftParen => {
                    let (e, st2) = spec_expression(ts, st1, 1);
                    match e {
                        Some(e) => {
                            let (closed, st3) = check(ts, st2, Token::RightParen);
                            let st4 = if closed {
                                st3
                            } else {
                                err(st3, "Expected ')'"@)
                            };
                            if advanced(ts, st, st4) {
                                spec_postfix(ts, st4, e)
                            } else {
                                (None, st4)
                            }
                        },
                        None => (None, st2),
                    }
                },
                Token::LeftBrace => spec_table(ts, st1, Seq::empty()),
                _ => match literal_of(t) {
                    Some(e) => spec_postfix(ts, st1, e),
                    None => (None, err(st1, "Unexpected token in expression"@)),
                },
            }
        },
    }
}

/// An assignment target: a name or a parenthesised expression, with the
/// calls and indexing that follow it.
#[verifier::opaque]
pub open spec fn spec_postfix_expression(ts: Seq<Token>, st: PState) -> (Option<ExprV>, PState)
    decreases remaining(ts, st), 1int,
{
    match take(ts, st) {
        (None, st1) => (None, st1),
        (Some(Token::Identifier(n)), st1) => spec_postfix(ts, st1, ExprV::Variable(n@)),
        (Some(Token::LeftParen), st1) => {
            let (e, st2) = spec_expression(ts, st1, 1);
            match e {
                Some(e) => {
                    let (closed, st3) = check(ts, st2, Token::RightParen);
                    let st4 = if closed {
                        st3
                    } else {
                        err(st3, "Expected ')'"@)
                    };
                    if advanced(ts, st, st4) {
                        spec_postfix(ts, st4, e)
                    } else {
                        (None, st4)
                    }
                },
                None => (None, st2),
            }
        },
        (Some(_), st1) => (None, err(st1, "Expected expression"@)),
    }
}

/// Continues the postfix loop from `st2` with `base`, which was read from
/// `st`.
#[verifier::opaque]
pub open spec fn postfix_continue(ts: Seq<Token>, st: PState, st2: PState, base: ExprV) -> (
    Option<ExprV>,
    PState,
)
    decreases remaining(ts, st), 0int,
{
    if advanced(ts, st, st2) {
        spec_postfix(ts, st2, base)
    } else {
        (None, st2)
    }
}

/// The arguments of a call after `(`, up to and including `)`.
#[verifier::opaque]
pub open spec fn spec_call_arguments(ts: Seq<Token>, st: PState) -> (Option<Seq<ExprV>>, PState)
    decreases remaining(ts, st), 5int,
{
    let (args, st2) = if peek(ts, st) == Some(Token::RightParen) {
        (Some(Seq::<ExprV>::empty()), st)
    } else {
        spec_expression_list(ts, st, Seq::empty())
    };
    match args {
        Some(args) => {
            let (closed, st3) = check(ts, st2, Token::RightParen);
            if closed {
                (Some(args), st3)
            } else {
                (None, err(st3, "Expected ')' after arguments"@))
            }
        },
        None => (None, st2),
    }
}

/// Calls, method calls and indexing applied to `base`.
#[verifier::opaque]
pub open spec fn spec_postfix(ts: Seq<Token>, st: PState, base: ExprV) -> (Option<ExprV>, PState)
    decreases remaining(ts, st), 1int,
{
    match peek(ts, st) {
        None => (None, st),
        Some(Token::LeftParen) => {
            let (args, st2) = spec_call_arguments(ts, advance(st));
            match args {
                Some(args) => postfix_continue(
                    ts,
                    st,
                    st2,
                    ExprV::FunctionCall { function: Box::new(base), method: None, arguments: args },
                ),
                None => (None, st2),
            }
        },
        Some(Token::Colon) => {
            match take(ts, advance(st)) {
                (Some(Token::Identifier(m)), st2) => {
                    let (paren, st3) = check(ts, st2, Token::LeftParen);
                    if paren {
                        let (args, st4) = spec_call_arguments(ts, st3);
                        match args {
                            Some(args) => postfix_continue(
                                ts,
                                st,
                                st4,
                                ExprV::FunctionCall {
                                    function: Box::new(base),
                                    method: Some(m@),
                                    arguments: args,
                                },
                            ),
                            None => (None, st4),
                        }
                    } else if peek(ts, st3) == Some(Token::LeftBrace) {
                        let (tb, st4) = spec_table(ts, advance(st3), Seq::empty());
                        match tb {
                            Some(tb) => postfix_continue(
                                ts,
                                st,
                                st4,
                                ExprV::FunctionCall {
                                    function: Box::new(base),
                                    method: Some(m@),
                                    arguments: seq![tb],
                                },
                            ),
                            None => (None, st4),
                        }
                    } else {
                        match peek(ts, st3) {
                            Some(Token::StringLiteral(s)) => postfix_continue(
                                ts,
                                st,
                                advance(st3),
                                ExprV::FunctionCall {
                                    function: Box::new(base),
                                    method: Some(m@),
                                    arguments: seq![ExprV::Literal(LitV::String(s@))],
                                },
                            ),
                            _ => (None, err(st3, "Expected arguments after method name"@)),
                        }
                    }
                },
                (_, st2) => (None, err(st2, "Expected method name after ':'"@)),
            }
        },
        Some(Token::LeftBrace) => {
            let (tb, st2) = spec_table(ts, advance(st), Seq::empty());
            match tb {
                Some(tb) => postfix_continue(
                    ts,
                    st,
                    st2,
                    ExprV::FunctionCall { function: Box::new(base), method: None, arguments: seq![tb] },
                ),
                None => (None, st2),
            }
        },
        Some(Token::StringLiteral(s)) => postfix_continue(
            ts,
            st,
            advance(st),
            ExprV::FunctionCall {
                function: Box::new(base),
                method: None,
                arguments: seq![ExprV::Literal(LitV::String(s@))],
            },
        ),
        Some(Token::LeftBracket) => {
            let (index, st2) = spec_expression(ts, advance(st), 1);
            match index {
                Some(index) => {
                    let (closed, st3) = check(ts, st2, Token::RightBracket);
                    if closed {
                        postfix_continue(
                            ts,
                            st,
                            st3,
                            ExprV::Index { table: Box::new(base), index: Box::new(index) },
                        )
                    } else {
                        (None, err(st3, "Expected ']'"@))
                    }
                },
                None => (None, st2),
            }
        },
        Some(Token::Dot) => {
            match take(ts, advance(st)) {
                (Some(Token::Identifier(key)), st2) => postfix_continue(
                    ts,
                    st,
                    st2,
                    ExprV::Index {
                        table: Box::new(base),
                        index: Box::new(ExprV::Literal(LitV::String(key@))),
                    },
                ),
                (_, st2) => (None, err(st2, "Expected identifier after '.'"@)),
            }
        },
        Some(_) => (Some(base), st),
    }
}

/// Comma-separated expressions; `acc` holds those read so far.
#[verifier::opaque]
pub open spec fn spec_expression_list(ts: Seq<Token>, st: PState, acc: Seq<ExprV>) -> (
    Option<Seq<ExprV>>,
    PState,
)
    decreases remaining(ts, st), 4int,
{
    let (e, st1) = spec_expression(ts, st, 1);
    match e {
        Some(e) => {
            let (more, st2) = check(ts, st1, Token::Comma);
            if !more {
                (Some(acc.push(e)), st2)
            } else if advanced(ts, st, st2) {
                spec_expression_list(ts, st2, acc.push(e))
            } else {
                (None, st2)
            }
        },
        None => (None, st1),
    }
}

/// After a table entry: a separator, or the closing brace next.
#[verifier::opaque]
pub open spec fn table_continue(
    ts: Seq<Token>,
    st: PState,
    st2: PState,
    acc: Seq<(Option<ExprV>, ExprV)>,
) -> (Option<ExprV>, PState)
    decreases remaining(ts, st), 0int,
{
    let (comma, st3) = check(ts, st2, Token::Comma);
    let (sep, st4) = if comma {
        (true, st3)
    } else {
        check(ts, st3, Token::Semicolon)
    };
    if !sep && peek(ts, st4) != Some(Token::RightBrace) {
        (None, err(st4, "Expected ',' or '}' in table constructor"@))
    } else if advanced(ts, st, st4) {
        spec_table(ts, st4, acc)
    } else {
        (None, st4)
    }
}

/// A table constructor after `{`; `acc` holds the entries read so far.
#[verifier::opaque]
pub open spec fn spec_table(ts: Seq<Token>, st: PState, acc: Seq<(Option<ExprV>, ExprV)>) -> (
    Option<ExprV>,
    PState,
)
    decreases remaining(ts, st), 4int,
{
    match peek(ts, st) {
        None => (None, st),
        Some(Token::RightBrace) => (Some(ExprV::TableConstructor { entries: acc }), advance(st)),
        Some(Token::LeftBracket) => {
            let (key, st1) = spec_expression(ts, advance(st), 1);
            match key {
                Some(key) => {
                    let (closed, st2) = check(ts, st1, Token::RightBracket);
                    if !closed {
                        (None, err(st2, "Expected ']'"@))
                    } else {
                        let (assign, st3) = check(ts, st2, Token::Assign);
                        if !assign {
                            (None, err(st3, "Expected '=' after table key"@))
                        } else if !advanced(ts, st, st3) {
                            (None, st3)
                        } else {
                            let (value, st4) = spec_expression(ts, st3, 1);
                            match value {
                                Some(value) => table_continue(
                                    ts,
                                    st,
                                    st4,
                                    acc.push((Some(key), value)),
                                ),
                                None => (None, st4),
                            }
                        }
                    }
                },
                None => (None, st1),
            }
        },
        Some(Token::Identifier(_)) => {
            let (first, st1) = spec_expression(ts, st, 1);
            match first {
                Some(first) => {
                    let (assign, st2) = check(ts, st1, Token::Assign);
                    if assign && !advanced(ts, st, st2) {
                        (None, st2)
                    } else if assign {
                        let (value, st3) = spec_expression(ts, st2, 1);
                        match value {
                            Some(value) => table_continue(
                                ts,
                                st,
                                st3,
                                acc.push((Some(first), value)),
                            ),
                            None => (None, st3),
                        }
                    } else {
                        table_continue(ts, st, st2, acc.push((None, first)))
                    }
                },
                None => (None, st1),
            }
        },
        Some(_) => {
            let (value, st1) = spec_expression(ts, st, 1);
            match value {
                Some(value) => table_continue(ts, st, st1, acc.push((None, value))),
                None => (None, st1),
            }
        },
    }
}

/// An anonymous function after `function`.
#[verifier::opaque]
pub open spec fn spec_anonymous_function(ts: Seq<Token>, st: PState) -> (Option<ExprV>, PState)
    decreases remaining(ts, st), 1int,
{
    let (open_paren, st1) = check(ts, st, Token::LeftParen);
    if !open_paren {
        (None, err(st1, "Expected '(' after 'function' keyword"@))
    } else {
        match spec_parameter_list(ts, st1, Seq::empty()) {
            (Some(parameters), st2) => {
                let (closed, st3) = check(ts, st2, Token::RightParen);
                if !closed {
                    (None, err(st3, "Expected ')' after parameter list"@))
                } else if advanced(ts, st, st3) {
                    match spec_function_body(ts, st3) {
                        (Some(body), st4) => (
                            Some(ExprV::AnonymousFunction { parameters, body: block_of(body) }),
                            st4,
                        ),
                        (None, st4) => (None, st4),
                    }
                } else {
                    (None, st3)
                }
            },
            (None, st2) => (None, st2),
        }
    }
}

/// The statement that `local` starts, after `local`: a local function or a
/// local declaration.
#[verifier::opaque]
pub open spec fn spec_local_statement(ts: Seq<Token>, st: PState) -> (Option<StmtV>, PState)
    decreases remaining(ts, st), 2int,
{
    let (func, st1) = check(ts, st, Token::Function);
    if func {
        spec_function_decl(ts, st1, true)
    } else {
        spec_local_assignment(ts, st1)
    }
}


pub open spec fn push_stmt(acc: Seq<AstV>, s: Option<StmtV>) -> Seq<AstV> {
    match s {
        Some(s) => acc.push(AstV::Statement(s)),
        None => acc,
    }
}


/// `m` is one of the messages with which a function declaration fails.
pub open spec fn function_decl_error(m: Seq<char>) -> bool {
    ||| m == "Expected function name after 'function' keyword"@
    ||| m == "Expected identifier after '.'"@
    ||| m == "Expected identifier after ':'"@
    ||| m == "Expected '(' after function name"@
    ||| m == "Unexpected token in parameter list"@
    ||| m == "Expected ')' after parameter list"@
    ||| m == "Expected 'end' to close function body"@
}

/// A function declaration after `function` (or `local function`).
#[verifier::opaque]
pub open spec fn spec_function_decl(ts: Seq<Token>, st: PState, is_local: bool) -> (
    Option<StmtV>,
    PState,
)
    decreases remaining(ts, st), 1int,
{
    match take(ts, st) {
        (Some(Token::Identifier(first)), st1) => {
            if is_local {
                let (open_paren, st2) = check(ts, st1, Token::LeftParen);
                if !open_paren {
                    (None, err(st2, "Expected '(' after function name"@))
                } else {
                    match spec_parameter_list(ts, st2, Seq::empty()) {
                        (Some(parameters), st3) => {
                            let (closed, st4) = check(ts, st3, Token::RightParen);
                            if !closed {
                                (None, err(st4, "Expected ')' after parameter list"@))
                            } else if advanced(ts, st, st4) {
                                match spec_function_body(ts, st4) {
                                    (Some(body), st5) => (
                                        Some(
                                            StmtV::LocalFunctionDeclaration {
                                                name: first@,
                                                parameters,
                                                body: block_of(body),
                                            },
                                        ),
                                        st5,
                                    ),
                                    (None, st5) => (None, st5),
                                }
                            } else {
                                (None, st4)
                            }
                        },
                        (None, st3) => (None, st3),
                    }
                }
            } else {
                match spec_name_path(ts, st1, seq![first@]) {
                    (Some((name_path, is_method)), st2) => {
                        let (open_paren, st3) = check(ts, st2, Token::LeftParen);
                        if !open_paren {
                            (None, err(st3, "Expected '(' after function name"@))
                        } else {
                            match spec_parameter_list(ts, st3, Seq::empty()) {
                                (Some(ps), st4) => {
                                    let parameters = if is_method {
                                        seq!["self"@] + ps
                                    } else {
                                        ps
                                    };
                                    let (closed, st5) = check(ts, st4, Token::RightParen);
                                    if !closed {
                                        (None, err(st5, "Expected ')' after parameter list"@))
                                    } else if advanced(ts, st, st5) {
                                        match spec_function_body(ts, st5) {
                                            (Some(body), st6) => (
                                                Some(
                                                    StmtV::FunctionDeclaration {
                                                        name_path,
                                                        is_method,
                                                        parameters,
                                                        body: block_of(body),
                                                    },
                                                ),
                                                st6,
                                            ),
                                            (None, st6) => (None, st6),
                                        }
                                    } else {
                                        (None, st5)
                                    }
                                },
                                (None, st4) => (None, st4),
                            }
                        }
                    },
                    (None, st2) => (None, st2),
                }
            }
        },
        (_, st1) => (None, err(st1, "Expected function name after 'function' keyword"@)),
    }
}

/// A local declaration after `local`.
#[verifier::opaque]
pub open spec fn spec_local_assignment(ts: Seq<Token>, st: PState) -> (Option<StmtV>, PState)
    decreases remaining(ts, st), 1int,
{
    match spec_local_targets(ts, st, Seq::empty()) {
        (Some(targets), st1) => {
            let (assign, st2) = check(ts, st1, Token::Assign);
            let (values, st3) = if !assign {
                (Some(Seq::<ExprV>::empty()), st2)
            } else if advanced(ts, st, st2) {
                spec_expression_list(ts, st2, Seq::empty())
            } else {
                (None, st2)
            };
            match values {
                Some(values) => {
                    let (_, st4) = check(ts, st3, Token::Semicolon);
                    (Some(StmtV::LocalAssignment { targets, values }), st4)
                },
                None => (None, st3),
            }
        },
        (None, st1) => (None, st1),
    }
}

/// The further targets of a multiple assignment; `acc` holds the targets
/// read so far.
#[verifier::opaque]
pub open spec fn spec_assignment_targets(ts: Seq<Token>, st: PState, acc: Seq<ExprV>) -> (
    Option<Seq<ExprV>>,
    PState,
)
    decreases remaining(ts, st), 2int,
{
    match spec_postfix_expression(ts, st) {
        (Some(e), st1) => {
            let (more, st2) = check(ts, st1, Token::Comma);
            if !more {
                (Some(acc.push(e)), st2)
            } else if advanced(ts, st, st2) {
                spec_assignment_targets(ts, st2, acc.push(e))
            } else {
                (None, st2)
            }
        },
        (None, st1) => (None, st1),
    }
}

/// The values of an assignment after `=`, and an optional `;`.
#[verifier::opaque]
pub open spec fn spec_assignment_values(ts: Seq<Token>, st: PState, targets: Seq<ExprV>) -> (
    Option<StmtV>,
    PState,
)
    decreases remaining(ts, st), 5int,
{
    match spec_expression_list(ts, st, Seq::empty()) {
        (Some(values), st1) => {
            let (_, st2) = check(ts, st1, Token::Semicolon);
            (Some(StmtV::Assignment { targets, values }), st2)
        },
        (None, st1) => (None, st1),
    }
}

/// A multiple assignment after its first target `e` and the comma that
/// follows it.
#[verifier::opaque]
pub open spec fn spec_multiple_assignment(ts: Seq<Token>, st: PState, e: ExprV) -> (
    Option<StmtV>,
    PState,
)
    decreases remaining(ts, st), 3int,
{
    match spec_assignment_targets(ts, st, seq![e]) {
        (Some(targets), st1) => {
            let (assign, st2) = check(ts, st1, Token::Assign);
            if !assign {
                (None, err(st2, "Expected '=' in assignment"@))
            } else if advanced(ts, st, st2) {
                spec_assignment_values(ts, st2, targets)
            } else {
                (None, st2)
            }
        },
        (None, st1) => (None, st1),
    }
}

/// A statement that starts with the name `first` (already read): an
/// assignment or a call.
#[verifier::opaque]
pub open spec fn spec_identifier_statement(ts: Seq<Token>, st: PState, first: Seq<char>) -> (
    Option<StmtV>,
    PState,
)
    decreases remaining(ts, st), 2int,
{
    match spec_postfix(ts, st, ExprV::Variable(first)) {
        (Some(e), st1) => {
            let (comma, st2) = check(ts, st1, Token::Comma);
            if comma {
                if advanced(ts, st, st2) {
                    spec_multiple_assignment(ts, st2, e)
                } else {
                    (None, st2)
                }
            } else {
                let (assign, st3) = check(ts, st2, Token::Assign);
                if assign {
                    if advanced(ts, st, st3) {
                        spec_assignment_values(ts, st3, seq![e])
                    } else {
                        (None, st3)
                    }
                } else {
                    let (_, st4) = check(ts, st3, Token::Semicolon);
                    (Some(StmtV::ExpressionStatement(e)), st4)
                }
            }
        },
        (None, st1) => (None, st1),
    }
}



/// A label statement after `::name::`.
pub open spec fn spec_label_statement(ts: Seq<Token>, st: PState, label: Seq<char>) -> (
    StmtV,
    PState,
) {
    let (_, st1) = check(ts, st, Token::Semicolon);
    (StmtV::Label(label), st1)
}

/// A `goto` statement after `goto`.
pub open spec fn spec_goto_statement(ts: Seq<Token>, st: PState) -> (Option<StmtV>, PState) {
    match take(ts, st) {
        (Some(Token::Identifier(label)), st1) => {
            let (_, st2) = check(ts, st1, Token::Semicolon);
            (Some(StmtV::Goto(label@)), st2)
        },
        (_, st1) => (None, err(st1, "Expected label name after 'goto' keyword"@)),
    }
}


pub open spec fn if_stops() -> Seq<Token> {
    seq![Token::ElseIf, Token::Else, Token::End]
}



} // verus!

verus! {







/// The further variables of a generic `for` loop, each after a comma;
/// `acc` holds those read so far.
#[verifier::opaque]
pub open spec fn spec_for_variables(ts: Seq<Token>, st: PState, acc: Seq<Seq<char>>) -> (
    Option<Seq<Seq<char>>>,
    PState,
)
    decreases remaining(ts, st),
{
    let (comma, st1) = check(ts, st, Token::Comma);
    if !comma {
        (Some(acc), st1)
    } else {
        match take(ts, st1) {
            (Some(Token::Identifier(n)), st2) => spec_for_variables(ts, st2, acc.push(n@)),
            (_, st2) => (None, err(st2, "Expected variable name after ','"@)),
        }
    }
}



/// `st` with `s`, if there is one, added to the top-level statements.
pub open spec fn add_top_opt(st: PState, s: Option<StmtV>) -> PState {
    match s {
        Some(s) => add_top(st, s),
        None => st,
    }
}


} // verus!

verus! {

/// A unary expression: `-`, `not`, `#` or `~` applied to an operand, or a primary
/// expression. The operand takes the binary operators that bind tighter than
/// the unary ones, which is `^` alone, so `-a ^ 2` is `-(a ^ 2)`.
#[verifier::opaque]
pub open spec fn spec_unary(ts: Seq<Token>, st: PState) -> (Option<ExprV>, PState)
    decreases remaining(ts, st), 2int,
{
    match peek(ts, st) {
        Some(op) => if is_unary_operator(op) {
            let (o, st2) = spec_expression(ts, advance(st), binding_power(Token::Power));
            match o {
                Some(e) => (Some(ExprV::UnaryOp { operator: op, operand: Box::new(e) }), st2),
                None => (None, st2),
            }
        } else {
            spec_primary(ts, st)
        },
        None => spec_primary(ts, st),
    }
}

/// A function body after the parameter list, up to and including `end`.
#[verifier::opaque]
pub open spec fn spec_function_body(ts: Seq<Token>, st: PState) -> (Option<Seq<AstV>>, PState)
    decreases remaining(ts, st), 2int,
{
    let (body, st1) = spec_block_until(ts, st, seq![Token::End], Seq::empty());
    let (end, st2) = check(ts, st1, Token::End);
    if !end {
        (None, err(st2, "Expected 'end' to close function body"@))
    } else {
        (Some(body), st2)
    }
}

/// A token that ends a block, before which a `return` has no values.
pub open spec fn ends_block(t: Token) -> bool {
    t is End || t is Semicolon || t is Eof || t is Else || t is ElseIf || t is Until
}

/// The values of a `return`, after `return`: none at the end of the tokens
/// or before a token that ends a block, otherwise a list of expressions and
/// an optional `;`.
#[verifier::opaque]
pub open spec fn spec_return_tail(ts: Seq<Token>, st: PState) -> (Option<Seq<ExprV>>, PState)
    decreases remaining(ts, st), 5int,
{
    if peek(ts, st) is None || ends_block(peek(ts, st)->0) {
        (Some(Seq::empty()), st)
    } else {
        match spec_expression_list(ts, st, Seq::empty()) {
            (Some(values), st1) => {
                let (_, st2) = check(ts, st1, Token::Semicolon);
                (Some(values), st2)
            },
            (None, st1) => (None, st1),
        }
    }
}

/// A `return` statement after `return`.
#[verifier::opaque]
pub open spec fn spec_return_statement(ts: Seq<Token>, st: PState) -> (Option<StmtV>, PState)
    decreases remaining(ts, st), 6int,
{
    match spec_return_tail(ts, st) {
        (Some(values), st1) => (Some(StmtV::Return(values)), st1),
        (None, st1) => (None, st1),
    }
}

/// One statement at `st`: the token there selects the statement parser,
/// which reads the rest. A `;` is an empty statement; any other token that
/// starts no statement is read and reported.
#[verifier::opaque]
pub open spec fn spec_statement(ts: Seq<Token>, st: PState) -> (Option<StmtV>, PState)
    decreases remaining(ts, st), 0int,
{
    match peek(ts, st) {
        None => (None, st),
        Some(t) => {
            let st1 = advance(st);
            match t {
                Token::Return => spec_return_statement(ts, st1),
                Token::Local => spec_local_statement(ts, st1),
                Token::Function => spec_function_decl(ts, st1, false),
                Token::Identifier(name) => spec_identifier_statement(ts, st1, name@),
                Token::If => spec_if_statement(ts, st1),
                Token::While => spec_while_statement(ts, st1),
                Token::For => spec_for_statement(ts, st1),
                Token::Repeat => spec_repeat_statement(ts, st1),
                Token::Do => spec_do_block(ts, st1),
                Token::Label(name) => {
                    let (s, st2) = spec_label_statement(ts, st1, name@);
                    (Some(s), st2)
                },
                Token::Goto => spec_goto_statement(ts, st1),
                Token::Break => (Some(StmtV::Break), st1),
                Token::Semicolon => (None, st1),
                _ => (None, err(st1, "Unexpected token at start of statement"@)),
            }
        },
    }
}

/// Statements up to one of the tokens in `stops`, `Eof` or the end of input,
/// which are not read; `acc` holds the statements read so far.
#[verifier::opaque]
pub open spec fn spec_block_until(ts: Seq<Token>, st: PState, stops: Seq<Token>, acc: Seq<AstV>) -> (
    Seq<AstV>,
    PState,
)
    decreases remaining(ts, st), 1int,
{
    match peek(ts, st) {
        None => (acc, st),
        Some(t) => if stops.contains(t) || t == Token::Eof {
            (acc, st)
        } else {
            let (s, st2) = spec_statement(ts, st);
            if advanced(ts, st, st2) {
                spec_block_until(ts, st2, stops, push_stmt(acc, s))
            } else {
                (push_stmt(acc, s), st2)
            }
        },
    }
}

/// An `if` statement after `if`.
#[verifier::opaque]
pub open spec fn spec_if_statement(ts: Seq<Token>, st: PState) -> (Option<StmtV>, PState)
    decreases remaining(ts, st), 4int,
{
    let (cond, st1) = spec_expression(ts, st, 1);
    match cond {
        None => (None, err(st1, "Expected expression after 'if'"@)),
        Some(cond) => {
            let (then, st2) = check(ts, st1, Token::Then);
            if !then {
                (None, err(st2, "Expected 'then' after condition"@))
            } else if !advanced(ts, st, st2) {
                (None, st2)
            } else {
                let (then_block, st3) = spec_block_until(ts, st2, if_stops(), Seq::empty());
                if !advanced(ts, st, st3) {
                    (None, st3)
                } else {
                    match spec_if_tail(ts, st3) {
                        (Some(else_block), st4) => (
                            Some(StmtV::If { condition: cond, then_block, else_block }),
                            st4,
                        ),
                        (None, st4) => (None, st4),
                    }
                }
            }
        },
    }
}

/// What follows the block of an `if` or `elseif` branch, up to and including
/// `end`: the else block. An `elseif` branch gives an else block that holds
/// one `if` statement, whose own else block is what follows that branch.
#[verifier::opaque]
pub open spec fn spec_if_tail(ts: Seq<Token>, st: PState) -> (Option<Seq<AstV>>, PState)
    decreases remaining(ts, st), 0int,
{
    match peek(ts, st) {
        Some(Token::ElseIf) => {
            let (cond, st1) = spec_expression(ts, advance(st), 1);
            match cond {
                None => (None, err(st1, "Expected expression after 'elseif'"@)),
                Some(cond) => {
                    let (then, st2) = check(ts, st1, Token::Then);
                    if !then {
                        (None, err(st2, "Expected 'then' after 'elseif' condition"@))
                    } else if !advanced(ts, st, st2) {
                        (None, st2)
                    } else {
                        let (body, st3) = spec_block_until(ts, st2, if_stops(), Seq::empty());
                        if !advanced(ts, st, st3) {
                            (None, st3)
                        } else {
                            match spec_if_tail(ts, st3) {
                                (Some(rest), st4) => (
                                    Some(
                                        seq![
                                            AstV::Statement(
                                                StmtV::If {
                                                    condition: cond,
                                                    then_block: body,
                                                    else_block: rest,
                                                },
                                            ),
                                        ],
                                    ),
                                    st4,
                                ),
                                (None, st4) => (None, st4),
                            }
                        }
                    }
                },
            }
        },
        Some(Token::Else) => {
            let (body, st1) = spec_block_until(ts, advance(st), seq![Token::End], Seq::empty());
            let (end, st2) = check(ts, st1, Token::End);
            if !end {
                (None, err(st2, "Expected 'end' to close 'if' statement"@))
            } else {
                (Some(body), st2)
            }
        },
        _ => {
            let (end, st1) = check(ts, st, Token::End);
            if !end {
                (None, err(st1, "Expected 'end' to close 'if' statement"@))
            } else {
                (Some(Seq::empty()), st1)
            }
        },
    }
}

/// A `do` block after `do`.
#[verifier::opaque]
pub open spec fn spec_do_block(ts: Seq<Token>, st: PState) -> (Option<StmtV>, PState)
    decreases remaining(ts, st), 2int,
{
    let (body, st1) = spec_block_until(ts, st, seq![Token::End], Seq::empty());
    let (end, st2) = check(ts, st1, Token::End);
    if !end {
        (None, err(st2, "Expected 'end' to close 'do' block"@))
    } else {
        (Some(StmtV::DoBlock { body }), st2)
    }
}

/// A `repeat` statement after `repeat`.
#[verifier::opaque]
pub open spec fn spec_repeat_statement(ts: Seq<Token>, st: PState) -> (Option<StmtV>, PState)
    decreases remaining(ts, st), 2int,
{
    let (body, st1) = spec_block_until(ts, st, seq![Token::Until], Seq::empty());
    let (until, st2) = check(ts, st1, Token::Until);
    if !until {
        (None, err(st2, "Expected 'until' to close 'repeat' statement"@))
    } else if !advanced(ts, st, st2) {
        (None, st2)
    } else {
        match spec_expression(ts, st2, 1) {
            (Some(condition), st3) => (Some(StmtV::Repeat { body, condition }), st3),
            (None, st3) => (None, err(st3, "Expected expression after 'until'"@)),
        }
    }
}

/// A `while` statement after `while`.
#[verifier::opaque]
pub open spec fn spec_while_statement(ts: Seq<Token>, st: PState) -> (Option<StmtV>, PState)
    decreases remaining(ts, st), 4int,
{
    match spec_expression(ts, st, 1) {
        (None, st1) => (None, err(st1, "Expected expression after 'while'"@)),
        (Some(condition), st1) => {
            let (has_do, st2) = check(ts, st1, Token::Do);
            if !has_do {
                (None, err(st2, "Expected 'do' after condition"@))
            } else if !advanced(ts, st, st2) {
                (None, st2)
            } else {
                let (body, st3) = spec_block_until(ts, st2, seq![Token::End], Seq::empty());
                let (end, st4) = check(ts, st3, Token::End);
                if !end {
                    (None, err(st4, "Expected 'end' to close 'while' statement"@))
                } else {
                    (Some(StmtV::While { condition, body }), st4)
                }
            }
        },
    }
}

/// The body of a `for` loop after `do`, up to and including `end`.
#[verifier::opaque]
pub open spec fn spec_for_body(ts: Seq<Token>, st: PState) -> (Option<Seq<AstV>>, PState)
    decreases remaining(ts, st), 2int,
{
    let (body, st1) = spec_block_until(ts, st, seq![Token::End], Seq::empty());
    let (end, st2) = check(ts, st1, Token::End);
    if !end {
        (None, err(st2, "Expected 'end' to close 'for' statement"@))
    } else {
        (Some(body), st2)
    }
}

/// The step of a numeric `for` loop, if a comma introduces one: `Some` of
/// the step (itself optional) unless the step expression is missing.
#[verifier::opaque]
pub open spec fn spec_for_step(ts: Seq<Token>, st: PState) -> (Option<Option<ExprV>>, PState)
    decreases remaining(ts, st), 0int,
{
    let (has_step, st1) = check(ts, st, Token::Comma);
    if !has_step {
        (Some(None), st1)
    } else {
        match spec_expression(ts, st1, 1) {
            (Some(step), st2) => (Some(Some(step)), st2),
            (None, st2) => (None, err(st2, "Expected step expression in 'for' statement"@)),
        }
    }
}

/// A numeric `for` loop after `for var =`.
#[verifier::opaque]
pub open spec fn spec_numeric_for(ts: Seq<Token>, st: PState, var: Seq<char>) -> (
    Option<StmtV>,
    PState,
)
    decreases remaining(ts, st), 4int,
{
    match spec_expression(ts, st, 1) {
        (None, st1) => (None, err(st1, "Expected start expression in 'for' statement"@)),
        (Some(start), st1) => {
            let (comma, st2) = check(ts, st1, Token::Comma);
            if !comma {
                (None, err(st2, "Expected ',' after start expression in 'for' statement"@))
            } else if !advanced(ts, st, st2) {
                (None, st2)
            } else {
                match spec_expression(ts, st2, 1) {
                    (None, st3) => (None, err(st3, "Expected end expression in 'for' statement"@)),
                    (Some(end), st3) => if !advanced(ts, st, st3) {
                        (None, st3)
                    } else {
                        match spec_for_step(ts, st3) {
                            (None, st4) => (None, st4),
                            (Some(step), st4) => {
                                let (has_do, st5) = check(ts, st4, Token::Do);
                                if !has_do {
                                    (None, err(st5, "Expected 'do' in 'for' statement"@))
                                } else if !advanced(ts, st, st5) {
                                    (None, st5)
                                } else {
                                    match spec_for_body(ts, st5) {
                                        (Some(body), st6) => (
                                            Some(
                                                StmtV::ForNumeric {
                                                    variable: var,
                                                    start,
                                                    end,
                                                    step,
                                                    body,
                                                },
                                            ),
                                            st6,
                                        ),
                                        (None, st6) => (None, st6),
                                    }
                                }
                            },
                        }
                    },
                }
            }
        },
    }
}

/// A generic `for` loop after `for first`.
#[verifier::opaque]
pub open spec fn spec_generic_for(ts: Seq<Token>, st: PState, first: Seq<char>) -> (
    Option<StmtV>,
    PState,
)
    decreases remaining(ts, st), 0int,
{
    match spec_for_variables(ts, st, seq![first]) {
        (None, st1) => (None, st1),
        (Some(variables), st1) => {
            let (has_in, st2) = check(ts, st1, Token::In);
            if !has_in {
                (None, err(st2, "Expected 'in' in generic 'for' loop"@))
            } else if !advanced(ts, st, st2) {
                (None, st2)
            } else {
                match spec_expression_list(ts, st2, Seq::empty()) {
                    (None, st3) => (None, st3),
                    (Some(expressions), st3) => {
                        let (has_do, st4) = check(ts, st3, Token::Do);
                        if !has_do {
                            (None, err(st4, "Expected 'do' in 'for' statement"@))
                        } else if !advanced(ts, st, st4) {
                            (None, st4)
                        } else {
                            match spec_for_body(ts, st4) {
                                (Some(body), st5) => (
                                    Some(StmtV::ForGeneric { variables, expressions, body }),
                                    st5,
                                ),
                                (None, st5) => (None, st5),
                            }
                        }
                    },
                }
            }
        },
    }
}

/// A `for` statement after `for`.
#[verifier::opaque]
pub open spec fn spec_for_statement(ts: Seq<Token>, st: PState) -> (Option<StmtV>, PState)
    decreases remaining(ts, st), 0int,
{
    match take(ts, st) {
        (Some(Token::Identifier(name)), st1) => {
            let (assign, st2) = check(ts, st1, Token::Assign);
            if assign {
                spec_numeric_for(ts, st2, name@)
            } else {
                spec_generic_for(ts, st1, name@)
            }
        },
        (_, st1) => (None, err(st1, "Expected variable name in 'for' statement"@)),
    }
}

/// The whole parse from `st`: top-level statements up to `Eof`, which is
/// read, or to the end of input, each added to the top-level statements.
#[verifier::opaque]
pub open spec fn spec_parse(ts: Seq<Token>, st: PState) -> PState
    decreases remaining(ts, st),
{
    match peek(ts, st) {
        None => st,
        Some(t) => if t == Token::Eof {
            advance(st)
        } else {
            let (s, st1) = spec_statement(ts, st);
            let st2 = add_top_opt(st1, s);
            if advanced(ts, st, st2) {
                spec_parse(ts, st2)
            } else {
                st2
            }
        },
    }
}

} // verus!
