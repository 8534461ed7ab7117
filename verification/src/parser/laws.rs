//! Laws of the parser's grammar: how operators group (Lua 5.4's precedence
//! order, equal binding power grouping to the left except `^` and `..`, a
//! unary operand taking `^` and nothing looser), which tokens are literals
//! and unary operators, how postfix chains go on, what a table entry holds,
//! and when a function name makes a method.
use vstd::prelude::*;
use crate::ast::{ExprV, LitV, NumV, StmtV};
use crate::lexer::Token;
use crate::parser::grammar::{
    PState,
    peek,
    take,
    check,
    spec_call_arguments,
    spec_table,
    table_continue,
    postfix_continue,
    spec_name_path,
    spec_parameter_list,
    spec_function_decl,
    remaining,
    advance,
    is_binary_operator,
    binding_power,
    is_right_associative,
    is_unary_operator,
    spec_expression,
    spec_binary_tail,
    spec_unary,
    spec_primary,
    spec_postfix,
    literal_of,
};

verus! {

/// The name an identifier token holds.
pub open spec fn name_of(t: Token) -> Seq<char> {
    match t {
        Token::Identifier(x) => x@,
        _ => Seq::empty(),
    }
}

/// `t` continues an expression with a call, a method call or indexing.
pub open spec fn starts_postfix(t: Token) -> bool {
    t is LeftParen || t is Colon || t is LeftBrace || t is StringLiteral || t is LeftBracket
        || t is Dot
}

/// The text a string literal token holds.
pub open spec fn string_of(t: Token) -> Seq<char> {
    match t {
        Token::StringLiteral(x) => x@,
        _ => Seq::empty(),
    }
}

/// The variable expression an identifier token stands for.
pub open spec fn var_of(t: Token) -> ExprV {
    ExprV::Variable(name_of(t))
}

/// The binary operation `l op r`.
pub open spec fn bin(l: ExprV, op: Token, r: ExprV) -> ExprV {
    ExprV::BinaryOp { left: Box::new(l), operator: op, right: Box::new(r) }
}

/// `st` moved on by `n` tokens.
pub open spec fn moved(st: PState, n: int) -> PState {
    PState { pos: st.pos + n, errors: st.errors, ast: st.ast }
}

/// A name followed by a token that does not continue it is a whole operand.
proof fn lemma_name_operand(ts: Seq<Token>, st: PState)
    requires
        0 <= st.pos,
        st.pos + 1 < ts.len(),
        ts[st.pos] is Identifier,
        !starts_postfix(ts[st.pos + 1]),
    ensures
        spec_unary(ts, st) == (Some(var_of(ts[st.pos])), moved(st, 1)),
{
    reveal_with_fuel(spec_unary, 1);
    reveal_with_fuel(spec_primary, 1);
    reveal_with_fuel(spec_postfix, 1);
    let v = var_of(ts[st.pos]);
    assert(peek(ts, st) == Some(ts[st.pos]));
    assert(peek(ts, advance(st)) == Some(ts[st.pos + 1]));
    assert(spec_postfix(ts, advance(st), v) == (Some(v), advance(st)));
    assert(spec_primary(ts, st) == spec_postfix(ts, advance(st), v));
    assert(spec_unary(ts, st) == spec_primary(ts, st));
}

/// The literal tokens and what they stand for: `true` and `false` the two
/// booleans, `nil` nil, `...` the vararg expression, and a numeral or string
/// token its own value; no other token is a literal. The unary operators are
/// `-`, `not`, `#` and `~`, and no other token.
pub proof fn lemma_literal_tokens()
    ensures
        literal_of(Token::True) == Some(ExprV::Literal(LitV::Boolean(true))),
        literal_of(Token::False) == Some(ExprV::Literal(LitV::Boolean(false))),
        literal_of(Token::Nil) == Some(ExprV::Literal(LitV::Nil)),
        literal_of(Token::VarArgs) == Some(ExprV::VarArg),
        forall|v: i64| #[trigger]
            literal_of(Token::Integer(v)) == Some(ExprV::Literal(LitV::Number(NumV::Integer(v)))),
        forall|t: Token| #[trigger] literal_of(t) is Some ==> (t is True || t is False || t is Nil
            || t is VarArgs || t is Integer || t is Number || t is StringLiteral),
        forall|t: Token|
            #[trigger] is_unary_operator(t) <==> (t is Minus || t is Not || t is Length
                || t is BitXor),
{
}

/// A literal token followed by a token that does not continue it is a whole
/// operand: the literal it stands for.
pub proof fn lemma_literal_operand(ts: Seq<Token>, st: PState)
    requires
        0 <= st.pos,
        st.pos + 1 < ts.len(),
        literal_of(ts[st.pos]) is Some,
        !starts_postfix(ts[st.pos + 1]),
    ensures
        spec_unary(ts, st) == (literal_of(ts[st.pos]), moved(st, 1)),
{
    reveal_with_fuel(spec_unary, 1);
    reveal_with_fuel(spec_primary, 1);
    reveal_with_fuel(spec_postfix, 1);
    let e = literal_of(ts[st.pos])->0;
    assert(peek(ts, st) == Some(ts[st.pos]));
    assert(peek(ts, advance(st)) == Some(ts[st.pos + 1]));
    assert(spec_postfix(ts, advance(st), e) == (Some(e), advance(st)));
    assert(spec_primary(ts, st) == spec_postfix(ts, advance(st), e));
    assert(spec_unary(ts, st) == spec_primary(ts, st));
}

/// The binary tail stops before a token that is not an operator binding at
/// least as tightly as `min`.
proof fn lemma_tail_stops(ts: Seq<Token>, st: PState, left: ExprV, min: int)
    requires
        0 <= st.pos < ts.len(),
        !(is_binary_operator(ts[st.pos]) && binding_power(ts[st.pos]) >= min),
    ensures
        spec_binary_tail(ts, st, left, min) == (Some(left), st),
{
    reveal_with_fuel(spec_expression, 1);
    reveal_with_fuel(spec_unary, 1);
    reveal_with_fuel(spec_binary_tail, 1);
}

/// A name followed by a token that neither continues it nor is an operator
/// binding at least as tightly as `min` is the whole expression.
proof fn lemma_name_expression(ts: Seq<Token>, st: PState, min: int)
    requires
        0 <= st.pos,
        st.pos + 1 < ts.len(),
        ts[st.pos] is Identifier,
        !starts_postfix(ts[st.pos + 1]),
        !(is_binary_operator(ts[st.pos + 1]) && binding_power(ts[st.pos + 1]) >= min),
    ensures
        spec_expression(ts, st, min) == (Some(var_of(ts[st.pos])), moved(st, 1)),
{
    reveal_with_fuel(spec_expression, 1);
    reveal_with_fuel(spec_unary, 1);
    reveal_with_fuel(spec_binary_tail, 1);
    lemma_name_operand(ts, st);
    let v = var_of(ts[st.pos]);
    lemma_tail_stops(ts, moved(st, 1), v, min);
    assert(spec_expression(ts, st, min) == spec_binary_tail(ts, moved(st, 1), v, min));
}

/// One step of the binary tail: the operator at `st` takes the operand
/// expression that follows it.
proof fn lemma_tail_step(ts: Seq<Token>, st: PState, left: ExprV, min: int, right: ExprV, st2: PState)
    requires
        0 <= st.pos < ts.len(),
        is_binary_operator(ts[st.pos]),
        binding_power(ts[st.pos]) >= min,
        spec_expression(
            ts,
            advance(st),
            if is_right_associative(ts[st.pos]) {
                binding_power(ts[st.pos])
            } else {
                binding_power(ts[st.pos]) + 1
            },
        ) == (Some(right), st2),
        st2.pos > st.pos,
    ensures
        spec_binary_tail(ts, st, left, min) == spec_binary_tail(
            ts,
            st2,
            bin(left, ts[st.pos], right),
            min,
        ),
{
    reveal_with_fuel(spec_expression, 1);
    reveal_with_fuel(spec_unary, 1);
    reveal_with_fuel(spec_binary_tail, 1);
    let op = ts[st.pos];
    assert(peek(ts, st) == Some(op));
}

/// `x o1 y o2 z` with operators of equal binding power that group to the
/// left reads as `(x o1 y) o2 z`.
pub proof fn lemma_left_grouping(ts: Seq<Token>, st: PState, min: int)
    requires
        st.pos == 0,
        ts.len() == 6,
        ts[0] is Identifier,
        ts[2] is Identifier,
        ts[4] is Identifier,
        ts[5] == Token::Eof,
        is_binary_operator(ts[1]),
        is_binary_operator(ts[3]),
        binding_power(ts[1]) == binding_power(ts[3]),
        !is_right_associative(ts[1]),
        1 <= min <= binding_power(ts[1]),
    ensures
        spec_expression(ts, st, min) == (
            Some(bin(bin(var_of(ts[0]), ts[1], var_of(ts[2])), ts[3], var_of(ts[4]))),
            moved(st, 5),
        ),
{
    let p = binding_power(ts[1]);
    reveal_with_fuel(spec_expression, 1);
    reveal_with_fuel(spec_unary, 1);
    reveal_with_fuel(spec_binary_tail, 1);
    lemma_name_operand(ts, st);
    lemma_name_expression(ts, moved(st, 2), p + 1);
    lemma_tail_step(ts, moved(st, 1), var_of(ts[0]), min, var_of(ts[2]), moved(st, 3));
    lemma_name_expression(ts, moved(st, 4), p + 1);
    let l = bin(var_of(ts[0]), ts[1], var_of(ts[2]));
    lemma_tail_step(ts, moved(st, 3), l, min, var_of(ts[4]), moved(st, 5));
    lemma_tail_stops(ts, moved(st, 5), bin(l, ts[3], var_of(ts[4])), min);
}

/// `x o1 y o2 z` with operators of equal binding power that group to the
/// right (`^`, `..`) reads as `x o1 (y o2 z)`.
pub proof fn lemma_right_grouping(ts: Seq<Token>, st: PState, min: int)
    requires
        st.pos == 0,
        ts.len() == 6,
        ts[0] is Identifier,
        ts[2] is Identifier,
        ts[4] is Identifier,
        ts[5] == Token::Eof,
        is_binary_operator(ts[1]),
        is_binary_operator(ts[3]),
        binding_power(ts[1]) == binding_power(ts[3]),
        is_right_associative(ts[1]),
        is_right_associative(ts[3]),
        1 <= min <= binding_power(ts[1]),
    ensures
        spec_expression(ts, st, min) == (
            Some(bin(var_of(ts[0]), ts[1], bin(var_of(ts[2]), ts[3], var_of(ts[4])))),
            moved(st, 5),
        ),
{
    let p = binding_power(ts[1]);
    let r = bin(var_of(ts[2]), ts[3], var_of(ts[4]));
    lemma_name_expression(ts, moved(st, 4), p);
    assert(spec_expression(ts, moved(st, 2), p) == (Some(r), moved(st, 5))) by {
        reveal_with_fuel(spec_expression, 1);
        reveal_with_fuel(spec_unary, 1);
        reveal_with_fuel(spec_binary_tail, 1);
        lemma_name_operand(ts, moved(st, 2));
        lemma_tail_step(ts, moved(st, 3), var_of(ts[2]), p, var_of(ts[4]), moved(st, 5));
        lemma_tail_stops(ts, moved(st, 5), r, p);
    }
    reveal_with_fuel(spec_expression, 1);
    reveal_with_fuel(spec_unary, 1);
    reveal_with_fuel(spec_binary_tail, 1);
    lemma_name_operand(ts, st);
    lemma_tail_step(ts, moved(st, 1), var_of(ts[0]), min, r, moved(st, 5));
    lemma_tail_stops(ts, moved(st, 5), bin(var_of(ts[0]), ts[1], r), min);
}

/// `u x o y` with a unary operator `u` reads as `u (x ^ y)` when `o` is
/// `^`, and as `(u x) o y` for every other binary operator `o`.
pub proof fn lemma_unary_operand(ts: Seq<Token>, st: PState)
    requires
        st.pos == 0,
        ts.len() == 5,
        is_unary_operator(ts[0]),
        ts[1] is Identifier,
        ts[3] is Identifier,
        ts[4] == Token::Eof,
        is_binary_operator(ts[2]),
    ensures
        ts[2] is Power ==> spec_expression(ts, st, 1) == (
            Some(
                ExprV::UnaryOp {
                    operator: ts[0],
                    operand: Box::new(bin(var_of(ts[1]), ts[2], var_of(ts[3]))),
                },
            ),
            moved(st, 4),
        ),
        !(ts[2] is Power) ==> spec_expression(ts, st, 1) == (
            Some(
                bin(
                    ExprV::UnaryOp { operator: ts[0], operand: Box::new(var_of(ts[1])) },
                    ts[2],
                    var_of(ts[3]),
                ),
            ),
            moved(st, 4),
        ),
{
    let pw = binding_power(Token::Power);
    let o = ts[2];
    lemma_name_expression(ts, moved(st, 3), binding_power(o) + 1);
    lemma_name_expression(ts, moved(st, 3), binding_power(o));
    if o is Power {
        let e = bin(var_of(ts[1]), o, var_of(ts[3]));
        assert(spec_expression(ts, moved(st, 1), pw) == (Some(e), moved(st, 4))) by {
            reveal_with_fuel(spec_expression, 1);
            reveal_with_fuel(spec_unary, 1);
            reveal_with_fuel(spec_binary_tail, 1);
            lemma_name_operand(ts, moved(st, 1));
            lemma_tail_step(ts, moved(st, 2), var_of(ts[1]), pw, var_of(ts[3]), moved(st, 4));
            lemma_tail_stops(ts, moved(st, 4), e, pw);
        }
        let u = ExprV::UnaryOp { operator: ts[0], operand: Box::new(e) };
        assert(spec_unary(ts, st) == (Some(u), moved(st, 4))) by {
            reveal_with_fuel(spec_unary, 1);
            reveal_with_fuel(spec_expression, 1);
        }
        reveal_with_fuel(spec_expression, 1);
        reveal_with_fuel(spec_unary, 1);
        reveal_with_fuel(spec_binary_tail, 1);
        lemma_tail_stops(ts, moved(st, 4), u, 1);
    } else {
        lemma_name_expression(ts, moved(st, 1), pw);
        let u = ExprV::UnaryOp { operator: ts[0], operand: Box::new(var_of(ts[1])) };
        assert(spec_unary(ts, st) == (Some(u), moved(st, 2))) by {
            reveal_with_fuel(spec_unary, 1);
            reveal_with_fuel(spec_expression, 1);
        }
        reveal_with_fuel(spec_expression, 1);
        reveal_with_fuel(spec_unary, 1);
        reveal_with_fuel(spec_binary_tail, 1);
        lemma_tail_step(ts, moved(st, 2), u, 1, var_of(ts[3]), moved(st, 4));
        lemma_tail_stops(ts, moved(st, 4), bin(u, o, var_of(ts[3])), 1);
    }
}

/// Lua 5.4's order of binary operators, from the loosest to the tightest:
/// `or`; `and`; comparisons; `|`; `~`; `&`; shifts; `..`; `+ -`;
/// `* / // %`; `^` (unary operators come between the last two). Only `..`
/// and `^` group to the right.
pub proof fn lemma_lua_operator_order()
    ensures
        binding_power(Token::Or) < binding_power(Token::And),
        binding_power(Token::And) < binding_power(Token::LessThan),
        binding_power(Token::LessThan) == binding_power(Token::GreaterThan),
        binding_power(Token::LessThan) == binding_power(Token::LessEqual),
        binding_power(Token::LessThan) == binding_power(Token::GreaterEqual),
        binding_power(Token::LessThan) == binding_power(Token::Equal),
        binding_power(Token::LessThan) == binding_power(Token::NotEqual),
        binding_power(Token::LessThan) < binding_power(Token::BitOr),
        binding_power(Token::BitOr) < binding_power(Token::BitXor),
        binding_power(Token::BitXor) < binding_power(Token::BitAnd),
        binding_power(Token::BitAnd) < binding_power(Token::ShiftLeft),
        binding_power(Token::ShiftLeft) == binding_power(Token::ShiftRight),
        binding_power(Token::ShiftLeft) < binding_power(Token::Concat),
        binding_power(Token::Concat) < binding_power(Token::Plus),
        binding_power(Token::Plus) == binding_power(Token::Minus),
        binding_power(Token::Plus) < binding_power(Token::Multiply),
        binding_power(Token::Multiply) == binding_power(Token::Divide),
        binding_power(Token::Multiply) == binding_power(Token::FloorDivide),
        binding_power(Token::Multiply) == binding_power(Token::Modulus),
        binding_power(Token::Multiply) < binding_power(Token::Power),
        forall|t: Token| is_binary_operator(t) ==> 1 <= binding_power(t),
        forall|t: Token| #[trigger] is_right_associative(t) <==> (t is Power || t is Concat),
{
}

/// `x o1 y o2 z` where `o2` binds tighter than `o1` reads as `x o1 (y o2 z)`.
pub proof fn lemma_tighter_operator_nests(ts: Seq<Token>, st: PState)
    requires
        st.pos == 0,
        ts.len() == 6,
        ts[0] is Identifier,
        ts[2] is Identifier,
        ts[4] is Identifier,
        ts[5] == Token::Eof,
        is_binary_operator(ts[1]),
        is_binary_operator(ts[3]),
        binding_power(ts[1]) < binding_power(ts[3]),
    ensures
        spec_expression(ts, st, 1) == (
            Some(bin(var_of(ts[0]), ts[1], bin(var_of(ts[2]), ts[3], var_of(ts[4])))),
            moved(st, 5),
        ),
{
    let p1 = binding_power(ts[1]);
    let n1 = if is_right_associative(ts[1]) { p1 } else { p1 + 1 };
    let p2 = binding_power(ts[3]);
    let n2 = if is_right_associative(ts[3]) { p2 } else { p2 + 1 };
    let r = bin(var_of(ts[2]), ts[3], var_of(ts[4]));
    lemma_name_expression(ts, moved(st, 4), n2);
    assert(spec_expression(ts, moved(st, 2), n1) == (Some(r), moved(st, 5))) by {
        reveal_with_fuel(spec_expression, 1);
        reveal_with_fuel(spec_unary, 1);
        reveal_with_fuel(spec_binary_tail, 1);
        lemma_name_operand(ts, moved(st, 2));
        lemma_tail_step(ts, moved(st, 3), var_of(ts[2]), n1, var_of(ts[4]), moved(st, 5));
        lemma_tail_stops(ts, moved(st, 5), r, n1);
    }
    reveal_with_fuel(spec_expression, 1);
    reveal_with_fuel(spec_unary, 1);
    reveal_with_fuel(spec_binary_tail, 1);
    lemma_name_operand(ts, st);
    lemma_tail_step(ts, moved(st, 1), var_of(ts[0]), 1, r, moved(st, 5));
    lemma_tail_stops(ts, moved(st, 5), bin(var_of(ts[0]), ts[1], r), 1);
}

/// `x o1 y o2 z` where `o1` binds tighter than `o2` reads as `(x o1 y) o2 z`.
pub proof fn lemma_looser_operator_takes_left(ts: Seq<Token>, st: PState)
    requires
        st.pos == 0,
        ts.len() == 6,
        ts[0] is Identifier,
        ts[2] is Identifier,
        ts[4] is Identifier,
        ts[5] == Token::Eof,
        is_binary_operator(ts[1]),
        is_binary_operator(ts[3]),
        binding_power(ts[3]) < binding_power(ts[1]),
    ensures
        spec_expression(ts, st, 1) == (
            Some(bin(bin(var_of(ts[0]), ts[1], var_of(ts[2])), ts[3], var_of(ts[4]))),
            moved(st, 5),
        ),
{
    lemma_lua_operator_order();
    let p1 = binding_power(ts[1]);
    let n1 = if is_right_associative(ts[1]) { p1 } else { p1 + 1 };
    let p2 = binding_power(ts[3]);
    let n2 = if is_right_associative(ts[3]) { p2 } else { p2 + 1 };
    let l = bin(var_of(ts[0]), ts[1], var_of(ts[2]));
    lemma_name_expression(ts, moved(st, 2), n1);
    lemma_name_expression(ts, moved(st, 4), n2);
    reveal_with_fuel(spec_expression, 1);
    reveal_with_fuel(spec_unary, 1);
    reveal_with_fuel(spec_binary_tail, 1);
    lemma_name_operand(ts, st);
    lemma_tail_step(ts, moved(st, 1), var_of(ts[0]), 1, var_of(ts[2]), moved(st, 3));
    lemma_tail_step(ts, moved(st, 3), l, 1, var_of(ts[4]), moved(st, 5));
    lemma_tail_stops(ts, moved(st, 5), bin(l, ts[3], var_of(ts[4])), 1);
}

/// `+` or `-`.
pub open spec fn is_additive(t: Token) -> bool {
    t is Plus || t is Minus
}

/// `*`, `/`, `//` or `%`.
pub open spec fn is_multiplicative(t: Token) -> bool {
    t is Multiply || t is Divide || t is FloorDivide || t is Modulus
}

/// Multiplicative operators bind tighter than additive ones, whichever comes
/// first: `x + y / z` is `x + (y / z)` and `x / y + z` is `(x / y) + z`.
pub proof fn lemma_multiplicative_binds_tighter(ts: Seq<Token>, st: PState)
    requires
        st.pos == 0,
        ts.len() == 6,
        ts[0] is Identifier,
        ts[2] is Identifier,
        ts[4] is Identifier,
        ts[5] == Token::Eof,
    ensures
        is_additive(ts[1]) && is_multiplicative(ts[3]) ==> spec_expression(ts, st, 1) == (
            Some(bin(var_of(ts[0]), ts[1], bin(var_of(ts[2]), ts[3], var_of(ts[4])))),
            moved(st, 5),
        ),
        is_multiplicative(ts[1]) && is_additive(ts[3]) ==> spec_expression(ts, st, 1) == (
            Some(bin(bin(var_of(ts[0]), ts[1], var_of(ts[2])), ts[3], var_of(ts[4]))),
            moved(st, 5),
        ),
{
    if is_additive(ts[1]) && is_multiplicative(ts[3]) {
        lemma_tighter_operator_nests(ts, st);
    }
    if is_multiplicative(ts[1]) && is_additive(ts[3]) {
        lemma_looser_operator_takes_left(ts, st);
    }
}

/// A postfix chain goes on after a call: a parenthesised argument list
/// applied to `base` gives a call to which the postfix that follows applies.
pub proof fn lemma_call_continues(
    ts: Seq<Token>,
    st: PState,
    base: ExprV,
    args: Seq<ExprV>,
    st2: PState,
)
    requires
        0 <= st.pos < ts.len(),
        ts[st.pos] == Token::LeftParen,
        spec_call_arguments(ts, moved(st, 1)) == (Some(args), st2),
        st2.pos > st.pos,
    ensures
        spec_postfix(ts, st, base) == spec_postfix(
            ts,
            st2,
            ExprV::FunctionCall { function: Box::new(base), method: None, arguments: args },
        ),
{
    reveal_with_fuel(spec_postfix, 1);
    reveal_with_fuel(postfix_continue, 1);
    reveal_with_fuel(spec_call_arguments, 1);
    assert(peek(ts, st) == Some(ts[st.pos]));
}

/// A postfix chain goes on after a method call: `:m(args)` applied to
/// `base` gives the method call, to which the postfix that follows applies;
/// so `s:a():b()` is the call of `b` on the result of `s:a()`.
pub proof fn lemma_method_call_continues(
    ts: Seq<Token>,
    st: PState,
    base: ExprV,
    args: Seq<ExprV>,
    st2: PState,
)
    requires
        0 <= st.pos,
        st.pos + 3 <= ts.len(),
        ts[st.pos] == Token::Colon,
        ts[st.pos + 1] is Identifier,
        ts[st.pos + 2] == Token::LeftParen,
        spec_call_arguments(ts, moved(st, 3)) == (Some(args), st2),
        st2.pos > st.pos,
    ensures
        spec_postfix(ts, st, base) == spec_postfix(
            ts,
            st2,
            ExprV::FunctionCall {
                function: Box::new(base),
                method: Some(name_of(ts[st.pos + 1])),
                arguments: args,
            },
        ),
{
    reveal_with_fuel(spec_postfix, 1);
    reveal_with_fuel(postfix_continue, 1);
    reveal_with_fuel(spec_call_arguments, 1);
    assert(peek(ts, st) == Some(ts[st.pos]));
    assert(take(ts, advance(st)) == (Some(ts[st.pos + 1]), moved(st, 2)));
    assert(check(ts, moved(st, 2), Token::LeftParen) == (true, moved(st, 3)));
}

/// A postfix chain goes on after a call with a string argument: `"s"`
/// applied to `base` calls it with that string, and the postfix that follows
/// applies to the call.
pub proof fn lemma_string_call_continues(ts: Seq<Token>, st: PState, base: ExprV)
    requires
        0 <= st.pos < ts.len(),
        ts[st.pos] is StringLiteral,
    ensures
        spec_postfix(ts, st, base) == spec_postfix(
            ts,
            moved(st, 1),
            ExprV::FunctionCall {
                function: Box::new(base),
                method: None,
                arguments: seq![ExprV::Literal(LitV::String(string_of(ts[st.pos])))],
            },
        ),
{
    reveal_with_fuel(spec_postfix, 1);
    reveal_with_fuel(postfix_continue, 1);
    assert(peek(ts, st) == Some(ts[st.pos]));
}

/// A postfix chain goes on after a call with a table argument: `{...}`
/// applied to `base` calls it with that table, and the postfix that follows
/// applies to the call.
pub proof fn lemma_table_call_continues(
    ts: Seq<Token>,
    st: PState,
    base: ExprV,
    tb: ExprV,
    st2: PState,
)
    requires
        0 <= st.pos < ts.len(),
        ts[st.pos] == Token::LeftBrace,
        spec_table(ts, moved(st, 1), Seq::empty()) == (Some(tb), st2),
        st2.pos > st.pos,
    ensures
        spec_postfix(ts, st, base) == spec_postfix(
            ts,
            st2,
            ExprV::FunctionCall { function: Box::new(base), method: None, arguments: seq![tb] },
        ),
{
    reveal_with_fuel(spec_postfix, 1);
    reveal_with_fuel(postfix_continue, 1);
    reveal_with_fuel(spec_table, 1);
    assert(peek(ts, st) == Some(ts[st.pos]));
}

/// A postfix chain goes on after a method call with a string argument:
/// `:m"s"` applied to `base` gives the method call, to which the postfix that
/// follows applies.
pub proof fn lemma_method_string_call_continues(ts: Seq<Token>, st: PState, base: ExprV)
    requires
        0 <= st.pos,
        st.pos + 3 <= ts.len(),
        ts[st.pos] == Token::Colon,
        ts[st.pos + 1] is Identifier,
        ts[st.pos + 2] is StringLiteral,
    ensures
        spec_postfix(ts, st, base) == spec_postfix(
            ts,
            moved(st, 3),
            ExprV::FunctionCall {
                function: Box::new(base),
                method: Some(name_of(ts[st.pos + 1])),
                arguments: seq![ExprV::Literal(LitV::String(string_of(ts[st.pos + 2])))],
            },
        ),
{
    reveal_with_fuel(spec_postfix, 1);
    reveal_with_fuel(postfix_continue, 1);
    assert(peek(ts, st) == Some(ts[st.pos]));
    assert(take(ts, advance(st)) == (Some(ts[st.pos + 1]), moved(st, 2)));
    assert(check(ts, moved(st, 2), Token::LeftParen) == (false, moved(st, 2)));
    assert(peek(ts, moved(st, 2)) == Some(ts[st.pos + 2]));
}

/// A postfix chain goes on after a method call with a table argument:
/// `:m{...}` applied to `base` gives the method call, to which the postfix
/// that follows applies.
pub proof fn lemma_method_table_call_continues(
    ts: Seq<Token>,
    st: PState,
    base: ExprV,
    tb: ExprV,
    st2: PState,
)
    requires
        0 <= st.pos,
        st.pos + 3 <= ts.len(),
        ts[st.pos] == Token::Colon,
        ts[st.pos + 1] is Identifier,
        ts[st.pos + 2] == Token::LeftBrace,
        spec_table(ts, moved(st, 3), Seq::empty()) == (Some(tb), st2),
        st2.pos > st.pos,
    ensures
        spec_postfix(ts, st, base) == spec_postfix(
            ts,
            st2,
            ExprV::FunctionCall {
                function: Box::new(base),
                method: Some(name_of(ts[st.pos + 1])),
                arguments: seq![tb],
            },
        ),
{
    reveal_with_fuel(spec_postfix, 1);
    reveal_with_fuel(postfix_continue, 1);
    reveal_with_fuel(spec_table, 1);
    assert(peek(ts, st) == Some(ts[st.pos]));
    assert(take(ts, advance(st)) == (Some(ts[st.pos + 1]), moved(st, 2)));
    assert(check(ts, moved(st, 2), Token::LeftParen) == (false, moved(st, 2)));
    assert(peek(ts, moved(st, 2)) == Some(ts[st.pos + 2]));
}

/// A postfix chain ends before a token that starts no postfix: what was read
/// so far is the whole expression, and nothing more is taken.
pub proof fn lemma_postfix_stops(ts: Seq<Token>, st: PState, base: ExprV)
    requires
        0 <= st.pos < ts.len(),
        !starts_postfix(ts[st.pos]),
    ensures
        spec_postfix(ts, st, base) == (Some(base), st),
{
    reveal_with_fuel(spec_postfix, 1);
    assert(peek(ts, st) == Some(ts[st.pos]));
}

/// A postfix chain goes on after a field: `.k` applied to `base` indexes it
/// by the string `k`, and the postfix that follows applies to the result.
pub proof fn lemma_field_continues(ts: Seq<Token>, st: PState, base: ExprV)
    requires
        0 <= st.pos,
        st.pos + 2 <= ts.len(),
        ts[st.pos] == Token::Dot,
        ts[st.pos + 1] is Identifier,
    ensures
        spec_postfix(ts, st, base) == spec_postfix(
            ts,
            moved(st, 2),
            ExprV::Index {
                table: Box::new(base),
                index: Box::new(ExprV::Literal(crate::ast::LitV::String(name_of(ts[st.pos + 1])))),
            },
        ),
{
    reveal_with_fuel(spec_postfix, 1);
    reveal_with_fuel(postfix_continue, 1);
    assert(peek(ts, st) == Some(ts[st.pos]));
    assert(take(ts, advance(st)) == (Some(ts[st.pos + 1]), moved(st, 2)));
}

/// A postfix chain goes on after an index: `[e]` applied to `base` indexes
/// it by `e`, and the postfix that follows applies to the result.
pub proof fn lemma_index_continues(ts: Seq<Token>, st: PState, base: ExprV, e: ExprV, st1: PState)
    requires
        0 <= st.pos < ts.len(),
        ts[st.pos] == Token::LeftBracket,
        spec_expression(ts, moved(st, 1), 1) == (Some(e), st1),
        st.pos < st1.pos < ts.len(),
        ts[st1.pos] == Token::RightBracket,
    ensures
        spec_postfix(ts, st, base) == spec_postfix(
            ts,
            moved(st1, 1),
            ExprV::Index { table: Box::new(base), index: Box::new(e) },
        ),
{
    reveal_with_fuel(spec_postfix, 1);
    reveal_with_fuel(postfix_continue, 1);
    reveal_with_fuel(spec_expression, 1);
    assert(peek(ts, st) == Some(ts[st.pos]));
    assert(check(ts, st1, Token::RightBracket) == (true, moved(st1, 1)));
}

/// A table entry that is not `[key] = value` and is not followed by `=` is a
/// whole expression, stored without a key; so `{e}` is a table holding `e`
/// alone (for example `{n + 1}`).
pub proof fn lemma_table_positional_entry(
    ts: Seq<Token>,
    st: PState,
    acc: Seq<(Option<ExprV>, ExprV)>,
    e: ExprV,
    st1: PState,
)
    requires
        0 <= st.pos < ts.len(),
        !(ts[st.pos] is RightBrace),
        !(ts[st.pos] is LeftBracket),
        spec_expression(ts, st, 1) == (Some(e), st1),
        st.pos < st1.pos < ts.len(),
        ts[st1.pos] != Token::Assign,
    ensures
        spec_table(ts, st, acc) == table_continue(ts, st, st1, acc.push((None, e))),
        ts[st1.pos] == Token::RightBrace ==> spec_table(ts, st, acc) == (
            Some(ExprV::TableConstructor { entries: acc.push((None, e)) }),
            moved(st1, 1),
        ),
{
    reveal_with_fuel(spec_table, 1);
    reveal_with_fuel(spec_expression, 1);
    reveal_with_fuel(table_continue, 1);
    assert(peek(ts, st) == Some(ts[st.pos]));
    assert(check(ts, st1, Token::Assign) == (false, st1));
    if ts[st1.pos] == Token::RightBrace {
        assert(check(ts, st1, Token::Comma) == (false, st1));
        assert(check(ts, st1, Token::Semicolon) == (false, st1));
        assert(peek(ts, st1) == Some(Token::RightBrace));
        let acc2 = acc.push((None, e));
        assert(spec_table(ts, st1, acc2) == (
            Some(ExprV::TableConstructor { entries: acc2 }),
            moved(st1, 1),
        ));
        assert(table_continue(ts, st, st1, acc2) == spec_table(ts, st1, acc2));
    }
}

/// A table entry `name = value`: a name followed by `=` is the key of the
/// value that follows.
pub proof fn lemma_table_keyed_entry(
    ts: Seq<Token>,
    st: PState,
    acc: Seq<(Option<ExprV>, ExprV)>,
    k: ExprV,
    st1: PState,
    v: ExprV,
    st2: PState,
)
    requires
        0 <= st.pos < ts.len(),
        ts[st.pos] is Identifier,
        spec_expression(ts, st, 1) == (Some(k), st1),
        st.pos < st1.pos < ts.len(),
        ts[st1.pos] == Token::Assign,
        spec_expression(ts, moved(st1, 1), 1) == (Some(v), st2),
    ensures
        spec_table(ts, st, acc) == table_continue(ts, st, st2, acc.push((Some(k), v))),
{
    reveal_with_fuel(spec_table, 1);
    reveal_with_fuel(spec_expression, 1);
    reveal_with_fuel(table_continue, 1);
    assert(peek(ts, st) == Some(ts[st.pos]));
    assert(check(ts, st1, Token::Assign) == (true, moved(st1, 1)));
}

/// A global function name is a method exactly when it ends in `:name`: the
/// name path read from `st` is a method exactly when its last two tokens are
/// `:` and a name; after `.` parts alone (or none) it is not.
pub proof fn lemma_method_name_ends_in_colon(ts: Seq<Token>, st: PState, acc: Seq<Seq<char>>)
    requires
        0 <= st.pos,
    ensures
        ({
            let (r, st2) = spec_name_path(ts, st, acc);
            r matches Some((path, is_method)) ==> {
                &&& st.pos <= st2.pos
                &&& is_method <==> (st2.pos >= st.pos + 2 && ts[st2.pos - 2] == Token::Colon)
                &&& path.len() >= acc.len()
                &&& path.take(acc.len() as int) == acc
            }
        }),
    decreases remaining(ts, st),
{
    reveal_with_fuel(spec_name_path, 1);
    let (dot, st1) = check(ts, st, Token::Dot);
    if dot {
        match take(ts, st1) {
            (Some(Token::Identifier(n)), st2) => {
                lemma_method_name_ends_in_colon(ts, st2, acc.push(n@));
                let (r, st3) = spec_name_path(ts, st2, acc.push(n@));
                if st3.pos < st2.pos + 2 {
                    assert(ts[st.pos] == Token::Dot);
                }
                if r is Some {
                    let (path, _) = r->0;
                    assert(path.take(acc.len() as int) =~= path.take(acc.len() + 1int).take(
                        acc.len() as int,
                    ));
                    assert(acc.push(n@).take(acc.len() as int) =~= acc);
                }
            },
            _ => {},
        }
    } else {
        let (colon, st2) = check(ts, st1, Token::Colon);
        if colon {
            match take(ts, st2) {
                (Some(Token::Identifier(n)), st3) => {
                    assert(acc.push(n@).take(acc.len() as int) =~= acc);
                },
                _ => {},
            }
        } else {
            assert(acc.take(acc.len() as int) =~= acc);
        }
    }
}

/// A global function declaration keeps its parameters as written, with
/// `self` put in front exactly when the name is a method: its name starts
/// with the name after `function`, the `(` that opens the parameters is
/// preceded by `:` and a name exactly for a method, and a name made of `.`
/// parts alone (`function a.b(p)`) has the parameters `p` and no more.
pub proof fn lemma_function_decl_parameters(ts: Seq<Token>, st: PState)
    requires
        0 <= st.pos,
    ensures
        spec_function_decl(ts, st, false).0 matches Some(
            StmtV::FunctionDeclaration { name_path, is_method, parameters, .. },
        ) ==> {
            let (_, st2) = spec_name_path(ts, moved(st, 1), seq![name_of(ts[st.pos])]);
            let ps = spec_parameter_list(ts, moved(st2, 1), Seq::empty()).0->0;
            &&& st.pos + 1 <= st2.pos < ts.len()
            &&& ts[st.pos] is Identifier
            &&& ts[st2.pos] == Token::LeftParen
            &&& (is_method <==> (st2.pos >= st.pos + 3 && ts[st2.pos - 2] == Token::Colon))
            &&& parameters == (if is_method {
                seq!["self"@] + ps
            } else {
                ps
            })
            &&& name_path.len() >= 1
            &&& name_path[0] == name_of(ts[st.pos])
        },
{
    reveal_with_fuel(spec_function_decl, 1);
    if 0 <= st.pos < ts.len() && ts[st.pos] is Identifier {
        let first = name_of(ts[st.pos]);
        assert(take(ts, st) == (Some(ts[st.pos]), moved(st, 1)));
        lemma_method_name_ends_in_colon(ts, moved(st, 1), seq![first]);
        let (r, st2) = spec_name_path(ts, moved(st, 1), seq![first]);
        if r is Some {
            let (path, _) = r->0;
            assert(path[0] == path.take(1)[0]);
        }
    }
}

} // verus!
