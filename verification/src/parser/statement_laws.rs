//! Laws of statements: the token that starts a statement decides what kind
//! of statement it is, a `for` loop is numeric exactly when `=` follows its
//! first name, a `return` before the end of a block has no values, and an
//! `elseif` branch nests as an `if` in the else block.
use vstd::prelude::*;
use crate::ast::{AstV, StmtV};
use crate::lexer::Token;
use crate::parser::grammar::{
    PState,
    peek,
    take,
    check,
    err,
    advance,
    remaining,
    spec_statement,
    spec_return_statement,
    spec_return_tail,
    spec_expression_list,
    ends_block,
    spec_local_statement,
    spec_local_assignment,
    spec_function_decl,
    spec_identifier_statement,
    spec_multiple_assignment,
    spec_assignment_values,
    spec_if_statement,
    spec_if_tail,
    spec_while_statement,
    spec_for_statement,
    spec_numeric_for,
    spec_generic_for,
    spec_for_variables,
    spec_repeat_statement,
    spec_do_block,
    spec_goto_statement,
};
use crate::parser::laws::{name_of, moved};

verus! {

/// The kind of statement that the token `t` starts: `s` is of it.
pub open spec fn starts_kind(t: Token, s: StmtV) -> bool {
    match t {
        Token::Return => s is Return,
        Token::Local => s is LocalAssignment || s is LocalFunctionDeclaration,
        Token::Function => s is FunctionDeclaration,
        Token::Identifier(_) => s is Assignment || s is ExpressionStatement,
        Token::If => s is If,
        Token::While => s is While,
        Token::For => s is ForNumeric || s is ForGeneric,
        Token::Repeat => s is Repeat,
        Token::Do => s is DoBlock,
        Token::Label(n) => s == StmtV::Label(n@),
        Token::Goto => s is Goto,
        Token::Break => s == StmtV::Break,
        _ => false,
    }
}

/// The tokens with which a statement can start.
pub open spec fn starts_statement(t: Token) -> bool {
    t is Return || t is Local || t is Function || t is Identifier || t is If || t is While
        || t is For || t is Repeat || t is Do || t is Label || t is Goto || t is Break
}

proof fn lemma_local_kind(ts: Seq<Token>, st: PState)
    ensures
        spec_local_statement(ts, st).0 matches Some(s) ==> (s is LocalAssignment
            || s is LocalFunctionDeclaration),
{
    reveal_with_fuel(spec_local_statement, 1);
    reveal_with_fuel(spec_local_assignment, 1);
    reveal_with_fuel(spec_function_decl, 1);
}

proof fn lemma_identifier_kind(ts: Seq<Token>, st: PState, first: Seq<char>)
    ensures
        spec_identifier_statement(ts, st, first).0 matches Some(s) ==> (s is Assignment
            || s is ExpressionStatement),
{
    reveal_with_fuel(spec_identifier_statement, 1);
    reveal_with_fuel(spec_multiple_assignment, 1);
    reveal_with_fuel(spec_assignment_values, 1);
}

/// The further variables of a generic `for` loop come after those already
/// read, which stay in front.
proof fn lemma_for_variables_keep(ts: Seq<Token>, st: PState, acc: Seq<Seq<char>>)
    ensures
        spec_for_variables(ts, st, acc).0 matches Some(vs) ==> vs.len() >= acc.len() && vs.take(
            acc.len() as int,
        ) == acc,
    decreases remaining(ts, st),
{
    reveal_with_fuel(spec_for_variables, 1);
    let (comma, st1) = check(ts, st, Token::Comma);
    if !comma {
        assert(acc.take(acc.len() as int) =~= acc);
    } else {
        match take(ts, st1) {
            (Some(Token::Identifier(n)), st2) => {
                lemma_for_variables_keep(ts, st2, acc.push(n@));
                let (r, _) = spec_for_variables(ts, st2, acc.push(n@));
                if r is Some {
                    let vs = r->0;
                    assert(vs.take(acc.len() as int) =~= vs.take(acc.len() + 1int).take(
                        acc.len() as int,
                    ));
                    assert(acc.push(n@).take(acc.len() as int) =~= acc);
                }
            },
            _ => {},
        }
    }
}

/// A `for` loop is numeric exactly when `=` follows its first name, which is
/// then its variable; otherwise it is generic, and that name is its first
/// variable.
pub proof fn lemma_for_kind(ts: Seq<Token>, st: PState)
    requires
        0 <= st.pos,
    ensures
        spec_for_statement(ts, st).0 matches Some(s) ==> {
            &&& st.pos + 1 < ts.len()
            &&& ts[st.pos] is Identifier
            &&& if ts[st.pos + 1] == Token::Assign {
                s matches StmtV::ForNumeric { variable, .. } && variable == name_of(ts[st.pos])
            } else {
                s matches StmtV::ForGeneric { variables, .. } && variables.len() >= 1
                    && variables[0] == name_of(ts[st.pos])
            }
        },
{
    reveal_with_fuel(spec_for_statement, 1);
    reveal_with_fuel(spec_numeric_for, 1);
    reveal_with_fuel(spec_generic_for, 1);
    reveal_with_fuel(spec_for_variables, 1);
    if 0 <= st.pos < ts.len() && ts[st.pos] is Identifier {
        let first = name_of(ts[st.pos]);
        assert(take(ts, st) == (Some(ts[st.pos]), moved(st, 1)));
        lemma_for_variables_keep(ts, moved(st, 1), seq![first]);
        let (r, _) = spec_for_variables(ts, moved(st, 1), seq![first]);
        if r is Some {
            let vs = r->0;
            assert(vs[0] == vs.take(1)[0]);
        }
        if st.pos + 1 < ts.len() {
            assert(peek(ts, moved(st, 1)) == Some(ts[st.pos + 1]));
        }
    }
}

/// The token that starts a statement decides its kind: `return` gives a
/// return, `local` a local declaration or local function, `function` a
/// function declaration, a name an assignment or an expression statement,
/// `if`, `while`, `for`, `repeat`, `do`, `goto` their own statements, a
/// label the label and `break` a break. A `;` gives no statement and no
/// error; any other token gives no statement and is reported.
pub proof fn lemma_statement_kind(ts: Seq<Token>, st: PState)
    requires
        0 <= st.pos < ts.len(),
    ensures
        spec_statement(ts, st).0 matches Some(s) ==> starts_kind(ts[st.pos], s),
        ts[st.pos] == Token::Semicolon ==> spec_statement(ts, st) == (None::<StmtV>, moved(st, 1)),
        !starts_statement(ts[st.pos]) && ts[st.pos] != Token::Semicolon ==> spec_statement(ts, st)
            == (None::<StmtV>, err(moved(st, 1), "Unexpected token at start of statement"@)),
{
    reveal_with_fuel(spec_statement, 1);
    assert(peek(ts, st) == Some(ts[st.pos]));
    let st1 = advance(st);
    match ts[st.pos] {
        Token::Return => {
            reveal_with_fuel(spec_return_statement, 1);
        },
        Token::Local => {
            reveal_with_fuel(spec_local_statement, 1);
            lemma_local_kind(ts, st1);
        },
        Token::Function => {
            reveal_with_fuel(spec_function_decl, 1);
        },
        Token::Identifier(name) => {
            reveal_with_fuel(spec_identifier_statement, 1);
            lemma_identifier_kind(ts, st1, name@);
        },
        Token::If => {
            reveal_with_fuel(spec_if_statement, 1);
        },
        Token::While => {
            reveal_with_fuel(spec_while_statement, 1);
        },
        Token::For => {
            reveal_with_fuel(spec_for_statement, 1);
            reveal_with_fuel(spec_numeric_for, 1);
            reveal_with_fuel(spec_generic_for, 1);
        },
        Token::Repeat => {
            reveal_with_fuel(spec_repeat_statement, 1);
        },
        Token::Do => {
            reveal_with_fuel(spec_do_block, 1);
        },
        Token::Goto => {
            assert(spec_goto_statement(ts, st1).0 matches Some(s) ==> s is Goto);
        },
        _ => {},
    }
}

/// A `return` before `end`, `else`, `elseif`, `until`, `;`, `Eof` or the end
/// of the tokens returns no values and takes nothing more; before any other
/// token it returns the list of expressions that follows, and an optional `;`
/// after them is taken too.
pub proof fn lemma_return_values(ts: Seq<Token>, st: PState)
    requires
        0 <= st.pos,
    ensures
        (st.pos >= ts.len() || ends_block(ts[st.pos])) ==> spec_return_statement(ts, st) == (
            Some(StmtV::Return(Seq::empty())),
            st,
        ),
        (st.pos < ts.len() && !ends_block(ts[st.pos])) ==> match spec_expression_list(
            ts,
            st,
            Seq::empty(),
        ) {
            (Some(values), st1) => spec_return_statement(ts, st) == (
                Some(StmtV::Return(values)),
                check(ts, st1, Token::Semicolon).1,
            ),
            (None, st1) => spec_return_statement(ts, st) == (None::<StmtV>, st1),
        },
{
    reveal_with_fuel(spec_return_statement, 1);
    reveal_with_fuel(spec_return_tail, 1);
    if st.pos < ts.len() {
        assert(peek(ts, st) == Some(ts[st.pos]));
    }
}

/// What follows the block of an `if` branch: `elseif` gives an else block
/// that holds one `if` statement alone, `else` the statements up to `end`,
/// and otherwise only `end` may follow, with an empty else block.
pub proof fn lemma_if_tail_shape(ts: Seq<Token>, st: PState)
    requires
        0 <= st.pos < ts.len(),
    ensures
        spec_if_tail(ts, st).0 matches Some(eb) ==> {
            &&& ts[st.pos] == Token::ElseIf ==> (eb.len() == 1 && (eb[0] matches AstV::Statement(
                StmtV::If { .. },
            )))
            &&& (ts[st.pos] != Token::ElseIf && ts[st.pos] != Token::Else) ==> ts[st.pos]
                == Token::End && eb == Seq::<AstV>::empty() && spec_if_tail(ts, st).1 == moved(
                st,
                1,
            )
        },
{
    reveal_with_fuel(spec_if_tail, 1);
    assert(peek(ts, st) == Some(ts[st.pos]));
}

} // verus!
