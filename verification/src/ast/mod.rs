//! The syntax tree the parser builds, and its mathematical view.
use vstd::prelude::*;
use crate::lexer::Token;

verus! {

/// A node of the syntax tree: a statement or an expression.
#[derive(Debug, PartialEq)]
pub enum ASTNode {
    Statement(StatementNode),
    Expression(ExpressionNode),
}

/// A Lua statement.
#[derive(Debug, PartialEq)]
pub enum StatementNode {
    Block(Vec<ASTNode>),
    Goto(String),
    DoBlock { body: Vec<ASTNode> },
    LocalAssignment { targets: Vec<(ExpressionNode, Option<String>)>, values: Vec<ExpressionNode> },
    Assignment { targets: Vec<ExpressionNode>, values: Vec<ExpressionNode> },
    Label(String),
    LocalFunctionDeclaration { name: String, parameters: Vec<String>, body: Box<ASTNode> },
    FunctionDeclaration {
        name_path: Vec<String>,
        is_method: bool,
        parameters: Vec<String>,
        body: Box<ASTNode>,
    },
    If { condition: ExpressionNode, then_block: Vec<ASTNode>, else_block: Vec<ASTNode> },
    While { condition: ExpressionNode, body: Vec<ASTNode> },
    Repeat { body: Vec<ASTNode>, condition: ExpressionNode },
    ForNumeric {
        variable: String,
        start: ExpressionNode,
        end: ExpressionNode,
        step: Option<ExpressionNode>,
        body: Vec<ASTNode>,
    },
    ForGeneric { variables: Vec<String>, expressions: Vec<ExpressionNode>, body: Vec<ASTNode> },
    Return(Vec<ExpressionNode>),
    Break,
    ExpressionStatement(ExpressionNode),
}

/// A Lua expression.
#[derive(Debug, PartialEq)]
pub enum ExpressionNode {
    Literal(LiteralNode),
    Variable(String),
    BinaryOp { left: Box<ExpressionNode>, operator: Token, right: Box<ExpressionNode> },
    UnaryOp { operator: Token, operand: Box<ExpressionNode> },
    FunctionCall {
        function: Box<ExpressionNode>,
        method: Option<String>,
        arguments: Vec<ExpressionNode>,
    },
    TableConstructor { entries: Vec<(Option<ExpressionNode>, ExpressionNode)> },
    Index { table: Box<ExpressionNode>, index: Box<ExpressionNode> },
    AnonymousFunction { parameters: Vec<String>, body: Box<ASTNode> },
    VarArg,
}

/// A numeral as written: an integer value, or the text of a floating-point
/// numeral (digit separators removed).
#[derive(Debug, PartialEq)]
pub enum Numeral {
    Integer(i64),
    Float(String),
}

/// A literal value.
#[derive(Debug, PartialEq)]
pub enum LiteralNode {
    Number(Numeral),
    String(String),
    Boolean(bool),
    Nil,
}

/// The view of a node: strings become character sequences and vectors
/// become sequences.
pub enum AstV {
    Statement(StmtV),
    Expression(ExprV),
}

pub enum StmtV {
    Block(Seq<AstV>),
    Goto(Seq<char>),
    DoBlock { body: Seq<AstV> },
    LocalAssignment { targets: Seq<(ExprV, Option<Seq<char>>)>, values: Seq<ExprV> },
    Assignment { targets: Seq<ExprV>, values: Seq<ExprV> },
    Label(Seq<char>),
    LocalFunctionDeclaration { name: Seq<char>, parameters: Seq<Seq<char>>, body: Box<AstV> },
    FunctionDeclaration {
        name_path: Seq<Seq<char>>,
        is_method: bool,
        parameters: Seq<Seq<char>>,
        body: Box<AstV>,
    },
    If { condition: ExprV, then_block: Seq<AstV>, else_block: Seq<AstV> },
    While { condition: ExprV, body: Seq<AstV> },
    Repeat { body: Seq<AstV>, condition: ExprV },
    ForNumeric {
        variable: Seq<char>,
        start: ExprV,
        end: ExprV,
        step: Option<ExprV>,
        body: Seq<AstV>,
    },
    ForGeneric { variables: Seq<Seq<char>>, expressions: Seq<ExprV>, body: Seq<AstV> },
    Return(Seq<ExprV>),
    Break,
    ExpressionStatement(ExprV),
}

pub enum ExprV {
    Literal(LitV),
    Variable(Seq<char>),
    BinaryOp { left: Box<ExprV>, operator: Token, right: Box<ExprV> },
    UnaryOp { operator: Token, operand: Box<ExprV> },
    FunctionCall { function: Box<ExprV>, method: Option<Seq<char>>, arguments: Seq<ExprV> },
    TableConstructor { entries: Seq<(Option<ExprV>, ExprV)> },
    Index { table: Box<ExprV>, index: Box<ExprV> },
    AnonymousFunction { parameters: Seq<Seq<char>>, body: Box<AstV> },
    VarArg,
}

pub enum NumV {
    Integer(i64),
    Float(Seq<char>),
}

pub enum LitV {
    Number(NumV),
    String(Seq<char>),
    Boolean(bool),
    Nil,
}

pub open spec fn strs_v(s: Seq<String>) -> Seq<Seq<char>> {
    s.map_values(|x: String| x@)
}

pub open spec fn opt_str_v(o: Option<String>) -> Option<Seq<char>> {
    match o {
        Some(x) => Some(x@),
        None => None,
    }
}

pub open spec fn lit_v(l: LiteralNode) -> LitV {
    match l {
        LiteralNode::Number(Numeral::Integer(v)) => LitV::Number(NumV::Integer(v)),
        LiteralNode::Number(Numeral::Float(x)) => LitV::Number(NumV::Float(x@)),
        LiteralNode::String(x) => LitV::String(x@),
        LiteralNode::Boolean(b) => LitV::Boolean(b),
        LiteralNode::Nil => LitV::Nil,
    }
}

pub open spec fn ast_v(a: ASTNode) -> AstV
    decreases a,
{
    match a {
        ASTNode::Statement(s) => AstV::Statement(stmt_v(s)),
        ASTNode::Expression(e) => AstV::Expression(expr_v(e)),
    }
}

pub open spec fn asts_v(s: Seq<ASTNode>) -> Seq<AstV>
    decreases s,
{
    if s.len() == 0 {
        Seq::empty()
    } else {
        asts_v(s.subrange(0, s.len() - 1)).push(ast_v(s[s.len() - 1]))
    }
}

pub open spec fn exprs_v(s: Seq<ExpressionNode>) -> Seq<ExprV>
    decreases s,
{
    if s.len() == 0 {
        Seq::empty()
    } else {
        exprs_v(s.subrange(0, s.len() - 1)).push(expr_v(s[s.len() - 1]))
    }
}

pub open spec fn targets_v(s: Seq<(ExpressionNode, Option<String>)>) -> Seq<(ExprV, Option<Seq<char>>)>
    decreases s,
{
    if s.len() == 0 {
        Seq::empty()
    } else {
        targets_v(s.subrange(0, s.len() - 1)).push(
            (expr_v(s[s.len() - 1].0), opt_str_v(s[s.len() - 1].1)),
        )
    }
}

pub open spec fn entries_v(s: Seq<(Option<ExpressionNode>, ExpressionNode)>) -> Seq<(Option<ExprV>, ExprV)>
    decreases s,
{
    if s.len() == 0 {
        Seq::empty()
    } else {
        entries_v(s.subrange(0, s.len() - 1)).push(
            (
                match s[s.len() - 1].0 {
                    Some(k) => Some(expr_v(k)),
                    None => None,
                },
                expr_v(s[s.len() - 1].1),
            ),
        )
    }
}

pub open spec fn opt_expr_v(o: Option<ExpressionNode>) -> Option<ExprV>
    decreases o,
{
    match o {
        Some(e) => Some(expr_v(e)),
        None => None,
    }
}

pub open spec fn opt_stmt_v(o: Option<StatementNode>) -> Option<StmtV> {
    match o {
        Some(s) => Some(stmt_v(s)),
        None => None,
    }
}

pub open spec fn opt_exprs_v(o: Option<Vec<ExpressionNode>>) -> Option<Seq<ExprV>> {
    match o {
        Some(v) => Some(exprs_v(v@)),
        None => None,
    }
}

pub open spec fn opt_asts_v(o: Option<Vec<ASTNode>>) -> Option<Seq<AstV>> {
    match o {
        Some(v) => Some(asts_v(v@)),
        None => None,
    }
}

pub open spec fn opt_strs_v(o: Option<Vec<String>>) -> Option<Seq<Seq<char>>> {
    match o {
        Some(v) => Some(strs_v(v@)),
        None => None,
    }
}

pub open spec fn stmt_v(s: StatementNode) -> StmtV
    decreases s,
{
    match s {
        StatementNode::Block(b) => StmtV::Block(asts_v(b@)),
        StatementNode::Goto(l) => StmtV::Goto(l@),
        StatementNode::DoBlock { body } => StmtV::DoBlock { body: asts_v(body@) },
        StatementNode::LocalAssignment { targets, values } => StmtV::LocalAssignment {
            targets: targets_v(targets@),
            values: exprs_v(values@),
        },
        StatementNode::Assignment { targets, values } => StmtV::Assignment {
            targets: exprs_v(targets@),
            values: exprs_v(values@),
        },
        StatementNode::Label(l) => StmtV::Label(l@),
        StatementNode::LocalFunctionDeclaration { name, parameters, body } =>
            StmtV::LocalFunctionDeclaration {
            name: name@,
            parameters: strs_v(parameters@),
            body: Box::new(ast_v(*body)),
        },
        StatementNode::FunctionDeclaration { name_path, is_method, parameters, body } =>
            StmtV::FunctionDeclaration {
            name_path: strs_v(name_path@),
            is_method,
            parameters: strs_v(parameters@),
            body: Box::new(ast_v(*body)),
        },
        StatementNode::If { condition, then_block, else_block } => StmtV::If {
            condition: expr_v(condition),
            then_block: asts_v(then_block@),
            else_block: asts_v(else_block@),
        },
        StatementNode::While { condition, body } => StmtV::While {
            condition: expr_v(condition),
            body: asts_v(body@),
        },
        StatementNode::Repeat { body, condition } => StmtV::Repeat {
            body: asts_v(body@),
            condition: expr_v(condition),
        },
        StatementNode::ForNumeric { variable, start, end, step, body } => StmtV::ForNumeric {
            variable: variable@,
            start: expr_v(start),
            end: expr_v(end),
            step: opt_expr_v(step),
            body: asts_v(body@),
        },
        StatementNode::ForGeneric { variables, expressions, body } => StmtV::ForGeneric {
            variables: strs_v(variables@),
            expressions: exprs_v(expressions@),
            body: asts_v(body@),
        },
        StatementNode::Return(v) => StmtV::Return(exprs_v(v@)),
        StatementNode::Break => StmtV::Break,
        StatementNode::ExpressionStatement(e) => StmtV::ExpressionStatement(expr_v(e)),
    }
}

pub open spec fn expr_v(e: ExpressionNode) -> ExprV
    decreases e,
{
    match e {
        ExpressionNode::Literal(l) => ExprV::Literal(lit_v(l)),
        ExpressionNode::Variable(n) => ExprV::Variable(n@),
        ExpressionNode::BinaryOp { left, operator, right } => ExprV::BinaryOp {
            left: Box::new(expr_v(*left)),
            operator,
            right: Box::new(expr_v(*right)),
        },
        ExpressionNode::UnaryOp { operator, operand } => ExprV::UnaryOp {
            operator,
            operand: Box::new(expr_v(*operand)),
        },
        ExpressionNode::FunctionCall { function, method, arguments } => ExprV::FunctionCall {
            function: Box::new(expr_v(*function)),
            method: opt_str_v(method),
            arguments: exprs_v(arguments@),
        },
        ExpressionNode::TableConstructor { entries } => ExprV::TableConstructor {
            entries: entries_v(entries@),
        },
        ExpressionNode::Index { table, index } => ExprV::Index {
            table: Box::new(expr_v(*table)),
            index: Box::new(expr_v(*index)),
        },
        ExpressionNode::AnonymousFunction { parameters, body } => ExprV::AnonymousFunction {
            parameters: strs_v(parameters@),
            body: Box::new(ast_v(*body)),
        },
        ExpressionNode::VarArg => ExprV::VarArg,
    }
}

} // verus!

verus! {

pub proof fn lemma_asts_v_push(s: Seq<ASTNode>, x: ASTNode)
    ensures
        asts_v(s.push(x)) == asts_v(s).push(ast_v(x)),
        asts_v(Seq::<ASTNode>::empty()) == Seq::<AstV>::empty(),
{
    assert(s.push(x).subrange(0, s.len() as int) =~= s);
}

pub proof fn lemma_exprs_v_push(s: Seq<ExpressionNode>, x: ExpressionNode)
    ensures
        exprs_v(s.push(x)) == exprs_v(s).push(expr_v(x)),
        exprs_v(Seq::<ExpressionNode>::empty()) == Seq::<ExprV>::empty(),
{
    assert(s.push(x).subrange(0, s.len() as int) =~= s);
}

pub proof fn lemma_targets_v_push(s: Seq<(ExpressionNode, Option<String>)>, x: (ExpressionNode, Option<String>))
    ensures
        targets_v(s.push(x)) == targets_v(s).push((expr_v(x.0), opt_str_v(x.1))),
        targets_v(Seq::<(ExpressionNode, Option<String>)>::empty()) == Seq::<(ExprV, Option<Seq<char>>)>::empty(),
{
    assert(s.push(x).subrange(0, s.len() as int) =~= s);
}

pub proof fn lemma_entries_v_push(s: Seq<(Option<ExpressionNode>, ExpressionNode)>, x: (Option<ExpressionNode>, ExpressionNode))
    ensures
        entries_v(s.push(x)) == entries_v(s).push((opt_expr_v(x.0), expr_v(x.1))),
        entries_v(Seq::<(Option<ExpressionNode>, ExpressionNode)>::empty()) == Seq::<(Option<ExprV>, ExprV)>::empty(),
{
    assert(s.push(x).subrange(0, s.len() as int) =~= s);
}

pub proof fn lemma_strs_v_push(s: Seq<String>, x: String)
    ensures
        strs_v(s.push(x)) == strs_v(s).push(x@),
        strs_v(Seq::<String>::empty()) == Seq::<Seq<char>>::empty(),
{
    assert(strs_v(s.push(x)) =~= strs_v(s).push(x@));
    assert(strs_v(Seq::<String>::empty()) =~= Seq::<Seq<char>>::empty());
}

} // verus!

verus! {

impl Numeral {
    /// A copy of this numeral.
    pub fn deep_copy(&self) -> (r: Numeral)
        ensures
            lit_v(LiteralNode::Number(r)) == lit_v(LiteralNode::Number(*self)),
    {
        match self {
            Numeral::Integer(v) => Numeral::Integer(*v),
            Numeral::Float(x) => Numeral::Float(x.clone()),
        }
    }
}

impl LiteralNode {
    /// A copy of this literal.
    pub fn deep_copy(&self) -> (r: LiteralNode)
        ensures
            lit_v(r) == lit_v(*self),
    {
        match self {
            LiteralNode::Number(n) => LiteralNode::Number(n.deep_copy()),
            LiteralNode::String(s) => LiteralNode::String(s.clone()),
            LiteralNode::Boolean(b) => LiteralNode::Boolean(*b),
            LiteralNode::Nil => LiteralNode::Nil,
        }
    }
}

/// A copy of a list of names.
fn copy_strings(v: &Vec<String>) -> (r: Vec<String>)
    ensures
        strs_v(r@) == strs_v(v@),
{
    let mut r: Vec<String> = Vec::new();
    let mut i: usize = 0;
    while i < v.len()
        invariant
            i <= v@.len(),
            r@.len() == i,
            forall|k: int| 0 <= k < i ==> r@[k]@ == v@[k]@,
        decreases v@.len() - i,
    {
        r.push(v[i].clone());
        i += 1;
    }
    assert(strs_v(r@) =~= strs_v(v@));
    r
}

impl ASTNode {
    /// A copy of this node.
    pub fn deep_copy(&self) -> (r: ASTNode)
        ensures
            ast_v(r) == ast_v(*self),
        decreases self, 0int,
    {
        match self {
            ASTNode::Statement(s) => ASTNode::Statement(s.deep_copy()),
            ASTNode::Expression(e) => ASTNode::Expression(e.deep_copy()),
        }
    }
}

/// A copy of a list of nodes.
fn copy_nodes(v: &Vec<ASTNode>) -> (r: Vec<ASTNode>)
    ensures
        asts_v(r@) == asts_v(v@),
    decreases v, 1int,
{
    let mut r: Vec<ASTNode> = Vec::new();
    let mut i: usize = 0;
    proof {
        lemma_asts_v_push(r@, ASTNode::Statement(StatementNode::Break));
        assert(v@.subrange(0, 0) =~= Seq::<ASTNode>::empty());
    }
    while i < v.len()
        invariant
            i <= v@.len(),
            asts_v(r@) == asts_v(v@.subrange(0, i as int)),
        decreases v@.len() - i,
    {
        assert(decreases_to!(v => v@[i as int]));
        let x = v[i].deep_copy();
        proof {
            lemma_asts_v_push(r@, x);
            lemma_asts_v_push(v@.subrange(0, i as int), v@[i as int]);
            assert(v@.subrange(0, i + 1) =~= v@.subrange(0, i as int).push(v@[i as int]));
        }
        r.push(x);
        i += 1;
    }
    assert(v@.subrange(0, v@.len() as int) =~= v@);
    r
}

/// A copy of a list of expressions.
fn copy_exprs(v: &Vec<ExpressionNode>) -> (r: Vec<ExpressionNode>)
    ensures
        exprs_v(r@) == exprs_v(v@),
    decreases v, 1int,
{
    let mut r: Vec<ExpressionNode> = Vec::new();
    let mut i: usize = 0;
    proof {
        lemma_exprs_v_push(r@, ExpressionNode::VarArg);
        assert(v@.subrange(0, 0) =~= Seq::<ExpressionNode>::empty());
    }
    while i < v.len()
        invariant
            i <= v@.len(),
            exprs_v(r@) == exprs_v(v@.subrange(0, i as int)),
        decreases v@.len() - i,
    {
        assert(decreases_to!(v => v@[i as int]));
        let x = v[i].deep_copy();
        proof {
            lemma_exprs_v_push(r@, x);
            lemma_exprs_v_push(v@.subrange(0, i as int), v@[i as int]);
            assert(v@.subrange(0, i + 1) =~= v@.subrange(0, i as int).push(v@[i as int]));
        }
        r.push(x);
        i += 1;
    }
    assert(v@.subrange(0, v@.len() as int) =~= v@);
    r
}

/// A copy of the targets of a local declaration.
fn copy_targets(v: &Vec<(ExpressionNode, Option<String>)>) -> (r: Vec<(ExpressionNode, Option<String>)>)
    ensures
        targets_v(r@) == targets_v(v@),
    decreases v, 1int,
{
    let mut r: Vec<(ExpressionNode, Option<String>)> = Vec::new();
    let mut i: usize = 0;
    proof {
        lemma_targets_v_push(r@, (ExpressionNode::VarArg, None));
        assert(v@.subrange(0, 0) =~= Seq::<(ExpressionNode, Option<String>)>::empty());
    }
    while i < v.len()
        invariant
            i <= v@.len(),
            targets_v(r@) == targets_v(v@.subrange(0, i as int)),
        decreases v@.len() - i,
    {
        assert(decreases_to!(v => v@[i as int]));
        assert(decreases_to!(v@[i as int] => v@[i as int].0));
        let e = v[i].0.deep_copy();
        let a = match &v[i].1 {
            Some(s) => Some(s.clone()),
            None => None,
        };
        let x = (e, a);
        proof {
            lemma_targets_v_push(r@, x);
            lemma_targets_v_push(v@.subrange(0, i as int), v@[i as int]);
            assert(v@.subrange(0, i + 1) =~= v@.subrange(0, i as int).push(v@[i as int]));
        }
        r.push(x);
        i += 1;
    }
    assert(v@.subrange(0, v@.len() as int) =~= v@);
    r
}

/// A copy of the entries of a table constructor.
fn copy_entries(v: &Vec<(Option<ExpressionNode>, ExpressionNode)>) -> (r: Vec<(Option<ExpressionNode>, ExpressionNode)>)
    ensures
        entries_v(r@) == entries_v(v@),
    decreases v, 1int,
{
    let mut r: Vec<(Option<ExpressionNode>, ExpressionNode)> = Vec::new();
    let mut i: usize = 0;
    proof {
        lemma_entries_v_push(r@, (None, ExpressionNode::VarArg));
        assert(v@.subrange(0, 0) =~= Seq::<(Option<ExpressionNode>, ExpressionNode)>::empty());
    }
    while i < v.len()
        invariant
            i <= v@.len(),
            entries_v(r@) == entries_v(v@.subrange(0, i as int)),
        decreases v@.len() - i,
    {
        assert(decreases_to!(v => v@[i as int]));
        assert(decreases_to!(v@[i as int] => v@[i as int].1));
        let k = match &v[i].0 {
            Some(key) => {
                assert(decreases_to!(v@[i as int] => v@[i as int].0));
                Some(key.deep_copy())
            },
            None => None,
        };
        let e = v[i].1.deep_copy();
        let x = (k, e);
        proof {
            lemma_entries_v_push(r@, x);
            lemma_entries_v_push(v@.subrange(0, i as int), v@[i as int]);
            assert(v@.subrange(0, i + 1) =~= v@.subrange(0, i as int).push(v@[i as int]));
        }
        r.push(x);
        i += 1;
    }
    assert(v@.subrange(0, v@.len() as int) =~= v@);
    r
}

impl StatementNode {
    /// A copy of this statement.
    pub fn deep_copy(&self) -> (r: StatementNode)
        ensures
            stmt_v(r) == stmt_v(*self),
        decreases self, 0int,
    {
        match self {
            StatementNode::Block(b) => StatementNode::Block(copy_nodes(b)),
            StatementNode::Goto(l) => StatementNode::Goto(l.clone()),
            StatementNode::DoBlock { body } => StatementNode::DoBlock { body: copy_nodes(body) },
            StatementNode::LocalAssignment { targets, values } => StatementNode::LocalAssignment {
                targets: copy_targets(targets),
                values: copy_exprs(values),
            },
            StatementNode::Assignment { targets, values } => StatementNode::Assignment {
                targets: copy_exprs(targets),
                values: copy_exprs(values),
            },
            StatementNode::Label(l) => StatementNode::Label(l.clone()),
            StatementNode::LocalFunctionDeclaration { name, parameters, body } =>
                StatementNode::LocalFunctionDeclaration {
                name: name.clone(),
                parameters: copy_strings(parameters),
                body: Box::new((**body).deep_copy()),
            },
            StatementNode::FunctionDeclaration { name_path, is_method, parameters, body } =>
                StatementNode::FunctionDeclaration {
                name_path: copy_strings(name_path),
                is_method: *is_method,
                parameters: copy_strings(parameters),
                body: Box::new((**body).deep_copy()),
            },
            StatementNode::If { condition, then_block, else_block } => StatementNode::If {
                condition: condition.deep_copy(),
                then_block: copy_nodes(then_block),
                else_block: copy_nodes(else_block),
            },
            StatementNode::While { condition, body } => StatementNode::While {
                condition: condition.deep_copy(),
                body: copy_nodes(body),
            },
            StatementNode::Repeat { body, condition } => StatementNode::Repeat {
                body: copy_nodes(body),
                condition: condition.deep_copy(),
            },
            StatementNode::ForNumeric { variable, start, end, step, body } => {
                let step_copy = match step {
                    Some(s) => Some(s.deep_copy()),
                    None => None,
                };
                StatementNode::ForNumeric {
                    variable: variable.clone(),
                    start: start.deep_copy(),
                    end: end.deep_copy(),
                    step: step_copy,
                    body: copy_nodes(body),
                }
            },
            StatementNode::ForGeneric { variables, expressions, body } => StatementNode::ForGeneric {
                variables: copy_strings(variables),
                expressions: copy_exprs(expressions),
                body: copy_nodes(body),
            },
            StatementNode::Return(v) => StatementNode::Return(copy_exprs(v)),
            StatementNode::Break => StatementNode::Break,
            StatementNode::ExpressionStatement(e) => StatementNode::ExpressionStatement(e.deep_copy()),
        }
    }
}

impl ExpressionNode {
    /// A copy of this expression.
    pub fn deep_copy(&self) -> (r: ExpressionNode)
        ensures
            expr_v(r) == expr_v(*self),
        decreases self, 0int,
    {
        match self {
            ExpressionNode::Literal(l) => ExpressionNode::Literal(l.deep_copy()),
            ExpressionNode::Variable(n) => ExpressionNode::Variable(n.clone()),
            ExpressionNode::BinaryOp { left, operator, right } => ExpressionNode::BinaryOp {
                left: Box::new((**left).deep_copy()),
                operator: operator.copied(),
                right: Box::new((**right).deep_copy()),
            },
            ExpressionNode::UnaryOp { operator, operand } => ExpressionNode::UnaryOp {
                operator: operator.copied(),
                operand: Box::new((**operand).deep_copy()),
            },
            ExpressionNode::FunctionCall { function, method, arguments } => {
                let m = match method {
                    Some(s) => Some(s.clone()),
                    None => None,
                };
                ExpressionNode::FunctionCall {
                    function: Box::new((**function).deep_copy()),
                    method: m,
                    arguments: copy_exprs(arguments),
                }
            },
            ExpressionNode::TableConstructor { entries } => ExpressionNode::TableConstructor {
                entries: copy_entries(entries),
            },
            ExpressionNode::Index { table, index } => ExpressionNode::Index {
                table: Box::new((**table).deep_copy()),
                index: Box::new((**index).deep_copy()),
            },
            ExpressionNode::AnonymousFunction { parameters, body } => ExpressionNode::AnonymousFunction {
                parameters: copy_strings(parameters),
                body: Box::new((**body).deep_copy()),
            },
            ExpressionNode::VarArg => ExpressionNode::VarArg,
        }
    }
}

impl Clone for ASTNode {
    fn clone(&self) -> (r: Self)
        ensures
            ast_v(r) == ast_v(*self),
    {
        self.deep_copy()
    }
}

impl Clone for StatementNode {
    fn clone(&self) -> (r: Self)
        ensures
            stmt_v(r) == stmt_v(*self),
    {
        self.deep_copy()
    }
}

impl Clone for ExpressionNode {
    fn clone(&self) -> (r: Self)
        ensures
            expr_v(r) == expr_v(*self),
    {
        self.deep_copy()
    }
}

impl Clone for LiteralNode {
    fn clone(&self) -> (r: Self)
        ensures
            lit_v(r) == lit_v(*self),
    {
        self.deep_copy()
    }
}

impl Clone for Numeral {
    fn clone(&self) -> (r: Self)
        ensures
            lit_v(LiteralNode::Number(r)) == lit_v(LiteralNode::Number(*self)),
    {
        self.deep_copy()
    }
}

} // verus!
