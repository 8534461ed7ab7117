use sollua::ast::{ASTNode, ExpressionNode, LiteralNode, Numeral, StatementNode};
use sollua::lexer::Lexer;
use sollua::lexer::Token;
use sollua::parser::Parser;

fn parse_source(source: &str) -> (Vec<ASTNode>, Vec<String>) {
    let mut lexer = Lexer::new(source);
    let tokens: Vec<_> = lexer.collect();
    let mut parser = Parser::new(source, &tokens);
    let ast = parser.parse().clone();
    (ast, parser.errors.clone())
}

fn var(name: &str) -> ExpressionNode {
    ExpressionNode::Variable(name.to_string())
}

fn num(v: i64) -> ExpressionNode {
    ExpressionNode::Literal(LiteralNode::Number(Numeral::Integer(v)))
}

fn string(s: &str) -> ExpressionNode {
    ExpressionNode::Literal(LiteralNode::String(s.to_string()))
}

fn bin(left: ExpressionNode, operator: Token, right: ExpressionNode) -> ExpressionNode {
    ExpressionNode::BinaryOp { left: Box::new(left), operator, right: Box::new(right) }
}

fn call(function: ExpressionNode, arguments: Vec<ExpressionNode>) -> ExpressionNode {
    ExpressionNode::FunctionCall { function: Box::new(function), method: None, arguments }
}

fn stmt(s: StatementNode) -> ASTNode {
    ASTNode::Statement(s)
}

fn assign(target: ExpressionNode, value: ExpressionNode) -> ASTNode {
    stmt(StatementNode::Assignment { targets: vec![target], values: vec![value] })
}

fn block(body: Vec<ASTNode>) -> Box<ASTNode> {
    Box::new(stmt(StatementNode::Block(body)))
}

fn parser_on<'a>(source: &'a str, tokens: &'a [Token]) -> Parser<'a> {
    Parser::new(source, tokens)
}

#[test]
fn test_if_statement() {
    let source = "if x > 0 then y = 1; else y = -1; end";
    let mut lexer = Lexer::new(source);
    let tokens: Vec<_> = lexer.collect();
    let mut parser = Parser::new(source, &tokens);
    let ast = parser.parse();

    println!("AST: \n{:#?}", ast);

    assert!(parser.errors.is_empty(), "Parser errors: {:?}", parser.errors);
}

#[test]
fn test_function_declaration() {
    let source = "function add(a, b) return a + b end local function sub(a, b) return a - b end";
    let mut lexer = Lexer::new(source);
    let tokens: Vec<_> = lexer.collect();
    let mut parser = Parser::new(source, &tokens);
    let ast = parser.parse();

    println!("AST: \n{:#?}", ast);

    assert!(parser.errors.is_empty(), "Parser errors: {:?}", parser.errors);
}

#[test]
fn test_local_assignment() {
    let source = "local x, y = 10, 20;";
    let mut lexer = Lexer::new(source);
    let tokens: Vec<_> = lexer.collect();
    let mut parser = Parser::new(source, &tokens);
    let ast = parser.parse().clone();

    println!("AST: \n{:#?}", ast);

    assert!(parser.errors.is_empty(), "Parser errors: {:?}", parser.errors);
    assert_eq!(ast.len(), 1, "Expected 1 AST node, found {}", ast.len());
}

#[test]
fn test_function_call() {
    let source = "print(\"Hello\", 42); foo(x + 1);";
    let mut lexer = Lexer::new(source);
    let tokens: Vec<_> = lexer.collect();
    let mut parser = Parser::new(source, &tokens);
    let ast = parser.parse().clone();

    println!("AST: \n{:#?}", ast);

    assert!(parser.errors.is_empty(), "Parser errors: {:?}", parser.errors);
    assert_eq!(ast.len(), 2);
}

#[test]
fn test_table_constructor() {
    let source = "local t = {1, 2, x = 3, [\"key\"] = 4};";
    let mut lexer = Lexer::new(source);
    let tokens: Vec<_> = lexer.collect();
    let mut parser = Parser::new(source, &tokens);
    let ast = parser.parse().clone();

    println!("AST: \n{:#?}", ast);

    assert!(parser.errors.is_empty(), "Parser errors: {:?}", parser.errors);
}

#[test]
fn test_indexing() {
    let source = "x = t.field; y = t[key]; z = t[1];";
    let mut lexer = Lexer::new(source);
    let tokens: Vec<_> = lexer.collect();
    let mut parser = Parser::new(source, &tokens);
    let ast = parser.parse().clone();

    println!("AST: \n{:#?}", ast);

    assert!(parser.errors.is_empty(), "Parser errors: {:?}", parser.errors);
    assert_eq!(ast.len(), 3);
}

#[test]
fn test_complex_expression() {
    let source = "local result = math.sqrt(a^2 + b^2);";
    let mut lexer = Lexer::new(source);
    let tokens: Vec<_> = lexer.collect();
    let mut parser = Parser::new(source, &tokens);
    let ast = parser.parse().clone();

    println!("AST: \n{:#?}", ast);

    assert!(parser.errors.is_empty(), "Parser errors: {:?}", parser.errors);
}

#[test]
fn readme_example_tree() {
    let (ast, errors) = parse_source("function add(a, b) return a + b end");
    assert!(errors.is_empty());
    let expected = vec![stmt(StatementNode::FunctionDeclaration {
        name_path: vec!["add".to_string()],
        is_method: false,
        parameters: vec!["a".to_string(), "b".to_string()],
        body: block(vec![stmt(StatementNode::Return(vec![bin(var("a"), Token::Plus, var("b"))]))]),
    })];
    assert_eq!(ast, expected);
}

#[test]
fn local_function_and_method_declarations() {
    let (ast, errors) = parse_source("local function f(...) end function a.b:c(x) return end");
    assert!(errors.is_empty(), "{:?}", errors);
    assert_eq!(
        ast,
        vec![
            stmt(StatementNode::LocalFunctionDeclaration {
                name: "f".to_string(),
                parameters: vec!["...".to_string()],
                body: block(vec![]),
            }),
            stmt(StatementNode::FunctionDeclaration {
                name_path: vec!["a".to_string(), "b".to_string(), "c".to_string()],
                is_method: true,
                parameters: vec!["self".to_string(), "x".to_string()],
                body: block(vec![stmt(StatementNode::Return(vec![]))]),
            }),
        ]
    );
}

#[test]
fn local_declaration_values_and_attributes() {
    let (ast, errors) = parse_source("local x <const>, y = 10, 20");
    assert!(errors.is_empty(), "{:?}", errors);
    assert_eq!(
        ast,
        vec![stmt(StatementNode::LocalAssignment {
            targets: vec![(var("x"), Some("const".to_string())), (var("y"), None)],
            values: vec![num(10), num(20)],
        })]
    );
    let (ast, errors) = parse_source("local z <close>");
    assert!(errors.is_empty());
    assert_eq!(
        ast,
        vec![stmt(StatementNode::LocalAssignment {
            targets: vec![(var("z"), Some("close".to_string()))],
            values: vec![],
        })]
    );
}

#[test]
fn multiplication_binds_tighter_than_addition() {
    let (ast, errors) = parse_source("x = 1 + 2 * 3");
    assert!(errors.is_empty());
    assert_eq!(ast, vec![assign(var("x"), bin(num(1), Token::Plus, bin(num(2), Token::Multiply, num(3))))]);
    let (ast, _) = parse_source("x = 1 * 2 + 3");
    assert_eq!(ast, vec![assign(var("x"), bin(bin(num(1), Token::Multiply, num(2)), Token::Plus, num(3)))]);
}

#[test]
fn subtraction_groups_to_the_left() {
    let (ast, _) = parse_source("x = a - b - c");
    assert_eq!(ast, vec![assign(var("x"), bin(bin(var("a"), Token::Minus, var("b")), Token::Minus, var("c")))]);
}

#[test]
fn power_and_concat_group_to_the_right() {
    let (ast, _) = parse_source("x = 2 ^ 3 ^ 2");
    assert_eq!(ast, vec![assign(var("x"), bin(num(2), Token::Power, bin(num(3), Token::Power, num(2))))]);
    let (ast, _) = parse_source("x = a .. b .. c");
    assert_eq!(ast, vec![assign(var("x"), bin(var("a"), Token::Concat, bin(var("b"), Token::Concat, var("c"))))]);
}

#[test]
fn comparison_and_logic_precedence() {
    let (ast, _) = parse_source("x = a or b and c == d");
    assert_eq!(
        ast,
        vec![assign(
            var("x"),
            bin(var("a"), Token::Or, bin(var("b"), Token::And, bin(var("c"), Token::Equal, var("d"))))
        )]
    );
}

#[test]
fn power_binds_tighter_than_unary_operators() {
    let (ast, _) = parse_source("x = -a ^ 2");
    let a_sq = bin(var("a"), Token::Power, num(2));
    let neg = ExpressionNode::UnaryOp { operator: Token::Minus, operand: Box::new(a_sq) };
    assert_eq!(ast, vec![assign(var("x"), neg)]);
    let (ast, _) = parse_source("x = -a * b");
    let neg_a = ExpressionNode::UnaryOp { operator: Token::Minus, operand: Box::new(var("a")) };
    assert_eq!(ast, vec![assign(var("x"), bin(neg_a, Token::Multiply, var("b")))]);
    let (ast, _) = parse_source("x = 2 ^ -3");
    let neg3 = ExpressionNode::UnaryOp { operator: Token::Minus, operand: Box::new(num(3)) };
    assert_eq!(ast, vec![assign(var("x"), bin(num(2), Token::Power, neg3))]);
    let (ast, _) = parse_source("x = not #t");
    let len_t = ExpressionNode::UnaryOp { operator: Token::Length, operand: Box::new(var("t")) };
    let not_len = ExpressionNode::UnaryOp { operator: Token::Not, operand: Box::new(len_t) };
    assert_eq!(ast, vec![assign(var("x"), not_len)]);
}

#[test]
fn literals_and_parentheses() {
    let (ast, errors) = parse_source("x = (1.5 + nil) .. true .. false .. ... .. 'q'");
    assert!(errors.is_empty(), "{:?}", errors);
    let float = ExpressionNode::Literal(LiteralNode::Number(Numeral::Float("1.5".to_string())));
    let nil = ExpressionNode::Literal(LiteralNode::Nil);
    let t = ExpressionNode::Literal(LiteralNode::Boolean(true));
    let f = ExpressionNode::Literal(LiteralNode::Boolean(false));
    let expected = bin(
        bin(float, Token::Plus, nil),
        Token::Concat,
        bin(t, Token::Concat, bin(f, Token::Concat, bin(ExpressionNode::VarArg, Token::Concat, string("q")))),
    );
    assert_eq!(ast, vec![assign(var("x"), expected)]);
}

#[test]
fn calls_methods_and_indexing() {
    let (ast, errors) = parse_source("obj:method(1) print \"hi\" f{2} g:h{} k:s'w' a.b[c](d)");
    assert!(errors.is_empty(), "{:?}", errors);
    let table2 = ExpressionNode::TableConstructor { entries: vec![(None, num(2))] };
    let empty = ExpressionNode::TableConstructor { entries: vec![] };
    let index_b = ExpressionNode::Index { table: Box::new(var("a")), index: Box::new(string("b")) };
    let index_c = ExpressionNode::Index { table: Box::new(index_b), index: Box::new(var("c")) };
    assert_eq!(
        ast,
        vec![
            stmt(StatementNode::ExpressionStatement(ExpressionNode::FunctionCall {
                function: Box::new(var("obj")),
                method: Some("method".to_string()),
                arguments: vec![num(1)],
            })),
            stmt(StatementNode::ExpressionStatement(call(var("print"), vec![string("hi")]))),
            stmt(StatementNode::ExpressionStatement(call(var("f"), vec![table2]))),
            stmt(StatementNode::ExpressionStatement(ExpressionNode::FunctionCall {
                function: Box::new(var("g")),
                method: Some("h".to_string()),
                arguments: vec![empty],
            })),
            stmt(StatementNode::ExpressionStatement(ExpressionNode::FunctionCall {
                function: Box::new(var("k")),
                method: Some("s".to_string()),
                arguments: vec![string("w")],
            })),
            stmt(StatementNode::ExpressionStatement(call(index_c, vec![var("d")]))),
        ]
    );
}

#[test]
fn table_constructor_entries() {
    let (ast, errors) = parse_source("t = {1; x = 2, [3] = 4, y,}");
    assert!(errors.is_empty(), "{:?}", errors);
    let table = ExpressionNode::TableConstructor {
        entries: vec![(None, num(1)), (Some(var("x")), num(2)), (Some(num(3)), num(4)), (None, var("y"))],
    };
    assert_eq!(ast, vec![assign(var("t"), table)]);
}

#[test]
fn anonymous_function_expression() {
    let (ast, errors) = parse_source("local f = function(x, ...) return x end");
    assert!(errors.is_empty(), "{:?}", errors);
    let func = ExpressionNode::AnonymousFunction {
        parameters: vec!["x".to_string(), "...".to_string()],
        body: block(vec![stmt(StatementNode::Return(vec![var("x")]))]),
    };
    assert_eq!(ast, vec![stmt(StatementNode::LocalAssignment { targets: vec![(var("f"), None)], values: vec![func] })]);
}

#[test]
fn multiple_assignment_targets() {
    let (ast, errors) = parse_source("a, b.c, (d)[1] = 1, 2, 3");
    assert!(errors.is_empty(), "{:?}", errors);
    let b_c = ExpressionNode::Index { table: Box::new(var("b")), index: Box::new(string("c")) };
    let d_1 = ExpressionNode::Index { table: Box::new(var("d")), index: Box::new(num(1)) };
    assert_eq!(
        ast,
        vec![stmt(StatementNode::Assignment { targets: vec![var("a"), b_c, d_1], values: vec![num(1), num(2), num(3)] })]
    );
}

#[test]
fn if_with_elseif_chain() {
    let (ast, errors) = parse_source("if a then b() elseif c then d() end");
    assert!(errors.is_empty(), "{:?}", errors);
    let elseif = stmt(StatementNode::If {
        condition: var("c"),
        then_block: vec![stmt(StatementNode::ExpressionStatement(call(var("d"), vec![])))],
        else_block: vec![],
    });
    assert_eq!(
        ast,
        vec![stmt(StatementNode::If {
            condition: var("a"),
            then_block: vec![stmt(StatementNode::ExpressionStatement(call(var("b"), vec![])))],
            else_block: vec![elseif],
        })]
    );
}

#[test]
fn final_else_belongs_to_last_elseif() {
    let (ast, errors) = parse_source("if a then x = 1 elseif b then x = 2 else x = 3 end");
    assert!(errors.is_empty(), "{:?}", errors);
    let inner = stmt(StatementNode::If {
        condition: var("b"),
        then_block: vec![assign(var("x"), num(2))],
        else_block: vec![assign(var("x"), num(3))],
    });
    assert_eq!(
        ast,
        vec![stmt(StatementNode::If {
            condition: var("a"),
            then_block: vec![assign(var("x"), num(1))],
            else_block: vec![inner],
        })]
    );
}

#[test]
fn nested_statements_stay_in_their_block() {
    let (ast, errors) = parse_source("if a then if b then c() end ::l:: goto l end");
    assert!(errors.is_empty(), "{:?}", errors);
    let inner = stmt(StatementNode::If {
        condition: var("b"),
        then_block: vec![stmt(StatementNode::ExpressionStatement(call(var("c"), vec![])))],
        else_block: vec![],
    });
    let outer = stmt(StatementNode::If {
        condition: var("a"),
        then_block: vec![inner, stmt(StatementNode::Label("l".to_string())), stmt(StatementNode::Goto("l".to_string()))],
        else_block: vec![],
    });
    assert_eq!(ast, vec![outer]);
}

#[test]
fn if_inside_function_body() {
    let (ast, errors) = parse_source("function f() if x then return 1 end end");
    assert!(errors.is_empty(), "{:?}", errors);
    let iff = stmt(StatementNode::If {
        condition: var("x"),
        then_block: vec![stmt(StatementNode::Return(vec![num(1)]))],
        else_block: vec![],
    });
    assert_eq!(
        ast,
        vec![stmt(StatementNode::FunctionDeclaration {
            name_path: vec!["f".to_string()],
            is_method: false,
            parameters: vec![],
            body: block(vec![iff]),
        })]
    );
}

#[test]
fn block_until_keeps_nested_if() {
    let source = "if b then x = 1 end y = 2 end";
    let mut lexer = Lexer::new(source);
    let tokens = lexer.collect();
    let mut parser = Parser::new(source, &tokens);
    assert_eq!(parser.parse_do_block(), Some(StatementNode::DoBlock {
        body: vec![
            stmt(StatementNode::If { condition: var("b"), then_block: vec![assign(var("x"), num(1))], else_block: vec![] }),
            assign(var("y"), num(2)),
        ],
    }));
    assert!(parser.ast.is_empty());
    assert_eq!(parser.next(), Some(&Token::Eof));
}

#[test]
fn function_body_without_end_is_reported() {
    let (ast, errors) = parse_source("function f() x = 1");
    assert!(ast.is_empty());
    assert_eq!(errors, vec!["Expected 'end' to close function body"]);
    let (_, errors) = parse_source("y = function() return 1");
    assert_eq!(errors, vec!["Expected 'end' to close function body"]);
}

#[test]
fn return_without_values_before_block_end() {
    let (ast, errors) = parse_source("if a then return else return end return");
    assert!(errors.is_empty(), "{:?}", errors);
    assert_eq!(
        ast,
        vec![
            stmt(StatementNode::If {
                condition: var("a"),
                then_block: vec![stmt(StatementNode::Return(vec![]))],
                else_block: vec![stmt(StatementNode::Return(vec![]))],
            }),
            stmt(StatementNode::Return(vec![])),
        ]
    );
}

#[test]
fn parse_stops_after_eof_token() {
    let tokens = vec![
        Token::Identifier("x".to_string()),
        Token::Assign,
        Token::Integer(1),
        Token::Eof,
        Token::Identifier("y".to_string()),
        Token::Assign,
        Token::Integer(2),
    ];
    let mut parser = parser_on("", &tokens);
    let ast = parser.parse().clone();
    assert_eq!(ast, vec![assign(var("x"), num(1))]);
    assert_eq!(parser.next(), Some(&Token::Identifier("y".to_string())));
}

#[test]
fn parsing_again_keeps_what_was_recorded() {
    let source = "local 1 x = 2";
    let mut lexer = Lexer::new(source);
    let tokens = lexer.collect();
    let mut parser = Parser::new(source, &tokens);
    let first = parser.parse().clone();
    let errors = parser.errors.clone();
    assert_eq!(errors, vec!["Expected identifier in local declaration".to_string()]);
    let second = parser.parse().clone();
    assert_eq!(first, second);
    assert_eq!(parser.errors, errors);
}

#[test]
fn empty_input_gives_nothing() {
    let (ast, errors) = parse_source("");
    assert!(ast.is_empty());
    assert!(errors.is_empty());
    let tokens: Vec<Token> = vec![];
    let mut parser = parser_on("", &tokens);
    assert!(parser.parse().is_empty());
    assert_eq!(parser.next(), None);
}

#[test]
fn loops_and_jumps_at_top_level() {
    let (ast, errors) = parse_source("while x do y = 1 end");
    assert!(errors.is_empty(), "{:?}", errors);
    assert_eq!(
        ast,
        vec![stmt(StatementNode::While { condition: var("x"), body: vec![assign(var("y"), num(1))] })]
    );
    let (ast, errors) =
        parse_source("for i = 1, 2 do break end repeat f() until g do end ::top:: goto top");
    assert!(errors.is_empty(), "{:?}", errors);
    assert_eq!(
        ast,
        vec![
            stmt(StatementNode::ForNumeric {
                variable: "i".to_string(),
                start: num(1),
                end: num(2),
                step: None,
                body: vec![stmt(StatementNode::Break)],
            }),
            stmt(StatementNode::Repeat {
                body: vec![stmt(StatementNode::ExpressionStatement(call(var("f"), vec![])))],
                condition: var("g"),
            }),
            stmt(StatementNode::DoBlock { body: vec![] }),
            stmt(StatementNode::Label("top".to_string())),
            stmt(StatementNode::Goto("top".to_string())),
        ]
    );
    let (ast, errors) = parse_source("; x = 1 ;;");
    assert!(errors.is_empty());
    assert_eq!(ast, vec![assign(var("x"), num(1))]);
}

#[test]
fn cloned_tree_is_equal() {
    let (ast, _) = parse_source("function f(a) local t = {a, [1] = -a} return t[1](a):m'x' end");
    let copy = ast.clone();
    assert_eq!(copy, ast);
    assert_eq!(ast[0].clone(), ast[0]);
}

fn errors_of(source: &str) -> Vec<String> {
    parse_source(source).1
}

/// The errors of `source` start with `expected`; the tokens left after the
/// failed statement may each add a stray-token error.
fn assert_reports(source: &str, expected: &[&str]) {
    let errors = errors_of(source);
    assert!(errors.len() >= expected.len(), "{}: {:?}", source, errors);
    assert_eq!(&errors[..expected.len()], expected, "{}", source);
    assert!(
        errors[expected.len()..].iter().all(|e| e == "Unexpected token at start of statement"),
        "{}: {:?}",
        source,
        errors
    );
}

#[test]
fn statement_errors() {
    assert_reports("local 1", &["Expected identifier in local declaration"]);
    assert_reports("x, = 1", &["Expected expression"]);
    assert_reports("x, y 1", &["Expected '=' in assignment"]);
    assert_reports("function (a) end", &["Expected function name after 'function' keyword"]);
    assert_reports("function f a", &["Expected '(' after function name"]);
    assert_reports("local function f a", &["Expected '(' after function name"]);
    assert_reports("function f(a b) end", &["Expected ')' after parameter list"]);
    assert_reports("function f(1) end", &["Unexpected token in parameter list"]);
    assert_reports("function a.(x) end", &["Expected identifier after '.'"]);
    assert_reports("function a:(x) end", &["Expected identifier after ':'"]);
}

#[test]
fn expression_errors() {
    assert_reports("x = (1", &["Expected ')'"]);
    assert_reports("x = t[1", &["Expected ']'"]);
    assert_reports("x = {1 2}", &["Expected ',' or '}' in table constructor"]);
    assert_reports("x = {[1] 2}", &["Expected '=' after table key"]);
    assert_reports("x = {[1 = 2}", &["Expected ']'"]);
    assert_reports("x = f(1", &["Expected ')' after arguments"]);
    assert_reports("x = a:b", &["Expected arguments after method name"]);
    assert_reports("x = a:1", &["Expected method name after ':'"]);
    assert_reports("x = a.(", &["Expected identifier after '.'"]);
    assert_reports("x = function y", &["Expected '(' after 'function' keyword"]);
    assert_reports("x = function(a b", &["Expected ')' after parameter list"]);
    assert_reports("x = )", &["Unexpected token in expression"]);
}

#[test]
fn if_errors() {
    assert_reports("if then", &["Unexpected token in expression", "Expected expression after 'if'"]);
    assert_reports("if x y", &["Expected 'then' after condition"]);
    assert_reports("if a then b() elseif then", &["Unexpected token in expression", "Expected expression after 'elseif'"]);
    assert_reports("if a then b() elseif c d", &["Expected 'then' after 'elseif' condition"]);
    assert_reports("if a then b()", &["Expected 'end' to close 'if' statement"]);
    assert_reports("if a then goto 1 end", &["Expected label name after 'goto' keyword"]);
}

fn statement_after_keyword(source: &str, parse: fn(&mut Parser) -> Option<StatementNode>) -> (Option<StatementNode>, Vec<String>) {
    let mut lexer = Lexer::new(source);
    let tokens = lexer.collect();
    let mut parser = Parser::new(source, &tokens);
    let s = parse(&mut parser);
    (s, parser.errors.clone())
}

#[test]
fn do_block_statement() {
    let (s, errors) = statement_after_keyword("x = 1 end", |p| p.parse_do_block());
    assert!(errors.is_empty());
    assert_eq!(s, Some(StatementNode::DoBlock { body: vec![assign(var("x"), num(1))] }));
    let (s, errors) = statement_after_keyword("x = 1", |p| p.parse_do_block());
    assert_eq!(s, None);
    assert_eq!(errors, vec!["Expected 'end' to close 'do' block"]);
}

#[test]
fn repeat_statement() {
    let (s, errors) = statement_after_keyword("f() until x", |p| p.parse_repeat_statement());
    assert!(errors.is_empty());
    assert_eq!(
        s,
        Some(StatementNode::Repeat {
            body: vec![stmt(StatementNode::ExpressionStatement(call(var("f"), vec![])))],
            condition: var("x"),
        })
    );
    let (s, errors) = statement_after_keyword("f()", |p| p.parse_repeat_statement());
    assert_eq!(s, None);
    assert_eq!(errors, vec!["Expected 'until' to close 'repeat' statement"]);
    let (s, errors) = statement_after_keyword("until )", |p| p.parse_repeat_statement());
    assert_eq!(s, None);
    assert_eq!(errors, vec!["Unexpected token in expression", "Expected expression after 'until'"]);
}

#[test]
fn while_statement() {
    let (s, errors) = statement_after_keyword("x < 3 do x = x + 1 end", |p| p.parse_while_statement());
    assert!(errors.is_empty());
    assert_eq!(
        s,
        Some(StatementNode::While {
            condition: bin(var("x"), Token::LessThan, num(3)),
            body: vec![assign(var("x"), bin(var("x"), Token::Plus, num(1)))],
        })
    );
    let (_, errors) = statement_after_keyword("x x = 1 end", |p| p.parse_while_statement());
    assert_eq!(errors, vec!["Expected 'do' after condition"]);
    let (_, errors) = statement_after_keyword("x do", |p| p.parse_while_statement());
    assert_eq!(errors, vec!["Expected 'end' to close 'while' statement"]);
    let (_, errors) = statement_after_keyword("do", |p| p.parse_while_statement());
    assert_eq!(errors, vec!["Unexpected token in expression", "Expected expression after 'while'"]);
}

#[test]
fn numeric_for_statement() {
    let (s, errors) = statement_after_keyword("i = 1, 10, 2 do f(i) end", |p| p.parse_for_statement());
    assert!(errors.is_empty(), "{:?}", errors);
    assert_eq!(
        s,
        Some(StatementNode::ForNumeric {
            variable: "i".to_string(),
            start: num(1),
            end: num(10),
            step: Some(num(2)),
            body: vec![stmt(StatementNode::ExpressionStatement(call(var("f"), vec![var("i")])))],
        })
    );
    let (s, _) = statement_after_keyword("i = 1, n do end", |p| p.parse_for_statement());
    assert_eq!(
        s,
        Some(StatementNode::ForNumeric { variable: "i".to_string(), start: num(1), end: var("n"), step: None, body: vec![] })
    );
    let (_, errors) = statement_after_keyword("1 = 2", |p| p.parse_for_statement());
    assert_eq!(errors, vec!["Expected variable name in 'for' statement"]);
    let (_, errors) = statement_after_keyword("i = do", |p| p.parse_for_statement());
    assert_eq!(errors, vec!["Unexpected token in expression", "Expected start expression in 'for' statement"]);
    let (_, errors) = statement_after_keyword("i = 1 do", |p| p.parse_for_statement());
    assert_eq!(errors, vec!["Expected ',' after start expression in 'for' statement"]);
    let (_, errors) = statement_after_keyword("i = 1, do", |p| p.parse_for_statement());
    assert_eq!(errors, vec!["Unexpected token in expression", "Expected end expression in 'for' statement"]);
    let (_, errors) = statement_after_keyword("i = 1, 2, do", |p| p.parse_for_statement());
    assert_eq!(errors, vec!["Unexpected token in expression", "Expected step expression in 'for' statement"]);
    let (_, errors) = statement_after_keyword("i = 1, 2 x", |p| p.parse_for_statement());
    assert_eq!(errors, vec!["Expected 'do' in 'for' statement"]);
    let (_, errors) = statement_after_keyword("i = 1, 2 do", |p| p.parse_for_statement());
    assert_eq!(errors, vec!["Expected 'end' to close 'for' statement"]);
}

#[test]
fn generic_for_statement() {
    let (s, errors) = statement_after_keyword("k, v in pairs(t) do end", |p| p.parse_for_statement());
    assert!(errors.is_empty(), "{:?}", errors);
    assert_eq!(
        s,
        Some(StatementNode::ForGeneric {
            variables: vec!["k".to_string(), "v".to_string()],
            expressions: vec![call(var("pairs"), vec![var("t")])],
            body: vec![],
        })
    );
    let (_, errors) = statement_after_keyword("k, 1 in t do end", |p| p.parse_for_statement());
    assert_eq!(errors, vec!["Expected variable name after ','"]);
    let (_, errors) = statement_after_keyword("k t do end", |p| p.parse_for_statement());
    assert_eq!(errors, vec!["Expected 'in' in generic 'for' loop"]);
    let (_, errors) = statement_after_keyword("k in t end", |p| p.parse_for_statement());
    assert_eq!(errors, vec!["Expected 'do' in 'for' statement"]);
}

#[test]
fn label_and_goto_statements() {
    let source = "; goto done; x";
    let mut lexer = Lexer::new(source);
    let tokens = lexer.collect();
    let mut parser = Parser::new(source, &tokens);
    assert_eq!(parser.parse_label_statement("top".to_string()), StatementNode::Label("top".to_string()));
    assert_eq!(parser.next(), Some(&Token::Goto));
    assert_eq!(parser.parse_goto_statement(), Some(StatementNode::Goto("done".to_string())));
    assert_eq!(parser.next(), Some(&Token::Identifier("x".to_string())));
}

#[test]
fn return_statement_values() {
    let source = "1, f(x);";
    let mut lexer = Lexer::new(source);
    let tokens = lexer.collect();
    let mut parser = Parser::new(source, &tokens);
    assert_eq!(
        parser.parse_return_statement(),
        Some(StatementNode::Return(vec![num(1), call(var("f"), vec![var("x")])]))
    );
    assert_eq!(parser.next(), Some(&Token::Eof));
}

#[test]
fn function_decl_called_directly() {
    let source = "f(a) return a end";
    let mut lexer = Lexer::new(source);
    let tokens = lexer.collect();
    let mut parser = Parser::new(source, &tokens);
    assert_eq!(
        parser.parse_function_decl(true),
        Some(StatementNode::LocalFunctionDeclaration {
            name: "f".to_string(),
            parameters: vec!["a".to_string()],
            body: block(vec![stmt(StatementNode::Return(vec![var("a")]))]),
        })
    );
}

#[test]
fn if_statement_called_directly() {
    let source = "x then y() end";
    let mut lexer = Lexer::new(source);
    let tokens = lexer.collect();
    let mut parser = Parser::new(source, &tokens);
    parser.parse_if_statement();
    assert!(parser.errors.is_empty());
    assert_eq!(
        parser.ast,
        vec![stmt(StatementNode::If {
            condition: var("x"),
            then_block: vec![stmt(StatementNode::ExpressionStatement(call(var("y"), vec![])))],
            else_block: vec![],
        })]
    );
}

#[test]
fn stray_tokens_are_reported() {
    let (ast, errors) = parse_source("end x = 1 )");
    assert_eq!(ast, vec![assign(var("x"), num(1))]);
    assert_eq!(errors, vec!["Unexpected token at start of statement", "Unexpected token at start of statement"]);
    let (_, errors) = parse_source("while a do until end");
    assert_eq!(errors, vec!["Unexpected token at start of statement"]);
}

#[test]
fn bitwise_operators_follow_lua_precedence() {
    let (ast, errors) = parse_source("x = a | b ~ c & d << e .. f");
    assert!(errors.is_empty(), "{:?}", errors);
    let shift = bin(var("d"), Token::ShiftLeft, bin(var("e"), Token::Concat, var("f")));
    let and = bin(var("c"), Token::BitAnd, shift);
    let xor = bin(var("b"), Token::BitXor, and);
    assert_eq!(ast, vec![assign(var("x"), bin(var("a"), Token::BitOr, xor))]);
    let (ast, _) = parse_source("x = a == b | c");
    assert_eq!(ast, vec![assign(var("x"), bin(var("a"), Token::Equal, bin(var("b"), Token::BitOr, var("c"))))]);
    let (ast, _) = parse_source("x = a >> b >> c");
    assert_eq!(ast, vec![assign(var("x"), bin(bin(var("a"), Token::ShiftRight, var("b")), Token::ShiftRight, var("c")))]);
    let (ast, _) = parse_source("x = ~a ^ 2 & b");
    let pow = bin(var("a"), Token::Power, num(2));
    let not = ExpressionNode::UnaryOp { operator: Token::BitXor, operand: Box::new(pow) };
    assert_eq!(ast, vec![assign(var("x"), bin(not, Token::BitAnd, var("b")))]);
}

#[test]
fn failed_function_declaration_adds_its_own_error_last() {
    let source = "(a) end";
    let mut lexer = Lexer::new(source);
    let tokens = lexer.collect();
    let mut parser = Parser::new(source, &tokens);
    assert_eq!(parser.parse_function_decl(false), None);
    assert_eq!(parser.errors, vec!["Expected function name after 'function' keyword"]);
    assert!(parser.ast.is_empty());
    let source = "f() x = )";
    let mut lexer = Lexer::new(source);
    let tokens = lexer.collect();
    let mut parser = Parser::new(source, &tokens);
    assert_eq!(parser.parse_function_decl(false), None);
    assert_eq!(
        parser.errors,
        vec!["Unexpected token in expression", "Expected 'end' to close function body"]
    );
}
