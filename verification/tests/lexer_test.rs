use sollua::lexer::Lexer;
use sollua::lexer::Token;
use sollua::lexer::helpers::{parse_long_string, unescape};

fn lex(source: &str) -> Vec<Token> {
    let mut lexer = Lexer::new(source);
    lexer.collect()
}

fn has_number(tokens: &[Token], value: f64) -> bool {
    tokens.iter().any(|t| match t {
        Token::Number(text) => text.parse::<f64>() == Ok(value),
        _ => false,
    })
}

#[test]
fn test_expression() {
    let source = "local x = -1; local y = 1 - var;";
    let mut lexer = Lexer::new(source);

    let tokens: Vec<_> = lexer.collect();

    println!("{:?}", tokens);
}

#[test]
fn test_attribute() {
    let source = "local <const> x = 42;";
    let mut lexer = Lexer::new(source);

    let tokens: Vec<_> = lexer.collect();

    println!("{:?}", tokens);

    assert_eq!(tokens.contains(&Token::Attribute("const".to_string())), true);
    assert_eq!(tokens.contains(&Token::Local), true);
    assert_eq!(tokens.contains(&Token::Identifier("x".to_string())), true);
    assert_eq!(tokens.contains(&Token::Assign), true);
    assert_eq!(tokens.contains(&Token::Integer(42)), true);
    assert_eq!(tokens.contains(&Token::Semicolon), true);
}

#[test]
fn test_keywords() {
    let source = "and break do else elseif end false for function goto if in local nil not or repeat return then true until while";
    let mut lexer = Lexer::new(source);

    let tokens: Vec<_> = lexer.collect();

    assert_eq!(tokens.contains(&Token::If), true);
    assert_eq!(tokens.contains(&Token::ElseIf), true);
    assert_eq!(tokens.contains(&Token::End), true);
    assert_eq!(tokens.contains(&Token::False), true);
    assert_eq!(tokens.contains(&Token::For), true);
    assert_eq!(tokens.contains(&Token::Function), true);
    assert_eq!(tokens.contains(&Token::Goto), true);
    assert_eq!(tokens.contains(&Token::In), true);
    assert_eq!(tokens.contains(&Token::Local), true);
    assert_eq!(tokens.contains(&Token::Nil), true);
    assert_eq!(tokens.contains(&Token::Not), true);
    assert_eq!(tokens.contains(&Token::Or), true);
    assert_eq!(tokens.contains(&Token::Repeat), true);
    assert_eq!(tokens.contains(&Token::Return), true);
    assert_eq!(tokens.contains(&Token::Then), true);
    assert_eq!(tokens.contains(&Token::True), true);
    assert_eq!(tokens.contains(&Token::Until), true);
    assert_eq!(tokens.contains(&Token::While), true);
}

#[test]
fn test_operators() {
    let source = ": ; + - * / % ^ # == ~= <= >= << >> < > = ( ) { } [ ] ; : , . .. ...";
    let mut lexer = Lexer::new(source);

    let tokens: Vec<_> = lexer.collect();

    assert_eq!(tokens.contains(&Token::Plus), true);
    assert_eq!(tokens.contains(&Token::Semicolon), true);
    assert_eq!(tokens.contains(&Token::Colon), true);
    assert_eq!(tokens.contains(&Token::Comma), true);
    assert_eq!(tokens.contains(&Token::Dot), true);
    assert_eq!(tokens.contains(&Token::ShiftLeft), true);
    assert_eq!(tokens.contains(&Token::ShiftRight), true);
    assert_eq!(tokens.contains(&Token::Minus), true);
    assert_eq!(tokens.contains(&Token::Multiply), true);
    assert_eq!(tokens.contains(&Token::Divide), true);
    assert_eq!(tokens.contains(&Token::Modulus), true);
    assert_eq!(tokens.contains(&Token::Power), true);
    assert_eq!(tokens.contains(&Token::Length), true);
    assert_eq!(tokens.contains(&Token::Equal), true);
    assert_eq!(tokens.contains(&Token::NotEqual), true);
    assert_eq!(tokens.contains(&Token::LessEqual), true);
    assert_eq!(tokens.contains(&Token::GreaterEqual), true);
    assert_eq!(tokens.contains(&Token::LessThan), true);
    assert_eq!(tokens.contains(&Token::GreaterThan), true);
    assert_eq!(tokens.contains(&Token::Assign), true);
    assert_eq!(tokens.contains(&Token::LeftParen), true);
    assert_eq!(tokens.contains(&Token::RightParen), true);
    assert_eq!(tokens.contains(&Token::LeftBrace), true);
    assert_eq!(tokens.contains(&Token::RightBrace), true);
    assert_eq!(tokens.contains(&Token::LeftBracket), true);
    assert_eq!(tokens.contains(&Token::RightBracket), true);
    assert_eq!(tokens.contains(&Token::Semicolon), true);
    assert_eq!(tokens.contains(&Token::Colon), true);
    assert_eq!(tokens.contains(&Token::Comma), true);
    assert_eq!(tokens.contains(&Token::Dot), true);
    assert_eq!(tokens.contains(&Token::Concat), true);
    assert_eq!(tokens.contains(&Token::VarArgs), true);
}

#[test]
fn test_identifiers() {
    let source = "Foo Bar _Foo _Bar _123 abc123";
    let mut lexer = Lexer::new(source);

    let tokens: Vec<_> = lexer.collect();

    assert_eq!(tokens.contains(&Token::Identifier("Foo".to_string())), true);
    assert_eq!(tokens.contains(&Token::Identifier("Bar".to_string())), true);
    assert_eq!(tokens.contains(&Token::Identifier("_Foo".to_string())), true);
    assert_eq!(tokens.contains(&Token::Identifier("_Bar".to_string())), true);
    assert_eq!(tokens.contains(&Token::Identifier("_123".to_string())), true);
    assert_eq!(tokens.contains(&Token::Identifier("abc123".to_string())), true);
}

#[test]
fn test_numbers() {
    let source = "123 0x1A3F -456 0xFF -0x10 3.14 -0.001 1e10 -2.5e-3 0XABC";
    let mut lexer = Lexer::new(source);

    let tokens: Vec<_> = lexer.collect();

    assert_eq!(tokens.contains(&Token::Integer(123)), true);
    assert_eq!(tokens.contains(&Token::Integer(0x1A3F)), true);
    assert_eq!(tokens.contains(&Token::Integer(456)), true);
    assert_eq!(tokens.contains(&Token::Integer(0xFF)), true);
    assert_eq!(tokens.contains(&Token::Integer(0x10)), true);
    assert_eq!(has_number(&tokens, 3.14), true);
    assert_eq!(has_number(&tokens, 0.001), true);
    assert_eq!(has_number(&tokens, 1e10), true);
}

#[test]
fn test_string_literals() {
    let source = r#""Hello, World!" 'Single quoted string' "String with escape \n characters" [[long]] "#;
    let mut lexer = Lexer::new(source);

    let tokens: Vec<_> = lexer.collect();

    assert_eq!(tokens.contains(&Token::StringLiteral("Hello, World!".to_string())), true);
    assert_eq!(
        tokens.contains(&Token::StringLiteral("Single quoted string".to_string())),
        true
    );
    assert_eq!(
        tokens.contains(&Token::StringLiteral("String with escape \n characters".to_string())),
        true
    );
    assert_eq!(tokens.contains(&Token::StringLiteral("long".to_string())), true);
}

#[test]
fn test_comments() {
    let source = r#"
-- This is a line comment
--[[
This is a block comment
that spans multiple lines
]]
"#;
    let mut lexer = Lexer::new(source);
    let tokens: Vec<_> = lexer.collect();

    assert_eq!(tokens[0], Token::Eof);
}

#[test]
fn test_labels() {
    let source = "::start:: local x = 10; ::end::";
    let mut lexer = Lexer::new(source);
    let tokens: Vec<_> = lexer.collect();

    assert_eq!(tokens.contains(&Token::Label("start".to_string())), true);
    assert_eq!(tokens.contains(&Token::Label("end".to_string())), true);
}

#[test]
fn lexes_whole_statement_in_order() {
    let tokens = lex("local x = -1;");
    assert_eq!(
        tokens,
        vec![
            Token::Local,
            Token::Identifier("x".to_string()),
            Token::Assign,
            Token::Minus,
            Token::Integer(1),
            Token::Semicolon,
            Token::Eof,
        ]
    );
}

#[test]
fn empty_source_gives_only_eof() {
    assert_eq!(lex(""), vec![Token::Eof]);
    assert_eq!(lex("   \t\n  "), vec![Token::Eof]);
}

#[test]
fn second_collect_gives_only_eof() {
    let mut lexer = Lexer::new("local x = 1");
    let first = lexer.collect();
    assert_eq!(first.len(), 5);
    let second = lexer.collect();
    assert_eq!(second, vec![Token::Eof]);
}

#[test]
fn comments_never_reach_the_token_stream() {
    let tokens = lex("x -- trailing\n--[[ block\n over lines ]] y --[==[ to the end of the line\nz");
    assert_eq!(
        tokens,
        vec![
            Token::Identifier("x".to_string()),
            Token::Identifier("y".to_string()),
            Token::Identifier("z".to_string()),
            Token::Eof,
        ]
    );
    assert!(!tokens.iter().any(|t| matches!(t, Token::LineComment | Token::BlockComment)));
}

#[test]
fn longest_match_prefers_longer_symbols_and_keywords() {
    assert_eq!(lex("..."), vec![Token::VarArgs, Token::Eof]);
    assert_eq!(lex(".."), vec![Token::Concat, Token::Eof]);
    assert_eq!(lex("//"), vec![Token::FloorDivide, Token::Eof]);
    assert_eq!(lex("::"), vec![Token::LabelDelim, Token::Eof]);
    assert_eq!(lex("ifx"), vec![Token::Identifier("ifx".to_string()), Token::Eof]);
    assert_eq!(lex("if"), vec![Token::If, Token::Eof]);
}

#[test]
fn numbers_with_separators_and_exponents() {
    assert_eq!(lex("1_000"), vec![Token::Integer(1000), Token::Eof]);
    assert_eq!(lex("1.5e3"), vec![Token::Number("1.5e3".to_string()), Token::Eof]);
    assert_eq!(lex("0x10"), vec![Token::Integer(16), Token::Eof]);
    assert_eq!(lex("9223372036854775807"), vec![Token::Integer(i64::MAX), Token::Eof]);
}

#[test]
fn integer_too_large_is_dropped() {
    assert_eq!(lex("9223372036854775808"), vec![Token::Eof]);
    assert_eq!(lex("x = 99999999999999999999"), vec![Token::Identifier("x".to_string()), Token::Assign, Token::Eof]);
}

#[test]
fn unterminated_string_is_dropped() {
    assert_eq!(lex("\"abc"), vec![Token::Eof]);
    assert_eq!(lex("x \"abc\ny"), vec![Token::Identifier("x".to_string()), Token::Eof]);
    assert_eq!(
        lex("x \"abc\\\ny"),
        vec![Token::Identifier("x".to_string()), Token::Identifier("y".to_string()), Token::Eof]
    );
}

#[test]
fn unknown_characters_are_skipped() {
    assert_eq!(
        lex("a $ b"),
        vec![Token::Identifier("a".to_string()), Token::Identifier("b".to_string()), Token::Eof]
    );
}

#[test]
fn unescape_decodes_escapes() {
    assert_eq!(unescape("a\\nb"), "a\nb");
    assert_eq!(unescape("\\t\\r"), "\t\r");
    assert_eq!(unescape("\\\"q\\'"), "\"q'");
    assert_eq!(unescape("x\\\\y"), "x\\y");
    assert_eq!(unescape("\\a\\b\\f\\v"), "\u{7}\u{8}\u{c}\u{b}");
    assert_eq!(unescape("\\q"), "q");
    assert_eq!(unescape("end\\"), "end");
}

#[test]
fn unescape_decodes_numeric_escapes() {
    assert_eq!(unescape("\\65\\x41\\a"), "AA\u{7}");
    assert_eq!(unescape("\\0651"), "A1");
    assert_eq!(unescape("\\9x"), "\u{9}x");
    assert_eq!(unescape("\\255"), "\u{ff}");
    assert_eq!(unescape("\\256"), "256");
    assert_eq!(unescape("\\x4g"), "x4g");
    assert_eq!(unescape("\\u{48}\\u{20AC}"), "H\u{20ac}");
    assert_eq!(unescape("\\u{D800}"), "u{D800}");
    assert_eq!(unescape("\\u{110000}"), "u{110000}");
    assert_eq!(unescape("\\u{}"), "u{}");
    assert_eq!(unescape("\\u48"), "u48");
}

#[test]
fn unescape_z_skips_whitespace() {
    assert_eq!(unescape("a\\z  \n\t b"), "ab");
    assert_eq!(unescape("a\\zb"), "ab");
    assert_eq!(unescape("\\z"), "");
}

#[test]
fn unescape_inverts_escaping() {
    let text = "line\nwith \"quotes\", 'ticks', a \\ and a\ttab\r";
    let escaped = text
        .replace('\\', "\\\\")
        .replace('\n', "\\n")
        .replace('\r', "\\r")
        .replace('\t', "\\t")
        .replace('"', "\\\"")
        .replace('\'', "\\'");
    assert_eq!(unescape(&escaped), text);
    assert_eq!(unescape(&format!("{}{}", escaped, "\\65")), format!("{}A", text));
}

#[test]
fn lexer_decodes_lua_escapes_in_strings() {
    assert_eq!(
        lex("s = \"\\65\\x42\\u{43}\\z   D\""),
        vec![
            Token::Identifier("s".to_string()),
            Token::Assign,
            Token::StringLiteral("ABCD".to_string()),
            Token::Eof,
        ]
    );
}

#[test]
fn unescape_keeps_plain_text() {
    assert_eq!(unescape("plain text, no escapes"), "plain text, no escapes");
    assert_eq!(unescape(""), "");
}

#[test]
fn parse_long_string_finds_content() {
    assert_eq!(parse_long_string("[[abc]]rest"), Some(("abc", 7)));
    assert_eq!(parse_long_string("[==[a]=]b]==]x"), Some(("a]=]b", 13)));
    assert_eq!(parse_long_string("[[]]"), Some(("", 4)));
    assert_eq!(parse_long_string("[[a]]b]]"), Some(("a", 5)));
}

#[test]
fn parse_long_string_ignores_following_text() {
    for tail in ["", "x", "]]", "]=]more", "[[other]]"] {
        assert_eq!(parse_long_string(&format!("[=[a]]b]=]{}", tail)), Some(("a]]b", 10)));
    }
}

#[test]
fn parse_long_string_round_trip() {
    for level in 0..3 {
        let eqs = "=".repeat(level);
        for content in ["", "abc", "a]b", "line\nbreak"] {
            let text = format!("[{}[{}]{}]", eqs, content, eqs);
            assert_eq!(parse_long_string(&text), Some((content, 2 * level + 4 + content.len())));
        }
    }
}

#[test]
fn parse_long_string_rejects_bad_input() {
    assert_eq!(parse_long_string("[=[abc"), None);
    assert_eq!(parse_long_string("abc"), None);
    assert_eq!(parse_long_string("["), None);
    assert_eq!(parse_long_string("[=x"), None);
    assert_eq!(parse_long_string(""), None);
}

#[test]
fn lexing_twice_gives_the_same_tokens() {
    let source = "local t = {x = 1.5, [\"k\"] = 'v'} -- note\nreturn t.x .. [[s]]";
    assert_eq!(lex(source), lex(source));
}

#[test]
fn token_copies_and_kind_tests() {
    let t = Token::Identifier("name".to_string());
    assert_eq!(t.copied(), t);
    assert_eq!(Token::Number("2.5".to_string()).copied(), Token::Number("2.5".to_string()));
    assert!(Token::Comma.is(&Token::Comma));
    assert!(!Token::Comma.is(&Token::Semicolon));
    assert!(!t.is(&Token::Eof));
}

#[test]
fn attributes_and_labels_keep_their_names() {
    assert_eq!(
        lex("x <close> ::top::"),
        vec![
            Token::Identifier("x".to_string()),
            Token::Attribute("close".to_string()),
            Token::Label("top".to_string()),
            Token::Eof,
        ]
    );
}

#[test]
fn unescape_decodes_across_a_clean_join() {
    let a = "x\\n\\t\\\\";
    let b = "\\65\\z  y";
    assert_eq!(unescape(&format!("{}{}", a, b)), format!("{}{}", unescape(a), unescape(b)));
    assert_eq!(unescape("\\1"), "\u{1}");
    assert_eq!(unescape("\\12"), "\u{c}");
}
