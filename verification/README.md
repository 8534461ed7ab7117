# sollua

A lexer and parser for Lua 5.4 whose behaviour is stated in contracts and
proved with Verus.

- `src/lexer/grammar.rs` states the lexical grammar: the lexeme classes, the
  longest-match rule, what token each lexeme gives and which lexemes are
  skipped. `src/lexer/scan.rs` holds the scanners proved against it, and
  `Lexer::collect` is proved to produce exactly the tokenization of its text.
- `src/lexer/helpers.rs` decodes the Lua escape sequences of quoted strings
  (`\a \b \f \n \r \t \v`, `\xXX`, `\ddd`, `\z`, `\u{X...}`) and finds the
  extent of long brackets, with laws on both.
- `src/parser/grammar.rs` states what the parser does as functions from a
  token sequence and a parser state (position, error messages, top-level
  statements) to a result and the next state. The parser methods in
  `src/parser/` are proved to follow those functions exactly. Every statement
  form (`local`, assignments and calls, `function`, `return`, `if`, `while`,
  `for`, `repeat`, `do`, labels, `goto`, `break`) is read in the same way at
  top level and inside blocks, and a token that starts no statement is
  reported (a lone `;` is an empty statement). Binary operators, the bitwise
  ones included, follow Lua 5.4's precedence; unary operators (`-`, `not`,
  `#`, `~`) bind less tightly than `^`. `src/parser/laws.rs` proves how
  operators group.
- `src/ast` holds the syntax tree and its mathematical view.
- `app/lib.rs` turns numerals, which the library keeps as text, into `f64`
  values.

Float numerals are kept as their text (`Token::Number`, `Numeral::Float`);
integers as `i64` values. Numeric escapes give the character with that code
point (a string holds characters, not bytes). Long strings and block comments are recognised at
level zero only (`[[ ... ]]`), and hexadecimal floats are not supported.
