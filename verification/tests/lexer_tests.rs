use frontend::lexer::{Lexer, LexerError, TokenInfo};
use frontend::operator::Operator;
use frontend::token::Token;

fn assert_place(token: &TokenInfo, column: usize, line: usize) {
    assert_eq!(column, token.start_column);
    assert_eq!(line, token.line);
}

#[test]
fn lexer_it_parses_if_statement() {
    let code = String::from("if (x == y) {");
    let mut lexer = Lexer::new(code);

    let token = lexer.next().unwrap();
    assert_place(&token, 1, 1);
    assert!(matches!(&token.token, Token::Keyword(x) if x == "if"), "Token did not match. Actual: {:?}", token.token);
    let token = lexer.next().unwrap();
    assert_place(&token, 4, 1);
    assert!(matches!(&token.token, Token::Lparen), "Token did not match. Actual: {:?}", token.token);
    let token = lexer.next().unwrap();
    assert_place(&token, 5, 1);
    assert!(matches!(&token.token, Token::Identifier(x) if x == "x"), "Token did not match. Actual: {:?}", token.token);
    let token = lexer.next().unwrap();
    assert_place(&token, 7, 1);
    assert!(matches!(&token.token, Token::Operator(x) if matches!(x, Operator::Equal)), "Token did not match. Actual: {:?}", token.token);
    let token = lexer.next().unwrap();
    assert_place(&token, 10, 1);
    assert!(matches!(&token.token, Token::Identifier(x) if x == "y"), "Token did not match. Actual: {:?}", token.token);
    let token = lexer.next().unwrap();
    assert_place(&token, 11, 1);
    assert!(matches!(&token.token, Token::Rparen), "Token did not match. Actual: {:?}", token.token);
    let token = lexer.next().unwrap();
    assert_place(&token, 13, 1);
    assert!(matches!(&token.token, Token::LCurly), "Token did not match. Actual: {:?}", token.token);
}

#[test]
fn lexer_it_can_parse_multiline() {
    let code = String::from("if\nwhile\nfor");
    let mut lexer = Lexer::new(code);

    let token = lexer.next().unwrap();
    assert_place(&token, 1, 1);
    assert!(matches!(&token.token, Token::Keyword(x) if x == "if"), "Token did not match. Actual: {:?}", token.token);
    let token = lexer.next().unwrap();
    assert_place(&token, 1, 2);
    assert!(matches!(&token.token, Token::Keyword(x) if x == "while"), "Token did not match. Actual: {:?}", token.token);
    let token = lexer.next().unwrap();
    assert_place(&token, 1, 3);
    assert!(matches!(&token.token, Token::Keyword(x) if x == "for"), "Token did not match. Actual: {:?}", token.token);
}

#[test]
fn lexer_it_does_not_care_about_whitespaces() {
    let code = String::from("            if\n     \t    while\n");
    let mut lexer = Lexer::new(code);

    let token = lexer.next().unwrap();
    assert_place(&token, 13, 1);
    assert!(matches!(&token.token, Token::Keyword(x) if x == "if"), "Token did not match. Actual: {:?}", token.token);
    let token = lexer.next().unwrap();
    assert_place(&token, 11, 2);
    assert!(matches!(&token.token, Token::Keyword(x) if x == "while"), "Token did not match. Actual: {:?}", token.token);
}

#[test]
fn lexer_it_can_parse_assignment_statement_with_string() {
    let code = String::from("string testing = \"Hello there\";");
    let mut lexer = Lexer::new(code);

    let token = lexer.next().unwrap();
    assert_place(&token, 1, 1);
    assert!(matches!(&token.token, Token::Keyword(x) if x == "string"), "Token did not match. Actual: {:?}", token.token);
    let token = lexer.next().unwrap();
    assert_place(&token, 8, 1);
    assert!(matches!(&token.token, Token::Identifier(x) if x == "testing"), "Token did not match. Actual: {:?}", token.token);
    let token = lexer.next().unwrap();
    assert_place(&token, 16, 1);
    assert!(matches!(&token.token, Token::Assignment), "Token did not match. Actual: {:?}", token.token);
    let token = lexer.next().unwrap();
    assert_place(&token, 18, 1);
    assert!(matches!(&token.token, Token::Literal(x) if x == "Hello there"), "Token did not match. Actual: {:?}", token.token);
    let token = lexer.next().unwrap();
    assert_place(&token, 31, 1);
    assert!(matches!(&token.token, Token::Semi), "Token did not match. Actual: {:?}", token.token);
}

#[test]
fn lexer_it_can_parse_an_assignment_statement_with_number() {
    let code = String::from("int testing = 33;");
    let mut lexer = Lexer::new(code);

    let token = lexer.next().unwrap();
    assert_place(&token, 1, 1);
    assert!(matches!(&token.token, Token::Keyword(x) if x == "int"), "Token did not match. Actual: {:?}", token.token);
    let token = lexer.next().unwrap();
    assert_place(&token, 5, 1);
    assert!(matches!(&token.token, Token::Identifier(x) if x == "testing"), "Token did not match. Actual: {:?}", token.token);
    let token = lexer.next().unwrap();
    assert_place(&token, 13, 1);
    assert!(matches!(&token.token, Token::Assignment), "Token did not match. Actual: {:?}", token.token);
    let token = lexer.next().unwrap();
    assert_place(&token, 15, 1);
    assert!(matches!(&token.token, Token::Number(x) if x == "33"), "Token did not match. Actual: {:?}", token.token);
    let token = lexer.next().unwrap();
    assert_place(&token, 17, 1);
    assert!(matches!(&token.token, Token::Semi), "Token did not match. Actual: {:?}", token.token);
}

#[test]
fn lexer_it_can_parse_expressions_in_assignment_statements() {
    let code = String::from("bool testing = 5 == 3.33;");
    let mut lexer = Lexer::new(code);

    let token = lexer.next().unwrap();
    assert_place(&token, 1, 1);
    assert!(matches!(&token.token, Token::Keyword(x) if x == "bool"), "Token did not match. Actual: {:?}", token.token);
    let token = lexer.next().unwrap();
    assert_place(&token, 6, 1);
    assert!(matches!(&token.token, Token::Identifier(x) if x == "testing"), "Token did not match. Actual: {:?}", token.token);
    let token = lexer.next().unwrap();
    assert_place(&token, 14, 1);
    assert!(matches!(&token.token, Token::Assignment), "Token did not match. Actual: {:?}", token.token);
    let token = lexer.next().unwrap();
    assert_place(&token, 16, 1);
    assert!(matches!(&token.token, Token::Number(x) if x == "5"), "Token did not match. Actual: {:?}", token.token);
    let token = lexer.next().unwrap();
    assert_place(&token, 18, 1);
    assert!(matches!(&token.token, Token::Operator(x) if matches!(x, Operator::Equal)), "Token did not match. Actual: {:?}", token.token);
    let token = lexer.next().unwrap();
    assert_place(&token, 21, 1);
    assert!(matches!(&token.token, Token::Number(x) if x == "3.33"), "Token did not match. Actual: {:?}", token.token);
    let token = lexer.next().unwrap();
    assert_place(&token, 25, 1);
    assert!(matches!(&token.token, Token::Semi), "Token did not match. Actual: {:?}", token.token);
}

#[test]
fn lib_it_parses_if_statement() {
    let code = String::from("if (x == y) {");
    let mut lexer = Lexer::new(code);

    let token = lexer.next().unwrap();
    assert_place(&token, 1, 1);
    assert!(matches!(&token.token, Token::Keyword(x) if x == "if"), "Token did not match. Actual: {:?}", token.token);
    let token = lexer.next().unwrap();
    assert_place(&token, 4, 1);
    assert!(matches!(&token.token, Token::Lparen), "Token did not match. Actual: {:?}", token.token);
    let token = lexer.next().unwrap();
    assert_place(&token, 5, 1);
    assert!(matches!(&token.token, Token::Identifier(x) if x == "x"), "Token did not match. Actual: {:?}", token.token);
    let token = lexer.next().unwrap();
    assert_place(&token, 7, 1);
    assert!(matches!(&token.token, Token::Operator(x) if matches!(x, Operator::Equal)), "Token did not match. Actual: {:?}", token.token);
    let token = lexer.next().unwrap();
    assert_place(&token, 10, 1);
    assert!(matches!(&token.token, Token::Identifier(x) if x == "y"), "Token did not match. Actual: {:?}", token.token);
    let token = lexer.next().unwrap();
    assert_place(&token, 11, 1);
    assert!(matches!(&token.token, Token::Rparen), "Token did not match. Actual: {:?}", token.token);
    let token = lexer.next().unwrap();
    assert_place(&token, 13, 1);
    assert!(matches!(&token.token, Token::LCurly), "Token did not match. Actual: {:?}", token.token);
}

#[test]
fn lib_it_can_parse_multiline() {
    let code = String::from("if\nwhile\nfor");
    let mut lexer = Lexer::new(code);

    let token = lexer.next().unwrap();
    assert_place(&token, 1, 1);
    assert!(matches!(&token.token, Token::Keyword(x) if x == "if"), "Token did not match. Actual: {:?}", token.token);
    let token = lexer.next().unwrap();
    assert_place(&token, 1, 2);
    assert!(matches!(&token.token, Token::Keyword(x) if x == "while"), "Token did not match. Actual: {:?}", token.token);
    let token = lexer.next().unwrap();
    assert_place(&token, 1, 3);
    assert!(matches!(&token.token, Token::Keyword(x) if x == "for"), "Token did not match. Actual: {:?}", token.token);
}

#[test]
fn lib_it_does_not_care_about_whitespaces() {
    let code = String::from("            if\n     \t    while\n");
    let mut lexer = Lexer::new(code);

    let token = lexer.next().unwrap();
    assert_place(&token, 13, 1);
    assert!(matches!(&token.token, Token::Keyword(x) if x == "if"), "Token did not match. Actual: {:?}", token.token);
    let token = lexer.next().unwrap();
    assert_place(&token, 11, 2);
    assert!(matches!(&token.token, Token::Keyword(x) if x == "while"), "Token did not match. Actual: {:?}", token.token);
}

#[test]
fn lib_it_can_parse_assignment_statement_with_string() {
    let code = String::from("string testing = \"Hello there\";");
    let mut lexer = Lexer::new(code);

    let token = lexer.next().unwrap();
    assert_place(&token, 1, 1);
    assert!(matches!(&token.token, Token::Keyword(x) if x == "string"), "Token did not match. Actual: {:?}", token.token);
    let token = lexer.next().unwrap();
    assert_place(&token, 8, 1);
    assert!(matches!(&token.token, Token::Identifier(x) if x == "testing"), "Token did not match. Actual: {:?}", token.token);
    let token = lexer.next().unwrap();
    assert_place(&token, 16, 1);
    assert!(matches!(&token.token, Token::Assignment), "Token did not match. Actual: {:?}", token.token);
    let token = lexer.next().unwrap();
    assert_place(&token, 18, 1);
    assert!(matches!(&token.token, Token::Literal(x) if x == "Hello there"), "Token did not match. Actual: {:?}", token.token);
    let token = lexer.next().unwrap();
    assert_place(&token, 31, 1);
    assert!(matches!(&token.token, Token::Semi), "Token did not match. Actual: {:?}", token.token);
}

#[test]
fn lib_it_can_parse_an_assignment_statement_with_number() {
    let code = String::from("int testing = 33;");
    let mut lexer = Lexer::new(code);

    let token = lexer.next().unwrap();
    assert_place(&token, 1, 1);
    assert!(matches!(&token.token, Token::Keyword(x) if x == "int"), "Token did not match. Actual: {:?}", token.token);
    let token = lexer.next().unwrap();
    assert_place(&token, 5, 1);
    assert!(matches!(&token.token, Token::Identifier(x) if x == "testing"), "Token did not match. Actual: {:?}", token.token);
    let token = lexer.next().unwrap();
    assert_place(&token, 13, 1);
    assert!(matches!(&token.token, Token::Assignment), "Token did not match. Actual: {:?}", token.token);
    let token = lexer.next().unwrap();
    assert_place(&token, 15, 1);
    assert!(matches!(&token.token, Token::Number(x) if x == "33"), "Token did not match. Actual: {:?}", token.token);
    let token = lexer.next().unwrap();
    assert_place(&token, 17, 1);
    assert!(matches!(&token.token, Token::Semi), "Token did not match. Actual: {:?}", token.token);
}

#[test]
fn lib_it_can_parse_expressions_in_assignment_statements() {
    let code = String::from("bool testing = 5 == 3.33;");
    let mut lexer = Lexer::new(code);

    let token = lexer.next().unwrap();
    assert_place(&token, 1, 1);
    assert!(matches!(&token.token, Token::Keyword(x) if x == "bool"), "Token did not match. Actual: {:?}", token.token);
    let token = lexer.next().unwrap();
    assert_place(&token, 6, 1);
    assert!(matches!(&token.token, Token::Identifier(x) if x == "testing"), "Token did not match. Actual: {:?}", token.token);
    let token = lexer.next().unwrap();
    assert_place(&token, 14, 1);
    assert!(matches!(&token.token, Token::Assignment), "Token did not match. Actual: {:?}", token.token);
    let token = lexer.next().unwrap();
    assert_place(&token, 16, 1);
    assert!(matches!(&token.token, Token::Number(x) if x == "5"), "Token did not match. Actual: {:?}", token.token);
    let token = lexer.next().unwrap();
    assert_place(&token, 18, 1);
    assert!(matches!(&token.token, Token::Operator(x) if matches!(x, Operator::Equal)), "Token did not match. Actual: {:?}", token.token);
    let token = lexer.next().unwrap();
    assert_place(&token, 21, 1);
    assert!(matches!(&token.token, Token::Number(x) if x == "3.33"), "Token did not match. Actual: {:?}", token.token);
    let token = lexer.next().unwrap();
    assert_place(&token, 25, 1);
    assert!(matches!(&token.token, Token::Semi), "Token did not match. Actual: {:?}", token.token);
}

#[test]
fn it_can_parse_a_function_call() {
    let code = String::from("sum(a + b);");
    let mut lexer = Lexer::new(code);

    let token = lexer.next().unwrap();
    assert_place(&token, 1, 1);
    assert!(matches!(&token.token, Token::Identifier(x) if x == "sum"), "Token did not match. Actual: {:?}", token.token);
    let token = lexer.next().unwrap();
    assert_place(&token, 4, 1);
    assert!(matches!(&token.token, Token::Lparen), "Token did not match. Actual: {:?}", token.token);
    let token = lexer.next().unwrap();
    assert_place(&token, 5, 1);
    assert!(matches!(&token.token, Token::Identifier(x) if x == "a"), "Token did not match. Actual: {:?}", token.token);
    let token = lexer.next().unwrap();
    assert_place(&token, 7, 1);
    assert!(matches!(&token.token, Token::Operator(x) if matches!(x, Operator::Plus)), "Token did not match. Actual: {:?}", token.token);
    let token = lexer.next().unwrap();
    assert_place(&token, 9, 1);
    assert!(matches!(&token.token, Token::Identifier(x) if x == "b"), "Token did not match. Actual: {:?}", token.token);
    let token = lexer.next().unwrap();
    assert_place(&token, 10, 1);
    assert!(matches!(&token.token, Token::Rparen), "Token did not match. Actual: {:?}", token.token);
    let token = lexer.next().unwrap();
    assert_place(&token, 11, 1);
    assert!(matches!(&token.token, Token::Semi), "Token did not match. Actual: {:?}", token.token);
}

#[test]
fn it_throws_an_error_if_we_reached_end_of_file() {
    let code = String::from("");
    let mut lexer = Lexer::new(code);
    let error = lexer.next().unwrap_err();

    assert!(matches!(error, LexerError::EndOfFileReached));
}

#[test]
fn it_can_peek_next_token() {
    let code = String::from("sum(a + b);");
    let mut lexer = Lexer::new(code);
    let peeked = lexer.peek().unwrap();

    assert_place(peeked, 1, 1);
    assert!(matches!(&peeked.token, Token::Identifier(x) if x == "sum"));
    let token = lexer.next().unwrap();
    assert_place(&token, 1, 1);
    assert!(matches!(&token.token, Token::Identifier(x) if x == "sum"));
}

#[test]
fn it_can_peek_multiple_times() {
    let code = String::from("sum(a + b);");
    let mut lexer = Lexer::new(code);

    let peeked = lexer.peek().unwrap();
    assert_place(peeked, 1, 1);
    assert!(matches!(&peeked.token, Token::Identifier(x) if x == "sum"));
    let peeked = lexer.peek().unwrap();
    assert_place(peeked, 1, 1);
    assert!(matches!(&peeked.token, Token::Identifier(x) if x == "sum"));
    let peeked = lexer.peek().unwrap();
    assert_place(peeked, 1, 1);
    assert!(matches!(&peeked.token, Token::Identifier(x) if x == "sum"));
    let peeked = lexer.peek().unwrap();
    assert_place(peeked, 1, 1);
    assert!(matches!(&peeked.token, Token::Identifier(x) if x == "sum"));
    let peeked = lexer.peek().unwrap();
    assert_place(peeked, 1, 1);
    assert!(matches!(&peeked.token, Token::Identifier(x) if x == "sum"));
    let token = lexer.next().unwrap();
    assert_place(&token, 1, 1);
    assert!(matches!(&token.token, Token::Identifier(x) if x == "sum"));
}

#[test]
fn it_changes_next_peek_after_next_has_been_called() {
    let code = String::from("sum(a + b);");
    let mut lexer = Lexer::new(code);

    let peeked = lexer.peek().unwrap();
    assert_place(peeked, 1, 1);
    assert!(matches!(&peeked.token, Token::Identifier(x) if x == "sum"));
    let token = lexer.next().unwrap();
    assert_place(&token, 1, 1);
    assert!(matches!(&token.token, Token::Identifier(x) if x == "sum"));
    let peeked = lexer.peek().unwrap();
    assert_place(peeked, 4, 1);
    assert!(matches!(&peeked.token, Token::Lparen));
    let peeked = lexer.peek().unwrap();
    assert_place(peeked, 4, 1);
    assert!(matches!(&peeked.token, Token::Lparen));
}

fn all_tokens(code: &str) -> Vec<(Token, usize, usize)> {
    let mut lexer = Lexer::new(String::from(code));
    let mut tokens = Vec::new();
    loop {
        match lexer.next() {
            Ok(info) => tokens.push((info.token, info.line, info.start_column)),
            Err(error) => {
                assert!(matches!(error, LexerError::EndOfFileReached));
                break;
            }
        }
    }
    assert!(matches!(lexer.next(), Err(LexerError::EndOfFileReached)));
    tokens
}

fn identifier(text: &str) -> Token {
    Token::Identifier(text.to_owned())
}

#[test]
fn a_single_token_between_whitespace_is_given_once() {
    assert_eq!(all_tokens("   \t foo  \n "), vec![(identifier("foo"), 1, 6)]);
    assert_eq!(all_tokens("foo"), vec![(identifier("foo"), 1, 1)]);
    assert_eq!(all_tokens(" ;"), vec![(Token::Semi, 1, 2)]);
    assert_eq!(all_tokens("  + \n\n"), vec![(Token::Operator(Operator::Plus), 1, 3)]);
    assert_eq!(all_tokens("\t>=\t"), vec![(Token::Operator(Operator::GreaterEqual), 1, 2)]);
    assert_eq!(
        all_tokens("  \"a b\"  "),
        vec![(Token::Literal("a b".to_owned()), 1, 3)]
    );
    assert_eq!(all_tokens(" 12.5\n"), vec![(Token::Number("12.5".to_owned()), 1, 2)]);
    assert_eq!(all_tokens("   \n \t\n"), vec![]);
}

#[test]
fn a_two_character_operator_is_one_token() {
    let operators = vec![
        ("==", Operator::Equal),
        ("<=", Operator::LesserEqual),
        (">=", Operator::GreaterEqual),
        ("&&", Operator::And),
        ("||", Operator::Or),
        ("++", Operator::Increment),
        ("--", Operator::Decrement),
        ("->", Operator::Pointer),
    ];
    for (lexeme, operator) in operators {
        assert_eq!(all_tokens(lexeme), vec![(Token::Operator(operator), 1, 1)]);
    }
    assert_eq!(
        all_tokens("+ +"),
        vec![(Token::Operator(Operator::Plus), 1, 1), (Token::Operator(Operator::Plus), 1, 3)]
    );
    assert_eq!(
        all_tokens("<=="),
        vec![(Token::Operator(Operator::LesserEqual), 1, 1), (Token::Assignment, 1, 3)]
    );
    assert_eq!(
        all_tokens("= ="),
        vec![(Token::Assignment, 1, 1), (Token::Assignment, 1, 3)]
    );
}

#[test]
fn a_quoted_text_is_one_literal_with_what_stands_between_the_quotes() {
    let inner = "a  b;(c) {d} = , + if";
    let code = format!("\"{}\"", inner);

    assert_eq!(all_tokens(&code), vec![(Token::Literal(inner.to_owned()), 1, 1)]);
    assert_eq!(all_tokens("\"\""), vec![(Token::Literal("".to_owned()), 1, 1)]);
    assert_eq!(
        all_tokens("\"a\";"),
        vec![(Token::Literal("a".to_owned()), 1, 1), (Token::Semi, 1, 4)]
    );
}

#[test]
fn a_newline_ends_a_string_that_is_still_open() {
    assert_eq!(
        all_tokens("\"a\nb\""),
        vec![(identifier("\"a"), 1, 1), (identifier("b\""), 2, 1)]
    );
}

#[test]
fn a_keyword_alone_is_a_keyword_and_inside_a_word_it_is_not() {
    for keyword in frontend::token::KEYWORDS {
        assert_eq!(all_tokens(keyword), vec![(Token::Keyword(keyword.to_owned()), 1, 1)]);
        let longer = format!("{}oo", keyword);
        assert_eq!(all_tokens(&longer), vec![(identifier(&longer), 1, 1)]);
        let longer = format!("x{}", keyword);
        assert_eq!(all_tokens(&longer), vec![(identifier(&longer), 1, 1)]);
    }
    assert_eq!(all_tokens("ifoo"), vec![(identifier("ifoo"), 1, 1)]);
}

#[test]
fn a_word_ends_before_punctuation() {
    assert_eq!(
        all_tokens("x=5,y"),
        vec![
            (identifier("x"), 1, 1),
            (Token::Assignment, 1, 2),
            (Token::Number("5".to_owned()), 1, 3),
            (Token::Comma, 1, 4),
            (identifier("y"), 1, 5),
        ]
    );
    assert_eq!(
        all_tokens("a.b c"),
        vec![(identifier("a.b"), 1, 1), (identifier("c"), 1, 5)]
    );
}

#[test]
fn an_operator_right_behind_a_word_takes_its_place() {
    assert_eq!(
        all_tokens("a+b"),
        vec![(Token::Operator(Operator::Plus), 1, 1), (identifier("b"), 1, 3)]
    );
    assert_eq!(all_tokens("a++"), vec![(Token::Operator(Operator::Increment), 1, 1)]);
    assert_eq!(
        all_tokens("a ++"),
        vec![(identifier("a"), 1, 1), (Token::Operator(Operator::Increment), 1, 3)]
    );
}

#[test]
fn lines_and_columns_count_from_one() {
    assert_eq!(
        all_tokens("fn f() -> int {\n\treturn 1;\n}\n"),
        vec![
            (Token::Keyword("fn".to_owned()), 1, 1),
            (identifier("f"), 1, 4),
            (Token::Lparen, 1, 5),
            (Token::Rparen, 1, 6),
            (Token::Operator(Operator::Pointer), 1, 8),
            (Token::Keyword("int".to_owned()), 1, 11),
            (Token::LCurly, 1, 15),
            (Token::Keyword("return".to_owned()), 2, 2),
            (Token::Number("1".to_owned()), 2, 9),
            (Token::Semi, 2, 10),
            (Token::RCurly, 3, 1),
        ]
    );
}

#[test]
fn peek_at_the_end_of_the_input_is_none() {
    let mut lexer = Lexer::new(String::from("  x  "));

    assert!(lexer.peek().is_some());
    assert!(lexer.next().is_ok());
    assert!(lexer.peek().is_none());
    assert!(lexer.peek().is_none());
    assert!(matches!(lexer.next(), Err(LexerError::EndOfFileReached)));
}

#[test]
fn a_lexer_over_bytes_reads_each_byte_as_one_character() {
    let mut lexer = Lexer::from_bytes(vec![b'a', 0xE9, b' ', b'(']);

    let token = lexer.next().unwrap();
    assert_place(&token, 1, 1);
    assert_eq!(token.token, identifier("a\u{e9}"));
    let token = lexer.next().unwrap();
    assert_place(&token, 4, 1);
    assert_eq!(token.token, Token::Lparen);
}

#[test]
fn whitespace_characters() {
    for c in [' ', '\t', '\n', '\r', '\u{b}', '\u{c}', '\u{85}', '\u{a0}', '\u{2003}', '\u{3000}'] {
        assert!(frontend::lexer::is_whitespace(c));
        assert!(c.is_whitespace());
    }
    for c in ['a', '0', '"', ';', '\u{0}', '\u{8}', '\u{e}', '\u{200b}', '\u{feff}'] {
        assert!(!frontend::lexer::is_whitespace(c));
        assert!(!c.is_whitespace());
    }
    let mut code = 0u32;
    while code < 0x3100 {
        if let Some(c) = char::from_u32(code) {
            assert_eq!(frontend::lexer::is_whitespace(c), c.is_whitespace(), "{:x}", code);
        }
        code += 1;
    }
}
