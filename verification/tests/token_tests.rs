use frontend::operator::Operator;
use frontend::token::{Token, TokenClass, KEYWORDS};

#[test]
fn it_can_create_keyword_tokens_from_word() {
    for keyword in KEYWORDS {
        let token: Token = keyword.into();
        assert_eq!(token, Token::Keyword(keyword.to_owned()));
    }
}

#[test]
fn it_can_create_tokens_from_word() {
    let cases = vec![
        ("+", Token::Operator(Operator::Plus)),
        ("-", Token::Operator(Operator::Minus)),
        ("*", Token::Operator(Operator::Mul)),
        ("/", Token::Operator(Operator::Div)),
        ("==", Token::Operator(Operator::Equal)),
        ("<", Token::Operator(Operator::Lesser)),
        ("<=", Token::Operator(Operator::LesserEqual)),
        (">", Token::Operator(Operator::Greater)),
        (">=", Token::Operator(Operator::GreaterEqual)),
        ("19", Token::Number("19".to_owned())),
        ("19.5", Token::Number("19.5".to_owned())),
        ("testing", Token::Identifier("testing".to_owned())),
        ("test", Token::Identifier("test".to_owned())),
        ("int", Token::Keyword("int".to_owned())),
        ("testing.testing_again", Token::Identifier("testing.testing_again".to_owned())),
        ("\"Hello there\"", Token::Literal("Hello there".to_owned())),
        ("=", Token::Assignment),
        ("(", Token::Lparen),
        (")", Token::Rparen),
        ("{", Token::LCurly),
        ("}", Token::RCurly),
    ];
    for (word, expected) in cases {
        let token: Token = word.into();

        assert_eq!(token, expected);
    }
}

#[test]
fn it_can_create_tokens_from_character() {
    let cases = vec![
        ('+', Token::Operator(Operator::Plus)),
        ('-', Token::Operator(Operator::Minus)),
        ('*', Token::Operator(Operator::Mul)),
        ('/', Token::Operator(Operator::Div)),
        ('=', Token::Assignment),
        ('(', Token::Lparen),
        (')', Token::Rparen),
        ('{', Token::LCurly),
        ('}', Token::RCurly),
    ];
    for (character, expected) in cases {
        let token: Token = character.into();

        assert_eq!(token, expected);
    }
}

#[test]
fn it_can_compare_a_token_and_a_token_class() {
    let cases = vec![
        ("+", TokenClass::Operator),
        ("19", TokenClass::Number),
        ("testing", TokenClass::Identifier),
        ("int", TokenClass::Keyword),
        ("\"Hello there\"", TokenClass::Literal),
        ("=", TokenClass::Assignment),
        ("(", TokenClass::Lparen),
        (")", TokenClass::Rparen),
        ("{", TokenClass::LCurly),
        ("}", TokenClass::RCurly),
    ];
    for (word, expected) in cases {
        let token: Token = word.into();

        assert_eq!(token, expected);
        assert_eq!(token.to_token_class(), expected);
    }
}

#[test]
fn it_can_check_the_kind_of_the_tokens_without_the_value() {
    let token = Token::Keyword("test".to_string());
    let token2 = Token::Keyword("testing".to_owned());

    assert_ne!(token, token2);
    assert!(token.is_equal_discrimnant(&token2));
}

#[test]
fn it_can_check_the_kind_of_the_tokens_without_the_value_and_return_false_if_the_tokens_are_of_different_type() {
    let token = Token::Keyword("test".to_owned());
    let token2 = Token::Identifier("testing".to_owned());

    assert_ne!(token, token2);
    assert!(!token.is_equal_discrimnant(&token2));
}

#[test]
fn it_returns_false_if_token_and_token_class_do_not_match() {
    let token = Token::Keyword("test".to_owned());
    let token_class = TokenClass::Identifier;

    assert_ne!(token, token_class);
    assert_ne!(token.to_token_class(), token_class);
}

#[test]
fn classification_helpers() {
    for c in [';', '(', ')', '{', '}', '=', ','] {
        assert!(Token::is_special_char(c));
    }
    for c in ['a', '+', '"', ' ', '.', '[', ':'] {
        assert!(!Token::is_special_char(c));
    }
    for keyword in KEYWORDS {
        assert!(Token::is_keyword(keyword));
    }
    for word in ["", "If", "iff", "i", "function", "int ", "true"] {
        assert!(!Token::is_keyword(word));
    }
    assert_eq!(KEYWORDS.len(), 14);
}

#[test]
fn a_string_literal_is_a_text_between_double_quotes() {
    for word in ["\"\"", "\"a\"", "\"Hello there\"", "\"a\"b\"", "\"(;)\""] {
        assert!(Token::is_string(word), "{}", word);
    }
    for word in ["", "\"", "a", "\"a", "a\"", "'a'", "\"a\" ", "\"a\nb\""] {
        assert!(!Token::is_string(word), "{}", word);
    }
}

#[test]
fn a_number_is_digits_with_an_optional_fraction() {
    for word in ["0", "19", "19.5", "007", "3.33", "0.0"] {
        assert!(Token::is_number(word), "{}", word);
    }
    for word in ["", ".", "1.", ".5", "1.2.3", "1a", "-1", "+1", "1 ", "1e5", "a"] {
        assert!(!Token::is_number(word), "{}", word);
    }
}

#[test]
fn a_boolean_is_one_of_the_two_bare_words() {
    assert!(Token::is_boolean("true"));
    assert!(Token::is_boolean("false"));
    for word in ["", "True", "trueish", "nottrue", "falsey", "isfalse", "true ", "truefalse"] {
        assert!(!Token::is_boolean(word), "{}", word);
    }
}

#[test]
fn a_word_is_classified_in_a_fixed_order() {
    let cases = vec![
        ("true", Token::Boolean("true".to_owned())),
        ("false", Token::Boolean("false".to_owned())),
        ("trueish", Token::Identifier("trueish".to_owned())),
        ("isfalse", Token::Identifier("isfalse".to_owned())),
        ("ifoo", Token::Identifier("ifoo".to_owned())),
        ("fnord", Token::Identifier("fnord".to_owned())),
        ("&&", Token::Operator(Operator::And)),
        ("||", Token::Operator(Operator::Or)),
        ("++", Token::Operator(Operator::Increment)),
        ("--", Token::Operator(Operator::Decrement)),
        ("->", Token::Operator(Operator::Pointer)),
        ("\"\"", Token::Literal("".to_owned())),
        ("\"if\"", Token::Literal("if".to_owned())),
        ("\"a\"b\"", Token::Literal("a\"b".to_owned())),
        (";", Token::Semi),
        (",", Token::Comma),
        ("?", Token::Identifier("?".to_owned())),
        ("a", Token::Identifier("a".to_owned())),
        ("1.", Token::Identifier("1.".to_owned())),
        ("", Token::Identifier("".to_owned())),
        ("é", Token::Identifier("é".to_owned())),
    ];
    for (word, expected) in cases {
        let token: Token = word.into();

        assert_eq!(token, expected);
        assert_eq!(Token::from(word.to_owned()), token);
        assert_eq!(Token::from_word(word), token);
    }
}

#[test]
fn the_classifier_follows_the_shapes_it_is_given() {
    assert_eq!(Token::classify("\"x\"", true, false), Token::Literal("x".to_owned()));
    assert_eq!(Token::classify("\"x\"", false, false), Token::Identifier("\"x\"".to_owned()));
    assert_eq!(Token::classify("12", false, true), Token::Number("12".to_owned()));
    assert_eq!(Token::classify("12", false, false), Token::Identifier("12".to_owned()));
    assert_eq!(Token::classify("12", true, true), Token::Literal("".to_owned()));
    assert_eq!(Token::classify("if", true, true), Token::Keyword("if".to_owned()));
    assert_eq!(Token::classify("==", true, true), Token::Operator(Operator::Equal));
    assert_eq!(Token::classify("true", true, true), Token::Boolean("true".to_owned()));
    assert_eq!(Token::classify("(", false, false), Token::Lparen);
}

#[test]
fn a_character_that_is_no_token_makes_the_error_token() {
    let token: Token = '?'.into();

    assert_eq!(token, Token::Error("Failed to parse character to a token: ?".to_owned()));
    assert_eq!(Token::from_char('a'), Token::Error("Failed to parse character to a token: a".to_owned()));
    assert_eq!(Token::from_char(','), Token::Comma);
    assert_eq!(Token::from_char(';'), Token::Semi);
    assert_eq!(Token::from_char('<'), Token::Operator(Operator::Lesser));
    assert_eq!(Token::from_char('>'), Token::Operator(Operator::Greater));
}

#[test]
fn a_token_has_a_value_and_a_display_text() {
    let cases = vec![
        (Token::Identifier("x".to_owned()), Some("x"), "IDENTIFIER: x", TokenClass::Identifier, "Identifier"),
        (Token::Keyword("if".to_owned()), Some("if"), "KEYWORD: if", TokenClass::Keyword, "Keyword"),
        (Token::Operator(Operator::LesserEqual), Some("<="), "OPERATOR: <=", TokenClass::Operator, "Operator"),
        (Token::Literal("a b".to_owned()), Some("a b"), "STRING: a b", TokenClass::Literal, "Literal"),
        (Token::Number("3.5".to_owned()), Some("3.5"), "NUMBER: 3.5", TokenClass::Number, "Number"),
        (Token::Boolean("true".to_owned()), Some("true"), "Boolean: true", TokenClass::Boolean, "Boolean"),
        (Token::Lparen, None, "(", TokenClass::Lparen, "Lparen"),
        (Token::Rparen, None, ")", TokenClass::Rparen, "Rparen"),
        (Token::LCurly, None, "{", TokenClass::LCurly, "LCurly"),
        (Token::RCurly, None, "}", TokenClass::RCurly, "RCurly"),
        (Token::Semi, None, ";", TokenClass::Semi, "Semi"),
        (Token::Comma, None, ",", TokenClass::Comma, "Comma"),
        (Token::Assignment, None, "=", TokenClass::Assignment, "Assignment"),
        (Token::Error("why".to_owned()), Some("why"), "Failed to convert to token: why", TokenClass::Error, "Error"),
    ];
    for (token, value, display, class, name) in cases {
        assert_eq!(token.extract_value().as_deref(), value);
        assert_eq!(token.to_string(), display);
        assert_eq!(token.to_token_class(), class);
        assert_eq!(class.to_string(), name);
        assert!(token == class);
    }
}

#[test]
fn tokens_are_equal_when_class_and_text_are() {
    assert_eq!(Token::Number("1".to_owned()), Token::Number("1".to_owned()));
    assert_ne!(Token::Number("1".to_owned()), Token::Number("2".to_owned()));
    assert_ne!(Token::Number("1".to_owned()), Token::Identifier("1".to_owned()));
    assert_eq!(Token::Operator(Operator::Plus), Token::Operator(Operator::Plus));
    assert_ne!(Token::Operator(Operator::Plus), Token::Operator(Operator::Increment));
    assert_ne!(Token::Lparen, Token::Rparen);
    assert_eq!(Token::Semi, Token::Semi);
}
