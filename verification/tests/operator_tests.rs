use frontend::operator::{double_operator_of, single_operator_of, Operator};

const LEXEMES: [(&str, Operator); 14] = [
    ("+", Operator::Plus),
    ("-", Operator::Minus),
    ("*", Operator::Mul),
    ("/", Operator::Div),
    ("==", Operator::Equal),
    ("<", Operator::Lesser),
    ("<=", Operator::LesserEqual),
    (">", Operator::Greater),
    (">=", Operator::GreaterEqual),
    ("&&", Operator::And),
    ("||", Operator::Or),
    ("++", Operator::Increment),
    ("--", Operator::Decrement),
    ("->", Operator::Pointer),
];

#[test]
fn every_lexeme_is_an_operator() {
    for (lexeme, _) in LEXEMES {
        assert!(Operator::is_operator(lexeme), "{}", lexeme);
    }
}

#[test]
fn other_texts_are_no_operators() {
    for text in ["", "=", "&", "|", "!", "+++", "+ ", " +", "=<", "=>", "a", "<<", "é"] {
        assert!(!Operator::is_operator(text), "{}", text);
    }
}

#[test]
fn a_lexeme_is_read_as_its_operator_and_displayed_as_its_lexeme() {
    for (lexeme, operator) in LEXEMES {
        assert_eq!(Operator::from(lexeme), operator);
        assert_eq!(operator.to_string(), lexeme);
        assert_eq!(Operator::from(operator.to_string().as_str()), operator);
    }
}

#[test]
fn a_text_that_is_no_two_character_lexeme_is_read_by_its_first_character() {
    assert_eq!(Operator::from("+x"), Operator::Plus);
    assert_eq!(Operator::from("-1"), Operator::Minus);
    assert_eq!(Operator::from("<<<"), Operator::Lesser);
    assert_eq!(Operator::from(">a"), Operator::Greater);
    assert_eq!(Operator::from("*="), Operator::Mul);
    assert_eq!(Operator::from("/*"), Operator::Div);
}

#[test]
fn single_and_double_operators() {
    assert_eq!(single_operator_of('+'), Some(Operator::Plus));
    assert_eq!(single_operator_of('<'), Some(Operator::Lesser));
    assert_eq!(single_operator_of('='), None);
    assert_eq!(single_operator_of('&'), None);
    assert_eq!(double_operator_of('=', '='), Some(Operator::Equal));
    assert_eq!(double_operator_of('-', '>'), Some(Operator::Pointer));
    assert_eq!(double_operator_of('>', '-'), None);
    assert_eq!(double_operator_of('+', '-'), None);
}
