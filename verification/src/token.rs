//! Tokens, their classes and the classifier that turns a word into a token.

use crate::operator::{
    is_operator_text, lemma_lexeme_injective, lemma_lexeme_is_operator_text, operator_of,
    single_operator, single_operator_of, Operator,
};
use crate::pattern::{regex_is_match, search, NUMBER_PATTERN, STRING_PATTERN};
use vstd::prelude::*;
use vstd::std_specs::cmp::PartialEqSpecImpl;
use vstd::std_specs::convert::FromSpecImpl;
use vstd::string::*;

verus! {

/// The reserved words of the language.
pub const KEYWORDS: [&'static str; 14] = [
    "if", "elif", "else", "while", "for", "return", "continue", "break", "int", "bool", "string",
    "char", "float", "fn",
];

/// The kind of a token, without what the token carries.
#[derive(PartialEq, Eq, Debug, Hash, Clone, Copy, Structural)]
pub enum TokenClass {
    Identifier,
    Keyword,
    Operator,
    Literal,
    Number,
    Boolean,
    Lparen,
    Rparen,
    LCurly,
    RCurly,
    Semi,
    Comma,
    Assignment,
    Error,
}

/// A token of the language. The variants that stand for a text carry it.
#[derive(Debug, Hash, Eq)]
pub enum Token {
    Identifier(String),
    Keyword(String),
    Operator(Operator),
    Literal(String),
    Number(String),
    Boolean(String),
    Lparen,
    Rparen,
    LCurly,
    RCurly,
    Semi,
    Comma,
    Assignment,
    Error(String),
}

/// Tells whether two texts hold the same characters.
pub fn same_text(a: &str, b: &str) -> (r: bool)
    ensures
        r == (a@ == b@),
{
    let n: usize = a.unicode_len();
    if n != b.unicode_len() {
        return false;
    }
    let mut i: usize = 0;
    while i < n
        invariant
            i <= n,
            n == a@.len(),
            n == b@.len(),
            forall|j: int| 0 <= j < i ==> a@[j] == b@[j],
        decreases n - i,
    {
        if a.get_char(i) != b.get_char(i) {
            return false;
        }
        i = i + 1;
    }
    assert(a@ =~= b@);
    true
}

/// `c` is one of the punctuation characters that are tokens by themselves.
pub open spec fn is_special(c: char) -> bool {
    c == ';' || c == '(' || c == ')' || c == '{' || c == '}' || c == '=' || c == ','
}

/// `word` is one of the reserved words.
pub open spec fn is_keyword_text(word: Seq<char>) -> bool {
    exists|i: int| 0 <= i < KEYWORDS@.len() && (#[trigger] KEYWORDS@[i])@ == word
}

/// `word` is one of the two boolean literals.
pub open spec fn is_boolean_text(word: Seq<char>) -> bool {
    word == "true"@ || word == "false"@
}

/// `word` has the shape of a string literal: the regex engine matches it
/// against [`STRING_PATTERN`], and it is long enough to hold both quotes.
pub open spec fn is_string_text(word: Seq<char>) -> bool {
    word.len() >= 2 && regex_is_match(STRING_PATTERN@, word)
}

/// `word` has the shape of a number: the regex engine matches it against
/// [`NUMBER_PATTERN`].
pub open spec fn is_number_text(word: Seq<char>) -> bool {
    regex_is_match(NUMBER_PATTERN@, word)
}

/// The model of a token: its class and the text it carries, if any.
pub type TokenModel = (TokenClass, Option<Seq<char>>);

/// The text of the error token that stands for the character `c`.
pub open spec fn unknown_char_text(c: char) -> Seq<char> {
    "Failed to parse character to a token: "@.push(c)
}

/// The text that stands for a token in messages: the text of the token
/// behind the name of its category, or the punctuation character itself.
pub open spec fn token_display(token: TokenModel) -> Seq<char> {
    let text = match token.1 {
        Some(text) => text,
        None => Seq::empty(),
    };
    match token.0 {
        TokenClass::Identifier => "IDENTIFIER: "@ + text,
        TokenClass::Keyword => "KEYWORD: "@ + text,
        TokenClass::Operator => "OPERATOR: "@ + text,
        TokenClass::Literal => "STRING: "@ + text,
        TokenClass::Number => "NUMBER: "@ + text,
        TokenClass::Boolean => "Boolean: "@ + text,
        TokenClass::Lparen => "("@,
        TokenClass::Rparen => ")"@,
        TokenClass::LCurly => "{"@,
        TokenClass::RCurly => "}"@,
        TokenClass::Semi => ";"@,
        TokenClass::Comma => ","@,
        TokenClass::Assignment => "="@,
        TokenClass::Error => "Failed to convert to token: "@ + text,
    }
}

/// The token that a single character makes.
pub open spec fn char_token(c: char) -> TokenModel {
    if single_operator(c) is Some {
        (TokenClass::Operator, Some(single_operator(c)->0.lexeme()))
    } else if c == ';' {
        (TokenClass::Semi, None)
    } else if c == '(' {
        (TokenClass::Lparen, None)
    } else if c == ')' {
        (TokenClass::Rparen, None)
    } else if c == '{' {
        (TokenClass::LCurly, None)
    } else if c == '}' {
        (TokenClass::RCurly, None)
    } else if c == '=' {
        (TokenClass::Assignment, None)
    } else if c == ',' {
        (TokenClass::Comma, None)
    } else {
        (TokenClass::Error, Some(unknown_char_text(c)))
    }
}

/// The token that a word makes, given whether it has the shape of a string
/// literal and whether it has the shape of a number. The categories are
/// tried in a fixed order: keyword, operator, boolean, string, number,
/// single character, identifier.
pub open spec fn classify(word: Seq<char>, string: bool, number: bool) -> TokenModel {
    if is_keyword_text(word) {
        (TokenClass::Keyword, Some(word))
    } else if is_operator_text(word) {
        (TokenClass::Operator, Some(operator_of(word).lexeme()))
    } else if is_boolean_text(word) {
        (TokenClass::Boolean, Some(word))
    } else if string {
        (TokenClass::Literal, Some(word.subrange(1, word.len() - 1)))
    } else if number {
        (TokenClass::Number, Some(word))
    } else if word.len() == 1 && char_token(word[0]).0 != TokenClass::Error {
        char_token(word[0])
    } else {
        (TokenClass::Identifier, Some(word))
    }
}

/// The token that a word makes.
pub open spec fn word_token(word: Seq<char>) -> TokenModel {
    classify(word, is_string_text(word), is_number_text(word))
}

/// The token holds what its class promises: a keyword is a reserved word,
/// a boolean one of the two literals, a number and an operator have their
/// shape, an identifier and a string literal carry a text, punctuation
/// carries none. The error token holds no such promise.
pub open spec fn is_valid_token(token: TokenModel) -> bool {
    match token.0 {
        TokenClass::Keyword => token.1 matches Some(text) && is_keyword_text(text),
        TokenClass::Boolean => token.1 matches Some(text) && is_boolean_text(text),
        TokenClass::Number => token.1 matches Some(text) && is_number_text(text),
        TokenClass::Operator => token.1 matches Some(text) && is_operator_text(text),
        TokenClass::Identifier | TokenClass::Literal => token.1 is Some,
        TokenClass::Error => false,
        _ => token.1 is None,
    }
}

/// Whatever the classifier makes of a word is a valid token: no word makes
/// the error token, and a word that is classified as a number has the shape
/// of a number.
pub proof fn lemma_word_token_is_valid(word: Seq<char>)
    ensures
        is_valid_token(word_token(word)),
{
    if !is_keyword_text(word) && is_operator_text(word) {
        lemma_lexeme_is_operator_text(operator_of(word));
    }
    if word.len() == 1 && single_operator(word[0]) is Some {
        lemma_lexeme_is_operator_text(single_operator(word[0])->0);
    }
}

impl TokenClass {
    /// The name of the class, as it appears in messages.
    pub open spec fn name(self) -> Seq<char> {
        match self {
            TokenClass::Identifier => "Identifier"@,
            TokenClass::Keyword => "Keyword"@,
            TokenClass::Operator => "Operator"@,
            TokenClass::Literal => "Literal"@,
            TokenClass::Number => "Number"@,
            TokenClass::Boolean => "Boolean"@,
            TokenClass::Lparen => "Lparen"@,
            TokenClass::Rparen => "Rparen"@,
            TokenClass::LCurly => "LCurly"@,
            TokenClass::RCurly => "RCurly"@,
            TokenClass::Semi => "Semi"@,
            TokenClass::Comma => "Comma"@,
            TokenClass::Assignment => "Assignment"@,
            TokenClass::Error => "Error"@,
        }
    }

    /// The name of the class.
    pub fn to_string(&self) -> (text: String)
        ensures
            text@ == self.name(),
    {
        match self {
            TokenClass::Identifier => "Identifier".to_owned(),
            TokenClass::Keyword => "Keyword".to_owned(),
            TokenClass::Operator => "Operator".to_owned(),
            TokenClass::Literal => "Literal".to_owned(),
            TokenClass::Number => "Number".to_owned(),
            TokenClass::Boolean => "Boolean".to_owned(),
            TokenClass::Lparen => "Lparen".to_owned(),
            TokenClass::Rparen => "Rparen".to_owned(),
            TokenClass::LCurly => "LCurly".to_owned(),
            TokenClass::RCurly => "RCurly".to_owned(),
            TokenClass::Semi => "Semi".to_owned(),
            TokenClass::Comma => "Comma".to_owned(),
            TokenClass::Assignment => "Assignment".to_owned(),
            TokenClass::Error => "Error".to_owned(),
        }
    }
}

impl Token {
    /// The class of the token.
    pub open spec fn class(&self) -> TokenClass {
        match self {
            Token::Identifier(_) => TokenClass::Identifier,
            Token::Keyword(_) => TokenClass::Keyword,
            Token::Operator(_) => TokenClass::Operator,
            Token::Literal(_) => TokenClass::Literal,
            Token::Number(_) => TokenClass::Number,
            Token::Boolean(_) => TokenClass::Boolean,
            Token::Lparen => TokenClass::Lparen,
            Token::Rparen => TokenClass::Rparen,
            Token::LCurly => TokenClass::LCurly,
            Token::RCurly => TokenClass::RCurly,
            Token::Semi => TokenClass::Semi,
            Token::Comma => TokenClass::Comma,
            Token::Assignment => TokenClass::Assignment,
            Token::Error(_) => TokenClass::Error,
        }
    }

    /// The text that the token carries; an operator carries its lexeme.
    pub open spec fn text(&self) -> Option<Seq<char>> {
        match self {
            Token::Identifier(value)
            | Token::Keyword(value)
            | Token::Literal(value)
            | Token::Error(value)
            | Token::Number(value)
            | Token::Boolean(value) => Some(value@),
            Token::Operator(op) => Some(op.lexeme()),
            _ => None,
        }
    }

    /// The text that stands for the token in messages.
    pub open spec fn display_text(&self) -> Seq<char> {
        token_display(self@)
    }

    /// Tells whether `c` is one of `; ( ) { } = ,`.
    pub fn is_special_char(c: char) -> (r: bool)
        ensures
            r == is_special(c),
    {
        c == ';' || c == '(' || c == ')' || c == '{' || c == '}' || c == '=' || c == ','
    }

    /// Tells whether `word` is a reserved word.
    pub fn is_keyword(word: &str) -> (r: bool)
        ensures
            r == is_keyword_text(word@),
    {
        let mut i: usize = 0;
        while i < KEYWORDS.len()
            invariant
                i <= KEYWORDS@.len(),
                forall|j: int| 0 <= j < i ==> (#[trigger] KEYWORDS@[j])@ != word@,
            decreases KEYWORDS@.len() - i,
        {
            if same_text(KEYWORDS[i], word) {
                return true;
            }
            i = i + 1;
        }
        false
    }

    /// Tells whether `word` has the shape of a string literal.
    pub fn is_string(word: &str) -> (r: bool)
        ensures
            r == is_string_text(word@),
    {
        word.unicode_len() >= 2 && search(STRING_PATTERN, word)
    }

    /// Tells whether `word` has the shape of a number.
    pub fn is_number(word: &str) -> (r: bool)
        ensures
            r == is_number_text(word@),
    {
        search(NUMBER_PATTERN, word)
    }

    /// Tells whether `word` is `true` or `false`.
    pub fn is_boolean(word: &str) -> (r: bool)
        ensures
            r == is_boolean_text(word@),
    {
        same_text(word, "true") || same_text(word, "false")
    }

    /// Tells whether both tokens are of the same class, whatever they carry.
    pub fn is_equal_discrimnant(&self, token: &Token) -> (r: bool)
        ensures
            r == (self.class() == token.class()),
    {
        self.to_token_class() == token.to_token_class()
    }

    /// The class of the token.
    pub fn to_token_class(&self) -> (class: TokenClass)
        ensures
            class == self.class(),
    {
        match self {
            Token::Identifier(_) => TokenClass::Identifier,
            Token::Keyword(_) => TokenClass::Keyword,
            Token::Operator(_) => TokenClass::Operator,
            Token::Literal(_) => TokenClass::Literal,
            Token::Number(_) => TokenClass::Number,
            Token::Boolean(_) => TokenClass::Boolean,
            Token::Lparen => TokenClass::Lparen,
            Token::Rparen => TokenClass::Rparen,
            Token::LCurly => TokenClass::LCurly,
            Token::RCurly => TokenClass::RCurly,
            Token::Semi => TokenClass::Semi,
            Token::Comma => TokenClass::Comma,
            Token::Assignment => TokenClass::Assignment,
            Token::Error(_) => TokenClass::Error,
        }
    }

    /// The text that the token carries: the payload of a variant that has
    /// one, the lexeme of an operator, nothing for punctuation.
    pub fn extract_value(&self) -> (value: Option<String>)
        ensures
            value is Some == self.text() is Some,
            value matches Some(v) ==> Some(v@) == self.text(),
    {
        match self {
            Token::Identifier(value) => Some(value.clone()),
            Token::Keyword(value) => Some(value.clone()),
            Token::Literal(value) => Some(value.clone()),
            Token::Error(value) => Some(value.clone()),
            Token::Number(value) => Some(value.clone()),
            Token::Boolean(value) => Some(value.clone()),
            Token::Operator(op) => Some(op.to_string()),
            _ => None,
        }
    }

    /// The token that the single character `c` makes: an operator, a
    /// punctuation token, or else the error token.
    pub fn from_char(c: char) -> (token: Token)
        ensures
            token@ == char_token(c),
    {
        match single_operator_of(c) {
            Some(op) => {
                return Token::Operator(op);
            },
            None => {},
        }
        if c == ';' {
            Token::Semi
        } else if c == '(' {
            Token::Lparen
        } else if c == ')' {
            Token::Rparen
        } else if c == '{' {
            Token::LCurly
        } else if c == '}' {
            Token::RCurly
        } else if c == '=' {
            Token::Assignment
        } else if c == ',' {
            Token::Comma
        } else {
            let mut message: String = "Failed to parse character to a token: ".to_owned();
            message.push(c);
            Token::Error(message)
        }
    }

    /// The token that `word` makes, once it is known whether the word has
    /// the shape of a string literal (`string`) and of a number (`number`).
    pub fn classify(word: &str, string: bool, number: bool) -> (token: Token)
        requires
            string ==> word@.len() >= 2,
        ensures
            token@ == classify(word@, string, number),
    {
        if Token::is_keyword(word) {
            Token::Keyword(word.to_owned())
        } else if Operator::is_operator(word) {
            Token::Operator(Operator::from(word))
        } else if Token::is_boolean(word) {
            Token::Boolean(word.to_owned())
        } else if string {
            let n: usize = word.unicode_len();
            Token::Literal(word.substring_char(1, n - 1).to_owned())
        } else if number {
            Token::Number(word.to_owned())
        } else if word.unicode_len() == 1 {
            match Token::from_char(word.get_char(0)) {
                Token::Error(_) => Token::Identifier(word.to_owned()),
                token => token,
            }
        } else {
            Token::Identifier(word.to_owned())
        }
    }

    /// The token that `word` makes. The categories are tried in this order:
    /// keyword, operator, boolean, string literal, number, single character,
    /// identifier.
    pub fn from_word(word: &str) -> (token: Token)
        ensures
            token@ == word_token(word@),
    {
        let string: bool = Token::is_string(word);
        let number: bool = Token::is_number(word);
        Token::classify(word, string, number)
    }

    /// The text that stands for the token in messages.
    pub fn to_string(&self) -> (text: String)
        ensures
            text@ == self.display_text(),
    {
        match self {
            Token::Identifier(id) => "IDENTIFIER: ".to_owned().concat(id.as_str()),
            Token::Keyword(key) => "KEYWORD: ".to_owned().concat(key.as_str()),
            Token::Operator(op) => "OPERATOR: ".to_owned().concat(op.to_string().as_str()),
            Token::Literal(value) => "STRING: ".to_owned().concat(value.as_str()),
            Token::Number(value) => "NUMBER: ".to_owned().concat(value.as_str()),
            Token::Boolean(value) => "Boolean: ".to_owned().concat(value.as_str()),
            Token::Lparen => "(".to_owned(),
            Token::Rparen => ")".to_owned(),
            Token::LCurly => "{".to_owned(),
            Token::RCurly => "}".to_owned(),
            Token::Semi => ";".to_owned(),
            Token::Comma => ",".to_owned(),
            Token::Assignment => "=".to_owned(),
            Token::Error(error) => "Failed to convert to token: ".to_owned().concat(error.as_str()),
        }
    }
}

impl PartialEq for Token {
    fn eq(&self, other: &Token) -> (r: bool) {
        match (self, other) {
            (Token::Identifier(a), Token::Identifier(b)) => *a == *b,
            (Token::Keyword(a), Token::Keyword(b)) => *a == *b,
            (Token::Literal(a), Token::Literal(b)) => *a == *b,
            (Token::Number(a), Token::Number(b)) => *a == *b,
            (Token::Boolean(a), Token::Boolean(b)) => *a == *b,
            (Token::Error(a), Token::Error(b)) => *a == *b,
            (Token::Operator(a), Token::Operator(b)) => {
                proof {
                    lemma_lexeme_injective(*a, *b);
                }
                *a == *b
            },
            (Token::Lparen, Token::Lparen) => true,
            (Token::Rparen, Token::Rparen) => true,
            (Token::LCurly, Token::LCurly) => true,
            (Token::RCurly, Token::RCurly) => true,
            (Token::Semi, Token::Semi) => true,
            (Token::Comma, Token::Comma) => true,
            (Token::Assignment, Token::Assignment) => true,
            _ => false,
        }
    }
}

impl PartialEqSpecImpl for Token {
    open spec fn obeys_eq_spec() -> bool {
        true
    }

    open spec fn eq_spec(&self, other: &Token) -> bool {
        self@ == other@
    }
}

impl PartialEq<TokenClass> for Token {
    fn eq(&self, other: &TokenClass) -> (r: bool) {
        self.to_token_class() == *other
    }
}

impl PartialEqSpecImpl<TokenClass> for Token {
    open spec fn obeys_eq_spec() -> bool {
        true
    }

    open spec fn eq_spec(&self, other: &TokenClass) -> bool {
        self.class() == *other
    }
}

impl From<char> for Token {
    fn from(c: char) -> (token: Token)
        ensures
            token@ == char_token(c),
    {
        Token::from_char(c)
    }
}

impl<'a> From<&'a str> for Token {
    fn from(word: &'a str) -> (token: Token)
        ensures
            token@ == word_token(word@),
    {
        Token::from_word(word)
    }
}

impl From<String> for Token {
    fn from(word: String) -> (token: Token)
        ensures
            token@ == word_token(word@),
    {
        Token::from_word(word.as_str())
    }
}

/// `From` hands out a token with the stated model; which of the equal
/// tokens it is stays open, so no law of `from_spec` is claimed.
impl FromSpecImpl<char> for Token {
    open spec fn obeys_from_spec() -> bool {
        false
    }

    open spec fn from_spec(c: char) -> Token {
        choose|token: Token| token@ == char_token(c)
    }
}

impl<'a> FromSpecImpl<&'a str> for Token {
    open spec fn obeys_from_spec() -> bool {
        false
    }

    open spec fn from_spec(word: &'a str) -> Token {
        choose|token: Token| token@ == word_token(word@)
    }
}

impl FromSpecImpl<String> for Token {
    open spec fn obeys_from_spec() -> bool {
        false
    }

    open spec fn from_spec(word: String) -> Token {
        choose|token: Token| token@ == word_token(word@)
    }
}

impl View for Token {
    type V = TokenModel;

    open spec fn view(&self) -> TokenModel {
        (self.class(), self.text())
    }
}

} // verus!
