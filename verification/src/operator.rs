//! The operator lexemes of the language.

use vstd::pervasive::unreached;
use vstd::prelude::*;
use vstd::string::*;

verus! {

/// An operator of the language. Every variant stands for exactly one lexeme.
#[derive(PartialEq, Eq, Debug, Clone, Copy, Hash, Structural)]
pub enum Operator {
    Plus,
    Or,
    And,
    Minus,
    Mul,
    Div,
    Equal,
    Lesser,
    LesserEqual,
    Greater,
    GreaterEqual,
    Increment,
    Decrement,
    Pointer,
}

/// The operator that a single character spells, if any.
pub open spec fn single_operator(c: char) -> Option<Operator> {
    if c == '+' {
        Some(Operator::Plus)
    } else if c == '-' {
        Some(Operator::Minus)
    } else if c == '/' {
        Some(Operator::Div)
    } else if c == '*' {
        Some(Operator::Mul)
    } else if c == '>' {
        Some(Operator::Greater)
    } else if c == '<' {
        Some(Operator::Lesser)
    } else {
        None
    }
}

/// The operator that the two characters `a b` spell together, if any.
pub open spec fn double_operator(a: char, b: char) -> Option<Operator> {
    if a == '=' && b == '=' {
        Some(Operator::Equal)
    } else if a == '<' && b == '=' {
        Some(Operator::LesserEqual)
    } else if a == '>' && b == '=' {
        Some(Operator::GreaterEqual)
    } else if a == '&' && b == '&' {
        Some(Operator::And)
    } else if a == '|' && b == '|' {
        Some(Operator::Or)
    } else if a == '+' && b == '+' {
        Some(Operator::Increment)
    } else if a == '-' && b == '-' {
        Some(Operator::Decrement)
    } else if a == '-' && b == '>' {
        Some(Operator::Pointer)
    } else {
        None
    }
}

/// `s` is one of the operator lexemes.
pub open spec fn is_operator_text(s: Seq<char>) -> bool {
    ||| s.len() == 1 && single_operator(s[0]) is Some
    ||| s.len() == 2 && double_operator(s[0], s[1]) is Some
}

/// `s` can be read as an operator: it is a two-character lexeme, or it
/// starts with a character that is an operator by itself.
pub open spec fn starts_operator(s: Seq<char>) -> bool {
    ||| s.len() == 2 && double_operator(s[0], s[1]) is Some
    ||| s.len() >= 1 && single_operator(s[0]) is Some
}

/// The operator that `s` is read as: a two-character lexeme is taken whole,
/// any other text by its first character.
pub open spec fn operator_of(s: Seq<char>) -> Operator
    recommends
        starts_operator(s),
{
    if s.len() == 2 && double_operator(s[0], s[1]) is Some {
        double_operator(s[0], s[1])->0
    } else {
        single_operator(s[0])->0
    }
}

/// Executable form of [`single_operator`].
pub fn single_operator_of(c: char) -> (r: Option<Operator>)
    ensures
        r == single_operator(c),
{
    if c == '+' {
        Some(Operator::Plus)
    } else if c == '-' {
        Some(Operator::Minus)
    } else if c == '/' {
        Some(Operator::Div)
    } else if c == '*' {
        Some(Operator::Mul)
    } else if c == '>' {
        Some(Operator::Greater)
    } else if c == '<' {
        Some(Operator::Lesser)
    } else {
        None
    }
}

/// Executable form of [`double_operator`].
pub fn double_operator_of(a: char, b: char) -> (r: Option<Operator>)
    ensures
        r == double_operator(a, b),
{
    if a == '=' && b == '=' {
        Some(Operator::Equal)
    } else if a == '<' && b == '=' {
        Some(Operator::LesserEqual)
    } else if a == '>' && b == '=' {
        Some(Operator::GreaterEqual)
    } else if a == '&' && b == '&' {
        Some(Operator::And)
    } else if a == '|' && b == '|' {
        Some(Operator::Or)
    } else if a == '+' && b == '+' {
        Some(Operator::Increment)
    } else if a == '-' && b == '-' {
        Some(Operator::Decrement)
    } else if a == '-' && b == '>' {
        Some(Operator::Pointer)
    } else {
        None
    }
}

impl Operator {
    /// The lexeme that spells this operator.
    pub open spec fn lexeme(self) -> Seq<char> {
        match self {
            Operator::And => seq!['&', '&'],
            Operator::Or => seq!['|', '|'],
            Operator::Plus => seq!['+'],
            Operator::Minus => seq!['-'],
            Operator::Mul => seq!['*'],
            Operator::Div => seq!['/'],
            Operator::Equal => seq!['=', '='],
            Operator::Lesser => seq!['<'],
            Operator::LesserEqual => seq!['<', '='],
            Operator::Greater => seq!['>'],
            Operator::GreaterEqual => seq!['>', '='],
            Operator::Increment => seq!['+', '+'],
            Operator::Decrement => seq!['-', '-'],
            Operator::Pointer => seq!['-', '>'],
        }
    }

    /// Tells whether `op` is one of the operator lexemes.
    pub fn is_operator(op: &str) -> (r: bool)
        ensures
            r == is_operator_text(op@),
    {
        let n: usize = op.unicode_len();
        if n == 1 {
            single_operator_of(op.get_char(0)).is_some()
        } else if n == 2 {
            double_operator_of(op.get_char(0), op.get_char(1)).is_some()
        } else {
            false
        }
    }

    /// Reads `word` as an operator. A two-character lexeme is matched
    /// exactly; any other text is read by its first character.
    pub fn from(word: &str) -> (op: Operator)
        requires
            starts_operator(word@),
        ensures
            op == operator_of(word@),
    {
        let n: usize = word.unicode_len();
        if n == 2 {
            match double_operator_of(word.get_char(0), word.get_char(1)) {
                Some(op) => {
                    return op;
                },
                None => {},
            }
        }
        match single_operator_of(word.get_char(0)) {
            Some(op) => op,
            None => unreached(),
        }
    }

    /// The canonical text of the operator: its lexeme.
    pub fn to_string(&self) -> (text: String)
        ensures
            text@ == self.lexeme(),
    {
        match self {
            Operator::And => {
                proof {
                    reveal_strlit("&&");
                }
                "&&".to_owned()
            },
            Operator::Or => {
                proof {
                    reveal_strlit("||");
                }
                "||".to_owned()
            },
            Operator::Plus => {
                proof {
                    reveal_strlit("+");
                }
                "+".to_owned()
            },
            Operator::Minus => {
                proof {
                    reveal_strlit("-");
                }
                "-".to_owned()
            },
            Operator::Mul => {
                proof {
                    reveal_strlit("*");
                }
                "*".to_owned()
            },
            Operator::Div => {
                proof {
                    reveal_strlit("/");
                }
                "/".to_owned()
            },
            Operator::Equal => {
                proof {
                    reveal_strlit("==");
                }
                "==".to_owned()
            },
            Operator::Lesser => {
                proof {
                    reveal_strlit("<");
                }
                "<".to_owned()
            },
            Operator::LesserEqual => {
                proof {
                    reveal_strlit("<=");
                }
                "<=".to_owned()
            },
            Operator::Greater => {
                proof {
                    reveal_strlit(">");
                }
                ">".to_owned()
            },
            Operator::GreaterEqual => {
                proof {
                    reveal_strlit(">=");
                }
                ">=".to_owned()
            },
            Operator::Increment => {
                proof {
                    reveal_strlit("++");
                }
                "++".to_owned()
            },
            Operator::Decrement => {
                proof {
                    reveal_strlit("--");
                }
                "--".to_owned()
            },
            Operator::Pointer => {
                proof {
                    reveal_strlit("->");
                }
                "->".to_owned()
            },
        }
    }
}

/// Two operators with the same lexeme are the same operator.
pub proof fn lemma_lexeme_injective(a: Operator, b: Operator)
    ensures
        a.lexeme() == b.lexeme() <==> a == b,
{
    if a.lexeme() == b.lexeme() {
        assert(a.lexeme().len() == b.lexeme().len());
        assert(a.lexeme()[0] == b.lexeme()[0]);
        if a.lexeme().len() == 2 {
            assert(a.lexeme()[1] == b.lexeme()[1]);
        }
    }
}

/// The lexeme of every operator is an operator text, and reads as that
/// operator.
pub proof fn lemma_lexeme_is_operator_text(op: Operator)
    ensures
        is_operator_text(op.lexeme()),
        operator_of(op.lexeme()) == op,
{
}

} // verus!
