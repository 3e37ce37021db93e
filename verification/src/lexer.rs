//! The token producer: it skips whitespace, prefers a two-character operator
//! over its first character, keeps a string literal together, counts lines
//! and columns, and offers one token of look-ahead.

use crate::buffer::{byte_char, text_bytes, LexerBufferReader};
use crate::operator::{
    double_operator, double_operator_of, lemma_lexeme_is_operator_text, single_operator,
    single_operator_of,
};
use crate::token::{
    char_token, is_special, is_valid_token, lemma_word_token_is_valid, word_token, Token,
    TokenClass, TokenModel,
};
use vstd::prelude::*;
use vstd::string::*;
use vstd::utf8::{encode_utf8, is_ascii_chars, is_ascii_chars_encode_utf8};

verus! {

/// Why the lexer has no token to give.
#[derive(Debug)]
pub enum LexerError {
    /// The input is exhausted.
    EndOfFileReached,
    /// The input could not be read; the text says why.
    FailedToReadNextLine(String),
    /// The file of this path could not be opened.
    CannotOpenFile(String),
}

/// The model of a [`LexerError`].
pub enum LexerErrorModel {
    EndOfFileReached,
    FailedToReadNextLine(Seq<char>),
    CannotOpenFile(Seq<char>),
}

impl View for LexerError {
    type V = LexerErrorModel;

    open spec fn view(&self) -> LexerErrorModel {
        match self {
            LexerError::EndOfFileReached => LexerErrorModel::EndOfFileReached,
            LexerError::FailedToReadNextLine(why) => LexerErrorModel::FailedToReadNextLine(why@),
            LexerError::CannotOpenFile(path) => LexerErrorModel::CannotOpenFile(path@),
        }
    }
}

impl LexerError {
    /// The message of the error.
    pub open spec fn message(&self) -> Seq<char> {
        match self {
            LexerError::EndOfFileReached => "Reached the end of the file!"@,
            LexerError::FailedToReadNextLine(_) => {
                "Lexer was unable to read the next line of the file!"@
            },
            LexerError::CannotOpenFile(path) => "Could not open file: "@ + path@,
        }
    }

    /// The message of the error.
    pub fn to_string(&self) -> (text: String)
        ensures
            text@ == self.message(),
    {
        match self {
            LexerError::EndOfFileReached => "Reached the end of the file!".to_owned(),
            LexerError::FailedToReadNextLine(_) => {
                "Lexer was unable to read the next line of the file!".to_owned()
            },
            LexerError::CannotOpenFile(path) => {
                "Could not open file: ".to_owned().concat(path.as_str())
            },
        }
    }
}

/// A token and the place where it starts. Lines and columns count from 1.
#[derive(Debug)]
pub struct TokenInfo {
    pub line: usize,
    pub start_column: usize,
    pub token: Token,
}

/// The model of a [`TokenInfo`].
pub struct TokenInfoModel {
    pub token: TokenModel,
    pub line: nat,
    pub start_column: nat,
}

impl View for TokenInfo {
    type V = TokenInfoModel;

    open spec fn view(&self) -> TokenInfoModel {
        TokenInfoModel {
            token: self.token@,
            line: self.line as nat,
            start_column: self.start_column as nat,
        }
    }
}

/// `c` is a whitespace character: one of those that Unicode lists as
/// `White_Space`.
pub open spec fn is_blank(c: char) -> bool {
    let u = c as u32;
    ||| 0x9 <= u <= 0xD
    ||| u == 0x20
    ||| u == 0x85
    ||| u == 0xA0
    ||| u == 0x1680
    ||| 0x2000 <= u <= 0x200A
    ||| u == 0x2028
    ||| u == 0x2029
    ||| u == 0x202F
    ||| u == 0x205F
    ||| u == 0x3000
}

/// Tells whether `c` is a whitespace character.
pub fn is_whitespace(c: char) -> (r: bool)
    ensures
        r == is_blank(c),
{
    let u: u32 = c as u32;
    (0x9 <= u && u <= 0xD) || u == 0x20 || u == 0x85 || u == 0xA0 || u == 0x1680 || (0x2000 <= u
        && u <= 0x200A) || u == 0x2028 || u == 0x2029 || u == 0x202F || u == 0x205F || u == 0x3000
}

/// A place in the source: the index of the next byte, the current line, and
/// the column of the character read last on that line.
pub struct Position {
    pub cursor: nat,
    pub line: nat,
    pub column: nat,
}

/// What one scan over the source found.
pub enum Found {
    /// A token that is complete by itself: punctuation or an operator.
    Token(TokenModel),
    /// The characters of a word, still to be classified; empty where the
    /// scan met nothing but whitespace.
    Word(Seq<char>),
}

/// The result of one scan: what was found, the column where it starts, and
/// where the scan stopped.
pub struct Scan {
    pub found: Found,
    pub start_column: nat,
    pub cursor: nat,
    pub column: nat,
    pub newline: bool,
}

/// The character after the one at `pos`, or a space where there is none.
pub open spec fn following(bytes: Seq<u8>, pos: int) -> char {
    if pos + 1 < bytes.len() {
        byte_char(bytes[pos + 1])
    } else {
        ' '
    }
}

/// One scan from the byte at `pos`, with `column` characters read on the
/// line so far, `word` collected since `start_column`, inside a string
/// literal or not.
///
/// A newline ends the scan. Whitespace outside a string literal ends a word
/// that has begun and is skipped before one. Two characters that spell an
/// operator are taken together; a punctuation character or a one-character
/// operator is a token at once. Any other character joins the word, a double
/// quote opens or closes a string literal, and a word outside a string
/// literal ends before a punctuation character.
pub open spec fn scan(
    bytes: Seq<u8>,
    pos: int,
    column: nat,
    start_column: nat,
    word: Seq<char>,
    in_string: bool,
) -> Scan
    decreases bytes.len() - pos,
{
    if pos < 0 || pos >= bytes.len() {
        Scan { found: Found::Word(word), start_column, cursor: bytes.len(), column, newline: false }
    } else {
        let c = byte_char(bytes[pos]);
        let n = following(bytes, pos);
        if c == '\n' {
            Scan {
                found: Found::Word(word),
                start_column,
                cursor: (pos + 1) as nat,
                column: 0,
                newline: true,
            }
        } else if !in_string && is_blank(c) {
            if word.len() > 0 {
                Scan {
                    found: Found::Word(word),
                    start_column,
                    cursor: (pos + 1) as nat,
                    column: column + 1,
                    newline: false,
                }
            } else {
                scan(bytes, pos + 1, column + 1, start_column + 1, word, in_string)
            }
        } else if !in_string && n != ' ' && double_operator(c, n) is Some {
            Scan {
                found: Found::Token(
                    (TokenClass::Operator, Some(double_operator(c, n)->0.lexeme())),
                ),
                start_column,
                cursor: (pos + 2) as nat,
                column: column + 2,
                newline: false,
            }
        } else if !in_string && (is_special(c) || single_operator(c) is Some) {
            Scan {
                found: Found::Token(char_token(c)),
                start_column,
                cursor: (pos + 1) as nat,
                column: column + 1,
                newline: false,
            }
        } else {
            let quoted = if c == '"' {
                !in_string
            } else {
                in_string
            };
            if !quoted && is_special(n) {
                Scan {
                    found: Found::Word(word.push(c)),
                    start_column,
                    cursor: (pos + 1) as nat,
                    column: column + 1,
                    newline: false,
                }
            } else {
                scan(bytes, pos + 1, column + 1, start_column, word.push(c), quoted)
            }
        }
    }
}

/// The scan for a new token from `at`.
pub open spec fn scan_from(bytes: Seq<u8>, at: Position) -> Scan {
    scan(bytes, at.cursor as int, at.column, at.column + 1, Seq::empty(), false)
}

/// The place where a scan from line `line` stopped.
pub open spec fn after_scan(s: Scan, line: nat) -> Position {
    Position {
        cursor: s.cursor,
        line: if s.newline {
            line + 1
        } else {
            line
        },
        column: s.column,
    }
}

/// A scan that starts inside the source reads at least one byte and stays
/// inside the source.
pub proof fn lemma_scan_advances(
    bytes: Seq<u8>,
    pos: int,
    column: nat,
    start_column: nat,
    word: Seq<char>,
    in_string: bool,
)
    requires
        0 <= pos <= bytes.len(),
    ensures
        pos <= scan(bytes, pos, column, start_column, word, in_string).cursor <= bytes.len(),
        pos < bytes.len() ==> pos < scan(bytes, pos, column, start_column, word, in_string).cursor,
    decreases bytes.len() - pos,
{
    if pos < bytes.len() {
        lemma_scan_advances(bytes, pos + 1, column + 1, start_column + 1, word, in_string);
        let c = byte_char(bytes[pos]);
        let quoted = if c == '"' {
            !in_string
        } else {
            in_string
        };
        lemma_scan_advances(bytes, pos + 1, column + 1, start_column, word.push(c), quoted);
    }
}

/// The first token at or after `at`, with the place after it; `None` where
/// nothing but whitespace is left.
pub open spec fn next_token(bytes: Seq<u8>, at: Position) -> Option<(TokenInfoModel, Position)>
    decreases bytes.len() - at.cursor,
    via next_token_decreases
{
    if at.cursor >= bytes.len() {
        None
    } else {
        let s = scan_from(bytes, at);
        let then = after_scan(s, at.line);
        match s.found {
            Found::Token(token) => Some(
                (TokenInfoModel { token, line: at.line, start_column: s.start_column }, then),
            ),
            Found::Word(word) => if word.len() == 0 {
                next_token(bytes, then)
            } else {
                Some(
                    (
                        TokenInfoModel {
                            token: word_token(word),
                            line: at.line,
                            start_column: s.start_column,
                        },
                        then,
                    ),
                )
            },
        }
    }
}

#[via_fn]
proof fn next_token_decreases(bytes: Seq<u8>, at: Position) {
    if at.cursor < bytes.len() {
        lemma_scan_advances(bytes, at.cursor as int, at.column, at.column + 1, Seq::empty(), false);
    }
}

/// The place after a token lies further in the source, and within it.
pub proof fn lemma_next_token_advances(bytes: Seq<u8>, at: Position)
    ensures
        next_token(bytes, at) matches Some((_, then)) ==> at.cursor < then.cursor <= bytes.len(),
    decreases bytes.len() - at.cursor,
{
    if at.cursor < bytes.len() {
        lemma_scan_advances(bytes, at.cursor as int, at.column, at.column + 1, Seq::empty(), false);
        let s = scan_from(bytes, at);
        if s.found matches Found::Word(word) && word.len() == 0 {
            lemma_next_token_advances(bytes, after_scan(s, at.line));
        }
    }
}

/// All the tokens from `at` to the end of the source, in source order.
pub open spec fn token_stream(bytes: Seq<u8>, at: Position) -> Seq<TokenInfoModel>
    decreases bytes.len() - at.cursor,
    via token_stream_decreases
{
    match next_token(bytes, at) {
        None => Seq::empty(),
        Some((info, then)) => seq![info] + token_stream(bytes, then),
    }
}

#[via_fn]
proof fn token_stream_decreases(bytes: Seq<u8>, at: Position) {
    lemma_next_token_advances(bytes, at);
}

/// The place where a lexer starts: before the first byte, on line 1.
pub open spec fn start_position() -> Position {
    Position { cursor: 0, line: 1, column: 0 }
}

/// All the tokens of a source.
pub open spec fn tokens_of(bytes: Seq<u8>) -> Seq<TokenInfoModel> {
    token_stream(bytes, start_position())
}

/// A scan starts its token at the column it was given, or further right,
/// and a token that it finds by itself is a valid token.
pub proof fn lemma_scan_finds_valid(
    bytes: Seq<u8>,
    pos: int,
    column: nat,
    start_column: nat,
    word: Seq<char>,
    in_string: bool,
)
    requires
        0 <= pos <= bytes.len(),
    ensures
        start_column <= scan(bytes, pos, column, start_column, word, in_string).start_column,
        scan(bytes, pos, column, start_column, word, in_string).found matches Found::Token(token)
            ==> is_valid_token(token),
    decreases bytes.len() - pos,
{
    if pos < bytes.len() {
        let c = byte_char(bytes[pos]);
        let n = following(bytes, pos);
        lemma_scan_finds_valid(bytes, pos + 1, column + 1, start_column + 1, word, in_string);
        let quoted = if c == '"' {
            !in_string
        } else {
            in_string
        };
        lemma_scan_finds_valid(bytes, pos + 1, column + 1, start_column, word.push(c), quoted);
        if double_operator(c, n) is Some {
            lemma_lexeme_is_operator_text(double_operator(c, n)->0);
        }
        if single_operator(c) is Some {
            lemma_lexeme_is_operator_text(single_operator(c)->0);
        }
    }
}

/// Every token that the lexer gives starts on a line and at a column that
/// count from 1, and is a valid token: in particular the lexer never gives
/// the error token.
pub proof fn lemma_tokens_are_valid(bytes: Seq<u8>, at: Position, i: int)
    requires
        at.line >= 1,
        0 <= i < token_stream(bytes, at).len(),
    ensures
        token_stream(bytes, at)[i].line >= at.line,
        token_stream(bytes, at)[i].start_column >= 1,
        is_valid_token(token_stream(bytes, at)[i].token),
    decreases bytes.len() - at.cursor, i,
{
    lemma_next_token_advances(bytes, at);
    lemma_first_token_is_valid(bytes, at);
    match next_token(bytes, at) {
        Some((info, then)) => {
            if i > 0 {
                lemma_tokens_are_valid(bytes, then, i - 1);
                assert(token_stream(bytes, at)[i] == token_stream(bytes, then)[i - 1]);
            }
        },
        None => {},
    }
}

/// The first token from a place is valid, starts at a column that counts
/// from 1, on the line of the place or a later one, and the place after it
/// is on no earlier line.
pub proof fn lemma_first_token_is_valid(bytes: Seq<u8>, at: Position)
    ensures
        next_token(bytes, at) matches Some((info, then)) ==> {
            &&& info.line >= at.line
            &&& then.line >= info.line
            &&& info.start_column >= 1
            &&& is_valid_token(info.token)
        },
    decreases bytes.len() - at.cursor,
{
    if at.cursor < bytes.len() {
        lemma_scan_advances(bytes, at.cursor as int, at.column, at.column + 1, Seq::empty(), false);
        lemma_scan_finds_valid(
            bytes,
            at.cursor as int,
            at.column,
            at.column + 1,
            Seq::empty(),
            false,
        );
        let s = scan_from(bytes, at);
        match s.found {
            Found::Word(word) => {
                if word.len() == 0 {
                    lemma_first_token_is_valid(bytes, after_scan(s, at.line));
                } else {
                    lemma_word_token_is_valid(word);
                }
            },
            Found::Token(_) => {},
        }
    }
}

/// The token producer over a source held in memory.
pub struct Lexer {
    line: usize,
    column: usize,
    cursor: LexerBufferReader,
    peeked: Option<TokenInfo>,
}

impl Lexer {
    /// The bytes of the source.
    pub closed spec fn source(&self) -> Seq<u8> {
        self.cursor@.bytes
    }

    /// The place up to which the source has been read.
    pub closed spec fn position(&self) -> Position {
        Position {
            cursor: self.cursor@.cursor,
            line: self.line as nat,
            column: self.column as nat,
        }
    }

    /// The token that was looked at and not consumed yet, if any.
    pub closed spec fn peeked(&self) -> Option<TokenInfoModel> {
        match self.peeked {
            Some(info) => Some(info@),
            None => None,
        }
    }

    /// The lexer is in a state that its own operations lead to.
    pub closed spec fn wf(&self) -> bool {
        &&& self.cursor.wf()
        &&& self.cursor@.bytes.len() < usize::MAX
        &&& self.line <= self.cursor@.cursor + 1
        &&& self.column <= self.cursor@.cursor
    }

    /// The tokens that the lexer has still to give, in order: the token
    /// that was looked at, if any, then those of the unread source.
    pub open spec fn upcoming(&self) -> Seq<TokenInfoModel> {
        match self.peeked() {
            Some(info) => seq![info] + token_stream(self.source(), self.position()),
            None => token_stream(self.source(), self.position()),
        }
    }

    /// A lexer at the start of the source `bytes`, every byte of which is
    /// one character. The source has to be shorter than `usize::MAX` bytes,
    /// so that its lines can be counted.
    pub fn from_bytes(bytes: Vec<u8>) -> (lexer: Lexer)
        requires
            bytes@.len() < usize::MAX,
        ensures
            lexer.wf(),
            lexer.source() == bytes@,
            lexer.position() == start_position(),
            lexer.peeked() is None,
            lexer.upcoming() == tokens_of(bytes@),
    {
        Lexer { line: 1, column: 0, cursor: LexerBufferReader::new(bytes), peeked: None }
    }

    /// A lexer at the start of the source text `code`. The lexer reads the
    /// bytes of the text, each as one character; for a text in ASCII these
    /// are the characters of the text.
    pub fn new(code: String) -> (lexer: Lexer)
        requires
            encode_utf8(code@).len() < usize::MAX,
        ensures
            lexer.wf(),
            lexer.source() == encode_utf8(code@),
            is_ascii_chars(code@) ==> lexer.source() == text_bytes(code@),
            lexer.position() == start_position(),
            lexer.peeked() is None,
            lexer.upcoming() == tokens_of(lexer.source()),
    {
        proof {
            if is_ascii_chars(code@) {
                is_ascii_chars_encode_utf8(code@);
                assert(encode_utf8(code@) =~= text_bytes(code@));
            }
        }
        Lexer::from_bytes(code.as_str().as_bytes_vec())
    }

    /// Gives the next token and moves past it, or reports the end of the
    /// input.
    pub fn next(&mut self) -> (r: Result<TokenInfo, LexerError>)
        requires
            old(self).wf(),
        ensures
            final(self).wf(),
            final(self).source() == old(self).source(),
            final(self).peeked() is None,
            match r {
                Ok(info) => {
                    &&& old(self).upcoming().len() > 0
                    &&& info@ == old(self).upcoming()[0]
                    &&& final(self).upcoming() == old(self).upcoming().drop_first()
                },
                Err(error) => {
                    &&& error is EndOfFileReached
                    &&& old(self).upcoming().len() == 0
                    &&& final(self).upcoming().len() == 0
                },
            },
    {
        let ghost bytes = self.source();
        match self.peeked.take() {
            Some(info) => {
                assert(old(self).upcoming().drop_first() =~= self.upcoming());
                return Ok(info);
            },
            None => {},
        }
        let ghost origin = self.position();
        loop
            invariant
                self.wf(),
                self.source() == bytes,
                self.peeked is None,
                bytes == old(self).source(),
                origin == old(self).position(),
                old(self).peeked is None,
                next_token(bytes, self.position()) == next_token(bytes, origin),
            decreases bytes.len() - self.position().cursor,
        {
            let ghost at = self.position();
            if self.cursor.peek_char().is_none() {
                return Err(LexerError::EndOfFileReached);
            }
            let mut in_a_string: bool = false;
            let mut word: String = String::new();
            let mut start_column: usize = self.column + 1;
            let start_line: usize = self.line;
            let ghost goal = scan_from(bytes, at);
            proof {
                lemma_scan_advances(
                    bytes,
                    at.cursor as int,
                    at.column,
                    at.column + 1,
                    Seq::empty(),
                    false,
                );
            }
            loop
                invariant_except_break
                    scan(
                        bytes,
                        self.position().cursor as int,
                        self.position().column,
                        start_column as nat,
                        word@,
                        in_a_string,
                    ) == goal,
                    self.line == start_line,
                invariant
                    self.wf(),
                    self.source() == bytes,
                    self.peeked is None,
                    bytes == old(self).source(),
                    start_column <= self.position().cursor + 1,
                    at.cursor <= self.position().cursor,
                    at.line == start_line,
                    goal == scan_from(bytes, at),
                    next_token(bytes, at) == next_token(bytes, origin),
                    origin == old(self).position(),
                    old(self).peeked is None,
                ensures
                    goal.found == Found::Word(word@),
                    goal.start_column == start_column,
                    after_scan(goal, start_line as nat) == self.position(),
                decreases bytes.len() - self.position().cursor,
            {
                let c: char = match self.cursor.read_char() {
                    Ok(c) => c,
                    Err(_) => {
                        break ;
                    },
                };
                if c == '\n' {
                    self.line = self.line + 1;
                    self.column = 0;
                    break ;
                }
                self.column = self.column + 1;
                let next_char: char = match self.cursor.peek_char() {
                    Some(n) => *n,
                    None => ' ',
                };
                if !in_a_string && is_whitespace(c) {
                    if !word.as_str().is_empty() {
                        break ;
                    }
                    start_column = start_column + 1;
                    continue ;
                }
                if !in_a_string && next_char != ' ' {
                    match double_operator_of(c, next_char) {
                        Some(op) => {
                            self.column = self.column + 1;
                            let _ = self.cursor.read_char();
                            let info = TokenInfo {
                                line: start_line,
                                start_column,
                                token: Token::Operator(op),
                            };
                            proof {
                                lemma_next_token_advances(bytes, origin);
                                assert(next_token(bytes, at) == Some((info@, self.position())));
                                assert(old(self).upcoming().drop_first() =~= self.upcoming());
                            }
                            return Ok(info);
                        },
                        None => {},
                    }
                }
                if !in_a_string && (Token::is_special_char(c) || single_operator_of(c).is_some()) {
                    let info = TokenInfo {
                        line: start_line,
                        start_column,
                        token: Token::from_char(c),
                    };
                    proof {
                        lemma_next_token_advances(bytes, origin);
                        assert(next_token(bytes, at) == Some((info@, self.position())));
                        assert(old(self).upcoming().drop_first() =~= self.upcoming());
                    }
                    return Ok(info);
                }
                word.push(c);
                if c == '"' {
                    in_a_string = !in_a_string;
                }
                if !in_a_string && Token::is_special_char(next_char) {
                    break ;
                }
            }
            if word.as_str().is_empty() {
                continue ;
            }
            let info = TokenInfo {
                line: start_line,
                start_column,
                token: Token::from_word(word.as_str()),
            };
            proof {
                lemma_next_token_advances(bytes, origin);
                assert(next_token(bytes, at) == Some((info@, self.position())));
                assert(old(self).upcoming().drop_first() =~= self.upcoming());
            }
            return Ok(info);
        }
    }

    /// Looks at the next token without consuming it: the token stays the
    /// first to come. `None` at the end of the input.
    pub fn peek(&mut self) -> (r: Option<&TokenInfo>)
        requires
            old(self).wf(),
        ensures
            final(self).wf(),
            final(self).source() == old(self).source(),
            final(self).upcoming() == old(self).upcoming(),
            match r {
                Some(info) => old(self).upcoming().len() > 0 && info@ == old(self).upcoming()[0],
                None => old(self).upcoming().len() == 0,
            },
    {
        if self.peeked.is_none() {
            match self.next() {
                Ok(info) => {
                    self.peeked = Some(info);
                    assert(self.upcoming() =~= old(self).upcoming());
                },
                Err(_) => {},
            }
        }
        self.peeked.as_ref()
    }
}

} // verus!