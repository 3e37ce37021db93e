//! What the lexer makes of a source that holds one token between
//! whitespace: exactly that token, at the column behind the whitespace that
//! leads to it.

use crate::buffer::{byte_char, bytes_text, fits_bytes, lemma_text_of_bytes, text_bytes};
use crate::lexer::{
    after_scan, following, is_blank, lemma_scan_advances, next_token, scan, scan_from,
    start_position, token_stream, tokens_of, Found, Position, Scan, TokenInfoModel,
};
use crate::operator::{double_operator, single_operator, Operator};
use crate::token::{
    char_token, is_boolean_text, is_keyword_text, is_special, is_string_text, word_token,
    TokenClass, TokenModel, KEYWORDS,
};
use vstd::prelude::*;
use vstd::string::*;

verus! {

/// Every byte of `bytes` is whitespace other than a newline.
pub open spec fn is_gap(bytes: Seq<u8>) -> bool {
    forall|i: int|
        0 <= i < bytes.len() ==> is_blank(#[trigger] byte_char(bytes[i])) && byte_char(bytes[i])
            != '\n'
}

/// Every byte of `bytes` is whitespace, newlines included.
pub open spec fn is_margin(bytes: Seq<u8>) -> bool {
    forall|i: int| 0 <= i < bytes.len() ==> is_blank(#[trigger] byte_char(bytes[i]))
}

/// `c` can stand anywhere in a word: it is no whitespace, no punctuation, no
/// double quote, and no operator begins with it.
pub open spec fn is_plain(c: char) -> bool {
    &&& !is_blank(c)
    &&& !is_special(c)
    &&& single_operator(c) is None
    &&& c != '"'
    &&& c != '&'
    &&& c != '|'
}

/// Every byte of `bytes` is a plain character.
pub open spec fn is_plain_word(bytes: Seq<u8>) -> bool {
    forall|i: int| 0 <= i < bytes.len() ==> is_plain(#[trigger] byte_char(bytes[i]))
}

/// Whitespace other than newlines before a word is skipped; the word starts
/// one column later for each character of it.
pub proof fn lemma_scan_gap(bytes: Seq<u8>, p: int, k: int, column: nat, start_column: nat)
    requires
        0 <= p <= k <= bytes.len(),
        forall|i: int|
            p <= i < k ==> is_blank(#[trigger] byte_char(bytes[i])) && byte_char(bytes[i]) != '\n',
    ensures
        scan(bytes, p, column, start_column, Seq::empty(), false) == scan(
            bytes,
            k,
            (column + (k - p)) as nat,
            (start_column + (k - p)) as nat,
            Seq::empty(),
            false,
        ),
    decreases k - p,
{
    if p < k {
        assert(is_blank(byte_char(bytes[p])));
        lemma_scan_gap(bytes, p + 1, k, column + 1, start_column + 1);
    }
}

/// A run of plain characters up to whitespace, or to the end of the source,
/// joins the word, and the scan stops behind it.
pub proof fn lemma_scan_word(
    bytes: Seq<u8>,
    p: int,
    q: int,
    column: nat,
    start_column: nat,
    word: Seq<char>,
)
    requires
        0 <= p <= q <= bytes.len(),
        forall|i: int| p <= i < q ==> is_plain(#[trigger] byte_char(bytes[i])),
        q < bytes.len() ==> is_blank(byte_char(bytes[q])),
        word.len() > 0 || p < q,
    ensures
        scan(bytes, p, column, start_column, word, false) == (Scan {
            found: Found::Word(word + bytes_text(bytes.subrange(p, q))),
            start_column,
            cursor: if q < bytes.len() {
                (q + 1) as nat
            } else {
                bytes.len()
            },
            column: if q < bytes.len() {
                if byte_char(bytes[q]) == '\n' {
                    0
                } else {
                    (column + (q - p) + 1) as nat
                }
            } else {
                (column + (q - p)) as nat
            },
            newline: q < bytes.len() && byte_char(bytes[q]) == '\n',
        }),
    decreases q - p,
{
    if p < q {
        let c = byte_char(bytes[p]);
        let n = following(bytes, p);
        assert(is_plain(c));
        assert(double_operator(c, n) is None);
        if p + 1 < q {
            assert(is_plain(byte_char(bytes[p + 1])));
        }
        assert(!is_special(n));
        lemma_scan_word(bytes, p + 1, q, column + 1, start_column, word.push(c));
        assert(word.push(c) + bytes_text(bytes.subrange(p + 1, q)) =~= word + bytes_text(
            bytes.subrange(p, q),
        ));
    } else {
        assert(word + bytes_text(bytes.subrange(p, q)) =~= word);
    }
}

/// Inside a string literal every character joins the word, up to and with
/// the closing quote; the scan stops behind the whitespace after it.
pub proof fn lemma_scan_string_body(
    bytes: Seq<u8>,
    p: int,
    q: int,
    column: nat,
    start_column: nat,
    word: Seq<char>,
)
    requires
        0 <= p < q <= bytes.len(),
        forall|i: int|
            p <= i < q - 1 ==> (#[trigger] byte_char(bytes[i])) != '"' && byte_char(bytes[i])
                != '\n',
        byte_char(bytes[q - 1]) == '"',
        q < bytes.len() ==> is_blank(byte_char(bytes[q])),
    ensures
        scan(bytes, p, column, start_column, word, true) == (Scan {
            found: Found::Word(word + bytes_text(bytes.subrange(p, q))),
            start_column,
            cursor: if q < bytes.len() {
                (q + 1) as nat
            } else {
                bytes.len()
            },
            column: if q < bytes.len() {
                if byte_char(bytes[q]) == '\n' {
                    0
                } else {
                    (column + (q - p) + 1) as nat
                }
            } else {
                (column + (q - p)) as nat
            },
            newline: q < bytes.len() && byte_char(bytes[q]) == '\n',
        }),
    decreases q - p,
{
    let c = byte_char(bytes[p]);
    let n = following(bytes, p);
    if p == q - 1 {
        assert(!is_special(n));
        lemma_scan_word(bytes, q, q, column + 1, start_column, word.push(c));
        assert(word.push(c) + bytes_text(bytes.subrange(q, q)) =~= word + bytes_text(
            bytes.subrange(p, q),
        ));
    } else {
        assert(byte_char(bytes[p]) != '"' && byte_char(bytes[p]) != '\n');
        lemma_scan_string_body(bytes, p + 1, q, column + 1, start_column, word.push(c));
        assert(word.push(c) + bytes_text(bytes.subrange(p + 1, q)) =~= word + bytes_text(
            bytes.subrange(p, q),
        ));
    }
}

/// A scan over nothing but whitespace finds no word.
pub proof fn lemma_scan_margin(bytes: Seq<u8>, p: int, column: nat, start_column: nat)
    requires
        0 <= p <= bytes.len(),
        forall|i: int| p <= i < bytes.len() ==> is_blank(#[trigger] byte_char(bytes[i])),
    ensures
        scan(bytes, p, column, start_column, Seq::empty(), false).found == Found::Word(
            Seq::empty(),
        ),
    decreases bytes.len() - p,
{
    if p < bytes.len() {
        assert(is_blank(byte_char(bytes[p])));
        lemma_scan_margin(bytes, p + 1, column + 1, start_column + 1);
    }
}

/// Where nothing but whitespace is left, no token is left.
pub proof fn lemma_margin_is_empty(bytes: Seq<u8>, at: Position)
    requires
        at.cursor <= bytes.len(),
        forall|i: int| at.cursor <= i < bytes.len() ==> is_blank(#[trigger] byte_char(bytes[i])),
    ensures
        next_token(bytes, at) is None,
        token_stream(bytes, at) == Seq::<TokenInfoModel>::empty(),
    decreases bytes.len() - at.cursor,
{
    if at.cursor < bytes.len() {
        lemma_scan_margin(bytes, at.cursor as int, at.column, at.column + 1);
        lemma_scan_advances(bytes, at.cursor as int, at.column, at.column + 1, Seq::empty(), false);
        lemma_margin_is_empty(bytes, after_scan(scan_from(bytes, at), at.line));
    }
}

/// The tokens of a source that holds the one token `token` behind the
/// whitespace `lead`: that token, on line 1, at the column after `lead`.
pub open spec fn lone(token: TokenModel, lead: Seq<u8>) -> Seq<TokenInfoModel> {
    seq![TokenInfoModel { token, line: 1, start_column: lead.len() + 1 }]
}

/// What is left behind the one token: the scan `found` stopped at `then`,
/// and from there on the source holds nothing but whitespace.
proof fn lemma_lone(bytes: Seq<u8>, lead: Seq<u8>, info: TokenInfoModel, then: Position)
    requires
        next_token(bytes, start_position()) == Some((info, then)),
        info.line == 1,
        info.start_column == lead.len() + 1,
        then.cursor <= bytes.len(),
        forall|i: int| then.cursor <= i < bytes.len() ==> is_blank(#[trigger] byte_char(bytes[i])),
    ensures
        tokens_of(bytes) == lone(info.token, lead),
{
    lemma_margin_is_empty(bytes, then);
    assert(tokens_of(bytes) =~= lone(info.token, lead));
}

/// A word of plain characters between whitespace is the only token of its
/// source: the lexer gives the token that the word makes, once, at the
/// column after the leading whitespace, and then the end of the input.
pub proof fn lemma_single_word(lead: Seq<u8>, word: Seq<u8>, trail: Seq<u8>)
    requires
        is_gap(lead),
        word.len() > 0,
        is_plain_word(word),
        is_margin(trail),
    ensures
        tokens_of(lead + word + trail) == lone(word_token(bytes_text(word)), lead),
{
    let bytes = lead + word + trail;
    let p = lead.len() as int;
    let q = p + word.len();
    assert forall|i: int| 0 <= i < p implies is_blank(#[trigger] byte_char(bytes[i])) && byte_char(
        bytes[i],
    ) != '\n' by {
        assert(bytes[i] == lead[i]);
    }
    assert forall|i: int| p <= i < q implies is_plain(#[trigger] byte_char(bytes[i])) by {
        assert(bytes[i] == word[i - p]);
    }
    assert forall|i: int| q <= i < bytes.len() implies is_blank(#[trigger] byte_char(bytes[i])) by {
        assert(bytes[i] == trail[i - q]);
    }
    lemma_scan_gap(bytes, 0, p, 0, 1);
    lemma_scan_word(bytes, p, q, p as nat, (p + 1) as nat, Seq::empty());
    assert(bytes.subrange(p, q) =~= word);
    assert(Seq::<char>::empty() + bytes_text(word) =~= bytes_text(word));
    let found = scan_from(bytes, start_position());
    let info = TokenInfoModel {
        token: word_token(bytes_text(word)),
        line: 1,
        start_column: (p + 1) as nat,
    };
    assert(bytes_text(word).len() > 0);
    lemma_lone(bytes, lead, info, after_scan(found, 1));
}

/// A punctuation character or a one-character operator between whitespace
/// is the only token of its source.
pub proof fn lemma_single_char(lead: Seq<u8>, c: u8, trail: Seq<u8>)
    requires
        is_gap(lead),
        is_special(byte_char(c)) || single_operator(byte_char(c)) is Some,
        is_margin(trail),
    ensures
        tokens_of(lead + seq![c] + trail) == lone(char_token(byte_char(c)), lead),
{
    let bytes = lead + seq![c] + trail;
    let p = lead.len() as int;
    assert forall|i: int| 0 <= i < p implies is_blank(#[trigger] byte_char(bytes[i])) && byte_char(
        bytes[i],
    ) != '\n' by {
        assert(bytes[i] == lead[i]);
    }
    assert(bytes[p] == c);
    assert forall|i: int| p + 1 <= i < bytes.len() implies is_blank(
        #[trigger] byte_char(bytes[i]),
    ) by {
        assert(bytes[i] == trail[i - p - 1]);
    }
    lemma_scan_gap(bytes, 0, p, 0, 1);
    let n = following(bytes, p);
    if p + 1 < bytes.len() {
        assert(is_blank(byte_char(bytes[p + 1])));
    }
    assert(double_operator(byte_char(c), n) is None || n == ' ');
    let found = scan_from(bytes, start_position());
    let info = TokenInfoModel {
        token: char_token(byte_char(c)),
        line: 1,
        start_column: (p + 1) as nat,
    };
    lemma_lone(bytes, lead, info, after_scan(found, 1));
}

/// Two characters that spell an operator are read together: between
/// whitespace they are the only token of their source, and never the
/// operator that the first character spells alone.
pub proof fn lemma_single_operator(lead: Seq<u8>, a: u8, b: u8, trail: Seq<u8>)
    requires
        is_gap(lead),
        double_operator(byte_char(a), byte_char(b)) is Some,
        is_margin(trail),
    ensures
        tokens_of(lead + seq![a, b] + trail) == lone(
            (TokenClass::Operator, Some(double_operator(byte_char(a), byte_char(b))->0.lexeme())),
            lead,
        ),
{
    let bytes = lead + seq![a, b] + trail;
    let p = lead.len() as int;
    assert forall|i: int| 0 <= i < p implies is_blank(#[trigger] byte_char(bytes[i])) && byte_char(
        bytes[i],
    ) != '\n' by {
        assert(bytes[i] == lead[i]);
    }
    assert(bytes[p] == a);
    assert(bytes[p + 1] == b);
    assert forall|i: int| p + 2 <= i < bytes.len() implies is_blank(
        #[trigger] byte_char(bytes[i]),
    ) by {
        assert(bytes[i] == trail[i - p - 2]);
    }
    lemma_scan_gap(bytes, 0, p, 0, 1);
    let found = scan_from(bytes, start_position());
    let info = TokenInfoModel {
        token: (
            TokenClass::Operator,
            Some(double_operator(byte_char(a), byte_char(b))->0.lexeme()),
        ),
        line: 1,
        start_column: (p + 1) as nat,
    };
    lemma_lone(bytes, lead, info, after_scan(found, 1));
}

/// The byte of the double quote.
pub open spec fn quote() -> u8 {
    34
}

/// A text between double quotes, with no double quote and no newline in it,
/// is one word, whitespace and punctuation included: between whitespace it
/// is the only token of its source, namely what the whole quoted text makes.
pub proof fn lemma_single_string(lead: Seq<u8>, inner: Seq<u8>, trail: Seq<u8>)
    requires
        is_gap(lead),
        forall|i: int|
            0 <= i < inner.len() ==> (#[trigger] byte_char(inner[i])) != '"' && byte_char(inner[i])
                != '\n',
        is_margin(trail),
    ensures
        tokens_of(lead + (seq![quote()] + inner + seq![quote()]) + trail) == lone(
            word_token(bytes_text(seq![quote()] + inner + seq![quote()])),
            lead,
        ),
{
    let quoted = seq![quote()] + inner + seq![quote()];
    let bytes = lead + quoted + trail;
    let p = lead.len() as int;
    let q = p + quoted.len();
    assert(byte_char(quote()) == '"');
    assert forall|i: int| 0 <= i < p implies is_blank(#[trigger] byte_char(bytes[i])) && byte_char(
        bytes[i],
    ) != '\n' by {
        assert(bytes[i] == lead[i]);
    }
    assert(bytes[p] == quote());
    assert(bytes[q - 1] == quote());
    assert forall|i: int| p + 1 <= i < q - 1 implies (#[trigger] byte_char(bytes[i])) != '"'
        && byte_char(bytes[i]) != '\n' by {
        assert(bytes[i] == inner[i - p - 1]);
    }
    assert forall|i: int| q <= i < bytes.len() implies is_blank(#[trigger] byte_char(bytes[i])) by {
        assert(bytes[i] == trail[i - q]);
    }
    lemma_scan_gap(bytes, 0, p, 0, 1);
    let opened = Seq::<char>::empty().push('"');
    lemma_scan_string_body(bytes, p + 1, q, (p + 1) as nat, (p + 1) as nat, opened);
    assert(bytes.subrange(p, q) =~= quoted);
    assert(opened + bytes_text(bytes.subrange(p + 1, q)) =~= bytes_text(quoted));
    let n = following(bytes, p);
    assert(double_operator('"', n) is None);
    let found = scan_from(bytes, start_position());
    let info = TokenInfoModel {
        token: word_token(bytes_text(quoted)),
        line: 1,
        start_column: (p + 1) as nat,
    };
    assert(bytes_text(quoted).len() > 0);
    lemma_lone(bytes, lead, info, after_scan(found, 1));
}

/// Every character of `text` is plain, and there is at least one.
pub open spec fn is_plain_text(text: Seq<char>) -> bool {
    &&& text.len() > 0
    &&& fits_bytes(text)
    &&& forall|i: int| 0 <= i < text.len() ==> is_plain(#[trigger] text[i])
}

/// Every reserved word is a word of plain characters.
pub proof fn lemma_keywords_are_plain()
    ensures
        forall|i: int| 0 <= i < KEYWORDS@.len() ==> is_plain_text(#[trigger] KEYWORDS@[i]@),
{
    reveal_strlit("if");
    reveal_strlit("elif");
    reveal_strlit("else");
    reveal_strlit("while");
    reveal_strlit("for");
    reveal_strlit("return");
    reveal_strlit("continue");
    reveal_strlit("break");
    reveal_strlit("int");
    reveal_strlit("bool");
    reveal_strlit("string");
    reveal_strlit("char");
    reveal_strlit("float");
    reveal_strlit("fn");
    assert(is_plain_text("if"@));
    assert(is_plain_text("elif"@));
    assert(is_plain_text("else"@));
    assert(is_plain_text("while"@));
    assert(is_plain_text("for"@));
    assert(is_plain_text("return"@));
    assert(is_plain_text("continue"@));
    assert(is_plain_text("break"@));
    assert(is_plain_text("int"@));
    assert(is_plain_text("bool"@));
    assert(is_plain_text("string"@));
    assert(is_plain_text("char"@));
    assert(is_plain_text("float"@));
    assert(is_plain_text("fn"@));
}

/// A reserved word that stands alone is lexed as that keyword, and as
/// nothing else.
pub proof fn lemma_keyword_alone(i: int)
    requires
        0 <= i < KEYWORDS@.len(),
    ensures
        tokens_of(text_bytes(KEYWORDS@[i]@)) == lone(
            (TokenClass::Keyword, Some(KEYWORDS@[i]@)),
            Seq::empty(),
        ),
{
    let word = KEYWORDS@[i]@;
    lemma_keywords_are_plain();
    assert(is_plain_text(word));
    lemma_text_of_bytes(word);
    let bytes = text_bytes(word);
    assert(is_plain_word(bytes));
    lemma_single_word(Seq::empty(), bytes, Seq::empty());
    assert(Seq::<u8>::empty() + bytes + Seq::<u8>::empty() =~= bytes);
    assert(is_keyword_text(word));
}

/// Greedy operators: the lexeme of a two-character operator, lexed alone,
/// gives that operator once, and not two tokens.
pub proof fn lemma_greedy_operator(op: Operator)
    requires
        op.lexeme().len() == 2,
    ensures
        tokens_of(text_bytes(op.lexeme())) == lone(
            (TokenClass::Operator, Some(op.lexeme())),
            Seq::empty(),
        ),
{
    let a = op.lexeme()[0];
    let b = op.lexeme()[1];
    assert(double_operator(a, b) == Some(op));
    assert(fits_bytes(op.lexeme()));
    lemma_text_of_bytes(op.lexeme());
    let bytes = text_bytes(op.lexeme());
    lemma_single_operator(Seq::empty(), bytes[0], bytes[1], Seq::empty());
    assert(Seq::<u8>::empty() + seq![bytes[0], bytes[1]] + Seq::<u8>::empty() =~= bytes);
}

/// A quoted text that stands alone, with no double quote and no newline
/// between its quotes, is one token: what the classifier makes of the whole
/// quoted text. It is no keyword, no operator and no boolean, so wherever
/// it has the shape of a string literal (which is for the regex engine to
/// say), the token is the literal of the text between the quotes,
/// whitespace included.
pub proof fn lemma_quoted_text_alone(inner: Seq<u8>)
    requires
        forall|i: int|
            0 <= i < inner.len() ==> (#[trigger] byte_char(inner[i])) != '"' && byte_char(inner[i])
                != '\n',
    ensures
        ({
            let source = seq![quote()] + inner + seq![quote()];
            let quoted = bytes_text(source);
            &&& tokens_of(source) == lone(word_token(quoted), Seq::empty())
            &&& is_string_text(quoted) ==> word_token(quoted) == (
                TokenClass::Literal,
                Some(bytes_text(inner)),
            )
        }),
{
    let source = seq![quote()] + inner + seq![quote()];
    let quoted = bytes_text(source);
    lemma_single_string(Seq::empty(), inner, Seq::empty());
    assert(Seq::<u8>::empty() + source + Seq::<u8>::empty() =~= source);
    assert(quoted[0] == '"');
    assert(quoted.len() >= 2);
    lemma_keywords_are_plain();
    assert(!is_keyword_text(quoted)) by {
        if is_keyword_text(quoted) {
            let i = choose|i: int| 0 <= i < KEYWORDS@.len() && (#[trigger] KEYWORDS@[i])@ == quoted;
            assert(is_plain_text(KEYWORDS@[i]@));
            assert(is_plain(quoted[0]));
        }
    }
    reveal_strlit("true");
    reveal_strlit("false");
    assert(!is_boolean_text(quoted));
    assert(quoted.subrange(1, quoted.len() - 1) =~= bytes_text(inner));
}

} // verus!
