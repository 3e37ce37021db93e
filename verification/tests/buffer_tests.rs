use frontend::buffer::{LexerBufferReader, ReadError};

const STRING_FIXTURE: &str = "testing this\ninteresting thing";

fn reader_over(text: &str) -> LexerBufferReader {
    LexerBufferReader::new(text.as_bytes().to_vec())
}

fn assert_next_line(reader: &mut LexerBufferReader, to_match_to: &str) {
    let mut line = String::from("");

    reader.read_line(&mut line).unwrap();

    assert_eq!(line, to_match_to);
}

fn assert_next_char(reader: &mut LexerBufferReader, to_match_to: char) {
    let char = reader.read_char().unwrap();

    assert_eq!(char, to_match_to);
}

#[test]
fn it_can_read_a_line_from_provided_buffer() {
    let mut reader = reader_over("testing this");

    assert_next_line(&mut reader, "testing this");
}

#[test]
fn it_can_read_next_line_from_provided_buffer() {
    let mut reader = reader_over(STRING_FIXTURE);

    assert_next_line(&mut reader, "testing this");
    assert_next_line(&mut reader, "interesting thing");
}

#[test]
fn it_can_store_a_checkpoint_and_go_back_to_it() {
    let mut reader = reader_over(STRING_FIXTURE);

    reader.checkpoint().unwrap();

    assert_next_line(&mut reader, "testing this");
    assert_next_line(&mut reader, "interesting thing");

    reader.back().unwrap();

    assert_next_line(&mut reader, "testing this");
}

#[test]
fn it_can_store_a_checkpoint_and_go_back_to_it_for_single_characters_as_well() {
    let mut reader = reader_over(STRING_FIXTURE);

    reader.checkpoint().unwrap();

    assert_next_char(&mut reader, 't');
    assert_next_char(&mut reader, 'e');
    assert_next_char(&mut reader, 's');

    reader.back().unwrap();

    assert_next_char(&mut reader, 't');
    assert_next_char(&mut reader, 'e');
    assert_next_char(&mut reader, 's');

    reader.checkpoint().unwrap();

    assert_next_char(&mut reader, 't');
    assert_next_char(&mut reader, 'i');
    assert_next_char(&mut reader, 'n');

    reader.back().unwrap();

    assert_next_char(&mut reader, 't');
    assert_next_char(&mut reader, 'i');
    assert_next_char(&mut reader, 'n');
}

#[test]
fn it_stores_checkpoint_correctly_even_if_we_have_peeked() {
    let mut reader = reader_over(STRING_FIXTURE);

    assert_next_char(&mut reader, 't');
    assert_next_char(&mut reader, 'e');
    assert_eq!(reader.peek_char().unwrap(), &'s');

    reader.checkpoint().unwrap();

    assert_next_char(&mut reader, 's');

    reader.back().unwrap();

    assert_next_char(&mut reader, 's');
}

#[test]
fn it_can_read_character_by_character() {
    let mut reader = reader_over(STRING_FIXTURE);

    assert_next_char(&mut reader, 't');
    assert_next_char(&mut reader, 'e');
    assert_next_char(&mut reader, 's');
    assert_next_char(&mut reader, 't');
    assert_next_char(&mut reader, 'i');
    assert_next_char(&mut reader, 'n');
    assert_next_char(&mut reader, 'g');

    assert_next_char(&mut reader, ' ');

    assert_next_char(&mut reader, 't');
    assert_next_char(&mut reader, 'h');
    assert_next_char(&mut reader, 'i');
    assert_next_char(&mut reader, 's');

    assert_next_char(&mut reader, '\n');

    assert_next_char(&mut reader, 'i');
    assert_next_char(&mut reader, 'n');
    assert_next_char(&mut reader, 't');
    assert_next_char(&mut reader, 'e');
    assert_next_char(&mut reader, 'r');
    assert_next_char(&mut reader, 'e');
    assert_next_char(&mut reader, 's');
    assert_next_char(&mut reader, 't');
    assert_next_char(&mut reader, 'i');
    assert_next_char(&mut reader, 'n');
    assert_next_char(&mut reader, 'g');

    assert_next_char(&mut reader, ' ');

    assert_next_char(&mut reader, 't');
    assert_next_char(&mut reader, 'h');
    assert_next_char(&mut reader, 'i');
    assert_next_char(&mut reader, 'n');
    assert_next_char(&mut reader, 'g');
}

#[test]
fn it_can_peek_next_char() {
    let mut reader = reader_over(STRING_FIXTURE);

    assert_eq!(reader.peek_char().unwrap(), &'t');
    assert_eq!(reader.peek_char().unwrap(), &'t');
    assert_eq!(reader.peek_char().unwrap(), &'t');
    assert_next_char(&mut reader, 't');
    assert_eq!(reader.peek_char().unwrap(), &'e');
}

#[test]
fn it_returns_none_if_cannot_peek_next_char() {
    let mut reader = reader_over("");

    assert!(reader.peek_char().is_none());
}

#[test]
fn read_char_fails_at_the_end_of_the_stream() {
    let mut reader = reader_over("a");

    assert_eq!(reader.read_char(), Ok('a'));
    assert_eq!(reader.read_char(), Err(ReadError::EndOfStream));
    assert_eq!(reader.read_char(), Err(ReadError::EndOfStream));
}

#[test]
fn read_line_counts_the_newline_and_strips_it() {
    let mut reader = reader_over("ab\ncd");
    let mut line = String::from("> ");

    assert_eq!(reader.read_line(&mut line), Ok(3));
    assert_eq!(line, "> ab");
    assert_eq!(reader.read_line(&mut line), Ok(2));
    assert_eq!(line, "> abcd");
    assert_eq!(reader.read_line(&mut line), Ok(0));
    assert_eq!(line, "> abcd");
}

#[test]
fn read_line_starts_at_the_character_that_was_peeked() {
    let mut reader = reader_over("ab\ncd");

    assert_eq!(reader.peek_char(), Some(&'a'));
    assert_next_line(&mut reader, "ab");
    assert_next_char(&mut reader, 'c');
}

#[test]
fn back_without_a_checkpoint_fails_and_changes_nothing() {
    let mut reader = reader_over("abc");

    assert_next_char(&mut reader, 'a');
    assert_eq!(reader.back(), Err(()));
    assert_next_char(&mut reader, 'b');
}

#[test]
fn back_returns_the_position_and_checkpoints_nest() {
    let mut reader = reader_over("abcdef");

    assert_next_char(&mut reader, 'a');
    reader.checkpoint().unwrap();
    assert_next_char(&mut reader, 'b');
    assert_next_char(&mut reader, 'c');
    reader.checkpoint().unwrap();
    assert_next_char(&mut reader, 'd');

    assert_eq!(reader.back(), Ok(3));
    assert_next_char(&mut reader, 'd');
    assert_eq!(reader.back(), Ok(1));
    assert_next_char(&mut reader, 'b');
    assert_eq!(reader.back(), Err(()));
}

#[test]
fn the_same_reads_after_back_observe_the_same_characters() {
    let mut reader = reader_over(STRING_FIXTURE);
    assert_next_char(&mut reader, 't');

    reader.checkpoint().unwrap();
    let mut first = String::new();
    let a = reader.read_char();
    let b = reader.peek_char().copied();
    let c = reader.read_line(&mut first);
    let d = reader.read_char();

    reader.back().unwrap();
    let mut second = String::new();
    assert_eq!(reader.read_char(), a);
    assert_eq!(reader.peek_char().copied(), b);
    assert_eq!(reader.read_line(&mut second), c);
    assert_eq!(reader.read_char(), d);
    assert_eq!(first, second);
    assert_eq!(first, "sting this");
}

#[test]
fn a_byte_above_ascii_is_one_character() {
    let mut reader = LexerBufferReader::new(vec![0xE9, b'x']);

    assert_next_char(&mut reader, '\u{e9}');
    assert_next_char(&mut reader, 'x');
}
