//! A stream of characters over a buffer of bytes, with one character of
//! look-ahead and a stack of checkpoints to go back to.

use vstd::prelude::*;
use vstd::string::*;

verus! {

/// The character that a byte of the source stands for.
pub open spec fn byte_char(b: u8) -> char {
    b as char
}

/// The text that a run of bytes stands for, one character per byte.
pub open spec fn bytes_text(bytes: Seq<u8>) -> Seq<char> {
    Seq::new(bytes.len(), |i: int| byte_char(bytes[i]))
}

/// The bytes of a text whose characters each fit a byte.
pub open spec fn text_bytes(text: Seq<char>) -> Seq<u8> {
    Seq::new(text.len(), |i: int| text[i] as u8)
}

/// Every character of `text` fits a byte.
pub open spec fn fits_bytes(text: Seq<char>) -> bool {
    forall|i: int| 0 <= i < text.len() ==> 0 <= (#[trigger] text[i]) as int <= 0xFF
}

/// A text whose characters fit a byte is the text of its bytes.
pub proof fn lemma_text_of_bytes(text: Seq<char>)
    requires
        fits_bytes(text),
    ensures
        bytes_text(text_bytes(text)) == text,
        text_bytes(text).len() == text.len(),
        forall|i: int| 0 <= i < text.len() ==> byte_char(#[trigger] text_bytes(text)[i]) == text[i],
{
    assert forall|i: int| 0 <= i < text.len() implies byte_char(#[trigger] text_bytes(text)[i])
        == text[i] by {
        let c = text[i];
        assert(0 <= c as int <= 0xFF);
        let b = c as u8;
        assert(b as int == c as int);
        assert((b as char) as int == b as int);
        assert(text_bytes(text)[i] == b);
    }
    assert(bytes_text(text_bytes(text)) =~= text);
}

/// The index of the first newline of `bytes` at or after `from`, or the
/// length of `bytes` if there is none.
pub open spec fn line_end(bytes: Seq<u8>, from: int) -> int
    decreases bytes.len() - from,
{
    if from < 0 || from >= bytes.len() {
        bytes.len() as int
    } else if bytes[from] == 10 {
        from
    } else {
        line_end(bytes, from + 1)
    }
}

/// Where the line that starts at `from` stops, and that nothing before that
/// place is a newline.
pub proof fn lemma_line_end(bytes: Seq<u8>, from: int)
    requires
        0 <= from <= bytes.len(),
    ensures
        from <= line_end(bytes, from) <= bytes.len(),
        line_end(bytes, from) < bytes.len() ==> bytes[line_end(bytes, from)] == 10,
        forall|i: int| from <= i < line_end(bytes, from) ==> bytes[i] != 10,
    decreases bytes.len() - from,
{
    if from < bytes.len() && bytes[from] != 10 {
        lemma_line_end(bytes, from + 1);
    }
}

/// The state of a reader: the bytes it reads, the index of the next byte,
/// and the positions it can go back to, the latest last.
pub struct ReaderModel {
    pub bytes: Seq<u8>,
    pub cursor: nat,
    pub checkpoints: Seq<nat>,
}

impl ReaderModel {
    /// The cursor and every checkpoint lie within the bytes.
    pub open spec fn wf(self) -> bool {
        &&& self.cursor <= self.bytes.len()
        &&& forall|i: int|
            0 <= i < self.checkpoints.len() ==> self.checkpoints[i] <= self.bytes.len()
    }

    /// The next character, if the stream has not ended.
    pub open spec fn next_char(self) -> Option<char> {
        if self.cursor < self.bytes.len() {
            Some(byte_char(self.bytes[self.cursor as int]))
        } else {
            None
        }
    }

    /// The same reader with its cursor at `cursor`.
    pub open spec fn at(self, cursor: nat) -> ReaderModel {
        ReaderModel { cursor, ..self }
    }

    /// The reader after one character was read: one byte further, or
    /// unchanged at the end of the stream.
    pub open spec fn after_char(self) -> ReaderModel {
        if self.cursor < self.bytes.len() {
            self.at(self.cursor + 1)
        } else {
            self
        }
    }

    /// The text of the line at the cursor, without its newline.
    pub open spec fn line_text(self) -> Seq<char> {
        let end = line_end(self.bytes, self.cursor as int);
        bytes_text(self.bytes.subrange(self.cursor as int, end))
    }

    /// The number of bytes of the line at the cursor, its newline included.
    pub open spec fn line_size(self) -> nat {
        let end = line_end(self.bytes, self.cursor as int);
        if end < self.bytes.len() {
            (end + 1 - self.cursor) as nat
        } else {
            (end - self.cursor) as nat
        }
    }

    /// The reader after the line at the cursor was read.
    pub open spec fn after_line(self) -> ReaderModel {
        self.at(self.cursor + self.line_size())
    }

    /// The reader after the cursor was recorded as a checkpoint.
    pub open spec fn after_checkpoint(self) -> ReaderModel {
        ReaderModel { checkpoints: self.checkpoints.push(self.cursor), ..self }
    }

    /// The reader after it went back to its latest checkpoint; unchanged
    /// where it has none.
    pub open spec fn after_back(self) -> ReaderModel {
        if self.checkpoints.len() > 0 {
            ReaderModel {
                cursor: self.checkpoints.last(),
                checkpoints: self.checkpoints.drop_last(),
                ..self
            }
        } else {
            self
        }
    }
}

/// A read from the stream.
pub enum ReadOp {
    ReadChar,
    PeekChar,
    ReadLine,
}

/// What a read from the stream observes.
pub enum Seen {
    /// The character that was read or looked at, if any.
    Char(Option<char>),
    /// The text of the line that was read and the number of its bytes.
    Line(Seq<char>, nat),
}

impl ReaderModel {
    /// What the read `op` observes.
    pub open spec fn seen(self, op: ReadOp) -> Seen {
        match op {
            ReadOp::ReadChar => Seen::Char(self.next_char()),
            ReadOp::PeekChar => Seen::Char(self.next_char()),
            ReadOp::ReadLine => Seen::Line(self.line_text(), self.line_size()),
        }
    }

    /// The reader after the read `op`.
    pub open spec fn after(self, op: ReadOp) -> ReaderModel {
        match op {
            ReadOp::ReadChar => self.after_char(),
            ReadOp::PeekChar => self,
            ReadOp::ReadLine => self.after_line(),
        }
    }

    /// The reader after the reads `ops`, and what they observed, in order.
    pub open spec fn replay(self, ops: Seq<ReadOp>) -> (ReaderModel, Seq<Seen>)
        decreases ops.len(),
    {
        if ops.len() == 0 {
            (self, Seq::empty())
        } else {
            let rest = self.after(ops[0]).replay(ops.drop_first());
            (rest.0, seq![self.seen(ops[0])] + rest.1)
        }
    }

    /// The same reader with the checkpoints `checkpoints`.
    pub open spec fn with_checkpoints(self, checkpoints: Seq<nat>) -> ReaderModel {
        ReaderModel { checkpoints, ..self }
    }
}

/// Reads neither look at the checkpoints nor change them: with other
/// checkpoints the same reads observe the same and end at the same place.
pub proof fn lemma_reads_ignore_checkpoints(
    reader: ReaderModel,
    checkpoints: Seq<nat>,
    ops: Seq<ReadOp>,
)
    ensures
        reader.with_checkpoints(checkpoints).replay(ops).1 == reader.replay(ops).1,
        reader.with_checkpoints(checkpoints).replay(ops).0 == reader.replay(ops).0.with_checkpoints(
            checkpoints,
        ),
        reader.replay(ops).0.checkpoints == reader.checkpoints,
        reader.replay(ops).0.bytes == reader.bytes,
    decreases ops.len(),
{
    if ops.len() > 0 {
        let other = reader.with_checkpoints(checkpoints);
        assert(other.after(ops[0]) == reader.after(ops[0]).with_checkpoints(checkpoints));
        assert(other.seen(ops[0]) == reader.seen(ops[0]));
        lemma_reads_ignore_checkpoints(reader.after(ops[0]), checkpoints, ops.drop_first());
    } else {
        assert(reader.with_checkpoints(reader.checkpoints) == reader);
    }
}

/// Going back restores the stream: after a checkpoint, any reads, and the
/// way back to the checkpoint, the reader is as it was before the
/// checkpoint, and the same reads observe the same characters and lines
/// again.
pub proof fn lemma_back_replays(reader: ReaderModel, ops: Seq<ReadOp>)
    ensures
        ({
            let first = reader.after_checkpoint().replay(ops);
            let second = first.0.after_back().replay(ops);
            &&& first.0.after_back() == reader
            &&& second.1 == first.1
            &&& second.1 == reader.replay(ops).1
        }),
{
    let marked = reader.after_checkpoint();
    lemma_reads_ignore_checkpoints(reader, marked.checkpoints, ops);
    assert(reader.with_checkpoints(marked.checkpoints) == marked);
    let first = marked.replay(ops);
    assert(first.0.checkpoints == marked.checkpoints);
    assert(marked.checkpoints.drop_last() =~= reader.checkpoints);
    assert(first.0.bytes == reader.bytes);
}

/// Why a read from the stream failed.
#[derive(Debug, Clone, Copy, PartialEq, Eq, Structural)]
pub enum ReadError {
    /// The stream has no more characters.
    EndOfStream,
}

/// A reader over a buffer of bytes. Every byte is one character.
pub struct LexerBufferReader {
    last_positions: Vec<usize>,
    peeked_char: Option<char>,
    position: usize,
    buffer: Vec<u8>,
}

impl View for LexerBufferReader {
    type V = ReaderModel;

    closed spec fn view(&self) -> ReaderModel {
        ReaderModel {
            bytes: self.buffer@,
            cursor: self.position as nat,
            checkpoints: self.last_positions@.map_values(|p: usize| p as nat),
        }
    }
}

impl LexerBufferReader {
    /// The reader is in a state that its own operations lead to: its model
    /// is well formed, and a character that it holds from a look ahead is
    /// the next character of the stream.
    pub closed spec fn wf(&self) -> bool {
        &&& self@.wf()
        &&& self.peeked_char matches Some(c) ==> self@.next_char() == Some(c)
    }

    /// A reader at the start of `buffer`, with no checkpoint.
    pub fn new(buffer: Vec<u8>) -> (reader: LexerBufferReader)
        ensures
            reader@ == (ReaderModel { bytes: buffer@, cursor: 0, checkpoints: Seq::empty() }),
            reader.wf(),
            reader@.wf(),
    {
        let reader = LexerBufferReader {
            buffer,
            peeked_char: None,
            position: 0,
            last_positions: Vec::new(),
        };
        assert(reader@.checkpoints =~= Seq::empty());
        reader
    }

    /// Records the current position, so that [`Self::back`] returns to it.
    /// Never fails on a buffer in memory.
    pub fn checkpoint(&mut self) -> (r: Result<(), ()>)
        requires
            old(self).wf(),
        ensures
            r is Ok,
            final(self)@ == old(self)@.after_checkpoint(),
            final(self).wf(),
            final(self)@.wf(),
    {
        self.last_positions.push(self.position);
        assert(self@.checkpoints =~= old(self)@.checkpoints.push(old(self)@.cursor));
        Ok(())
    }

    /// Reads the next character. Fails at the end of the stream, where
    /// nothing changes.
    pub fn read_char(&mut self) -> (r: Result<char, ReadError>)
        requires
            old(self).wf(),
        ensures
            final(self)@ == old(self)@.after_char(),
            final(self).wf(),
            final(self)@.wf(),
            match old(self)@.next_char() {
                Some(c) => r == Ok::<char, ReadError>(c),
                None => r == Err::<char, ReadError>(ReadError::EndOfStream),
            },
    {
        self.peeked_char = None;
        if self.position < self.buffer.len() {
            let b: u8 = self.buffer[self.position];
            self.position = self.position + 1;
            assert(self@.checkpoints == old(self)@.checkpoints);
            Ok(b as char)
        } else {
            assert(self@.checkpoints == old(self)@.checkpoints);
            Err(ReadError::EndOfStream)
        }
    }

    /// Reads the line at the cursor, its newline included, and appends its
    /// text without the newline to `buf`. Returns the number of bytes read,
    /// which is 0 only at the end of the stream. Never fails on a buffer in
    /// memory.
    pub fn read_line(&mut self, buf: &mut String) -> (r: Result<usize, ReadError>)
        requires
            old(self).wf(),
        ensures
            r == Ok::<usize, ReadError>(old(self)@.line_size() as usize),
            final(self)@ == old(self)@.after_line(),
            final(self).wf(),
            final(self)@.wf(),
            final(buf)@ == old(buf)@ + old(self)@.line_text(),
    {
        self.peeked_char = None;
        let start: usize = self.position;
        let ghost bytes = self.buffer@;
        proof {
            lemma_line_end(bytes, start as int);
            assert(bytes_text(bytes.subrange(start as int, start as int)) =~= Seq::<char>::empty());
            assert(buf@ =~= old(buf)@ + Seq::<char>::empty());
        }
        while self.position < self.buffer.len() && self.buffer[self.position] != 10
            invariant
                bytes == self.buffer@,
                bytes == old(self).buffer@,
                self.last_positions == old(self).last_positions,
                self.peeked_char is None,
                start == old(self).position,
                start <= self.position <= line_end(bytes, start as int) <= bytes.len(),
                line_end(bytes, self.position as int) == line_end(bytes, start as int),
                buf@ == old(buf)@ + bytes_text(bytes.subrange(start as int, self.position as int)),
            decreases bytes.len() - self.position,
        {
            let b: u8 = self.buffer[self.position];
            let ghost before = buf@;
            buf.push(b as char);
            self.position = self.position + 1;
            proof {
                lemma_line_end(bytes, self.position as int);
                let before_text = bytes_text(bytes.subrange(start as int, self.position - 1));
                assert(bytes_text(bytes.subrange(start as int, self.position as int))
                    =~= before_text.push(byte_char(b)));
                assert(buf@ =~= old(buf)@ + bytes_text(
                    bytes.subrange(start as int, self.position as int),
                ));
            }
        }
        if self.position < self.buffer.len() {
            self.position = self.position + 1;
        }
        assert(self@.checkpoints == old(self)@.checkpoints);
        Ok(self.position - start)
    }

    /// The next character, which stays unread; `None` only at the end of the
    /// stream.
    pub fn peek_char(&mut self) -> (r: Option<&char>)
        requires
            old(self).wf(),
        ensures
            final(self).wf(),
            final(self)@.wf(),
            final(self)@ == old(self)@,
            match r {
                Some(c) => old(self)@.next_char() == Some(*c),
                None => old(self)@.next_char() is None,
            },
    {
        if self.position < self.buffer.len() {
            let b: u8 = self.buffer[self.position];
            self.peeked_char = Some(b as char);
        } else {
            self.peeked_char = None;
        }
        assert(self@.checkpoints == old(self)@.checkpoints);
        self.peeked_char.as_ref()
    }

    /// Goes back to the latest checkpoint and forgets it. Fails, and changes
    /// nothing, where there is no checkpoint.
    pub fn back(&mut self) -> (r: Result<u64, ()>)
        requires
            old(self).wf(),
        ensures
            final(self)@ == old(self)@.after_back(),
            final(self).wf(),
            final(self)@.wf(),
            old(self)@.checkpoints.len() == 0 ==> r is Err,
            old(self)@.checkpoints.len() > 0 ==> r == Ok::<u64, ()>(
                old(self)@.checkpoints.last() as u64,
            ),
    {
        match self.last_positions.pop() {
            Some(position) => {
                assert(self@.checkpoints =~= old(self)@.checkpoints.drop_last());
                assert(old(self)@.checkpoints.last() == position);
                self.position = position;
                self.peeked_char = None;
                Ok(position as u64)
            },
            None => Err(()),
        }
    }
}

} // verus!
