//! Reading records from bytes held in memory: four lines per record, each
//! ended by a line feed, which a carriage return may precede.

use vstd::prelude::*;

use crate::bytes::{first_rejected, lemma_first_rejected, lemma_first_rejected_at};
use crate::fastq::record::{Record, RecordView};

verus! {

/// The number of bytes before the first line feed; `bytes.len()` when there
/// is none.
pub open spec fn line_end(bytes: Seq<u8>) -> int {
    first_rejected(bytes, |b: u8| b != 0x0a)
}

/// The number of bytes that the first line takes up, its line feed
/// included. A last line needs no line feed.
pub open spec fn line_length(bytes: Seq<u8>) -> int {
    if line_end(bytes) < bytes.len() {
        line_end(bytes) + 1
    } else {
        line_end(bytes)
    }
}

/// The first line without its ending: the line feed and, before a line
/// feed, one carriage return.
pub open spec fn line_content(bytes: Seq<u8>) -> Seq<u8> {
    let line = bytes.take(line_end(bytes));
    if line_end(bytes) < bytes.len() && line.len() > 0 && line.last() == 0x0d {
        line.drop_last()
    } else {
        line
    }
}

/// What follows the first line.
pub open spec fn after_line(bytes: Seq<u8>) -> Seq<u8> {
    bytes.skip(line_length(bytes))
}

/// The record that the first four lines make up. Lines that the bytes do
/// not hold are empty.
pub open spec fn first_record(bytes: Seq<u8>) -> RecordView {
    RecordView {
        name: line_content(bytes),
        sequence: line_content(after_line(bytes)),
        plus_line: line_content(after_line(after_line(bytes))),
        quality_scores: line_content(after_line(after_line(after_line(bytes)))),
    }
}

/// The number of bytes that the first four lines take up.
pub open spec fn record_length(bytes: Seq<u8>) -> int {
    line_length(bytes) + line_length(after_line(bytes)) + line_length(
        after_line(after_line(bytes)),
    ) + line_length(after_line(after_line(after_line(bytes))))
}

/// The records that the bytes hold, in order.
pub open spec fn records(bytes: Seq<u8>) -> Seq<RecordView>
    decreases bytes.len(),
{
    if bytes.len() == 0 {
        Seq::empty()
    } else {
        proof {
            lemma_record_length(bytes);
        }
        seq![first_record(bytes)] + records(bytes.skip(record_length(bytes)))
    }
}

/// A line takes up no more bytes than there are, and at least one where
/// there is any.
pub proof fn lemma_line_length(bytes: Seq<u8>)
    ensures
        0 <= line_end(bytes) <= line_length(bytes) <= bytes.len(),
        bytes.len() > 0 ==> line_length(bytes) >= 1,
        after_line(bytes).len() == bytes.len() - line_length(bytes),
{
    lemma_first_rejected(bytes, |b: u8| b != 0x0a);
}

/// A record takes up no more bytes than there are, and at least one where
/// there is any.
pub proof fn lemma_record_length(bytes: Seq<u8>)
    ensures
        0 <= record_length(bytes) <= bytes.len(),
        bytes.len() > 0 ==> record_length(bytes) >= 1,
        bytes.skip(record_length(bytes)) == after_line(
            after_line(after_line(after_line(bytes))),
        ),
{
    let b1 = after_line(bytes);
    let b2 = after_line(b1);
    let b3 = after_line(b2);
    lemma_line_length(bytes);
    lemma_line_length(b1);
    lemma_line_length(b2);
    lemma_line_length(b3);
    assert(b2 =~= bytes.skip(line_length(bytes) + line_length(b1)));
    assert(b3 =~= bytes.skip(line_length(bytes) + line_length(b1) + line_length(b2)));
    assert(after_line(b3) =~= bytes.skip(record_length(bytes)));
}

/// A line as a stream hands it out, through its line feed if it has one,
/// without its ending: the line feed and, before it, one carriage return.
pub open spec fn trimmed(line: Seq<u8>) -> Seq<u8> {
    if line.len() > 0 && line.last() == 0x0a {
        let content = line.drop_last();
        if content.len() > 0 && content.last() == 0x0d {
            content.drop_last()
        } else {
            content
        }
    } else {
        line
    }
}

/// The content of the first line is that line, taken through its line
/// feed, without its ending.
pub proof fn lemma_line_content_is_trimmed(bytes: Seq<u8>)
    ensures
        line_content(bytes) == trimmed(bytes.take(line_length(bytes))),
{
    lemma_first_rejected(bytes, |b: u8| b != 0x0a);
    let line = bytes.take(line_length(bytes));
    if line_end(bytes) < bytes.len() {
        assert(line.last() == 0x0a);
        assert(line.drop_last() =~= bytes.take(line_end(bytes)));
    } else {
        assert(line =~= bytes.take(line_end(bytes)));
        if line.len() > 0 {
            assert(line.last() == bytes[bytes.len() - 1]);
        }
    }
}

/// Takes the ending off a line that was read through its line feed: the
/// line feed and, before it, one carriage return. A line without a line
/// feed, the last of a stream, stays as it is.
pub fn trim_line_ending(line: &mut Vec<u8>)
    ensures
        final(line)@ == trimmed(old(line)@),
{
    let n = line.len();
    if n > 0 && line[n - 1] == 0x0a {
        line.pop();
        if n > 1 && line[n - 2] == 0x0d {
            line.pop();
        }
    }
}

/// A reader of records over bytes in memory. It hands out one record per
/// call and can be opened again on the same bytes.
pub struct Reader<'a> {
    bytes: &'a [u8],
    position: usize,
}

impl<'a> View for Reader<'a> {
    type V = Seq<u8>;

    /// The bytes that are still to be read.
    closed spec fn view(&self) -> Seq<u8> {
        self.bytes@.skip(self.position as int)
    }
}

impl<'a> Reader<'a> {
    #[verifier::type_invariant]
    spec fn well_formed(&self) -> bool {
        self.position <= self.bytes@.len()
    }

    /// All the bytes that the reader was opened on.
    pub closed spec fn source(&self) -> Seq<u8> {
        self.bytes@
    }

    /// A reader at the start of `bytes`.
    pub fn new(bytes: &'a [u8]) -> (reader: Self)
        ensures
            reader@ == bytes@,
            reader.source() == bytes@,
    {
        Reader { bytes, position: 0 }
    }

    /// A reader at the start of the same bytes.
    pub fn reopen(&self) -> (reader: Self)
        ensures
            reader@ == self.source(),
            reader.source() == self.source(),
    {
        Reader { bytes: self.bytes, position: 0 }
    }

    /// The number of bytes that are still to be read.
    pub fn remaining(&self) -> (n: usize)
        ensures
            n == self@.len(),
    {
        proof {
            use_type_invariant(self);
        }
        self.bytes.len() - self.position
    }

    /// Reads one line into `line`, without its ending, and returns the
    /// number of bytes that the line took up: 0 at the end of the bytes.
    fn read_line(&mut self, line: &mut Vec<u8>) -> (n: usize)
        requires
            old(line)@.len() == 0,
        ensures
            n == line_length(old(self)@),
            final(line)@ == line_content(old(self)@),
            final(self)@ == after_line(old(self)@),
            final(self).source() == old(self).source(),
    {
        proof {
            use_type_invariant(&*self);
        }
        let start = self.position;
        let bytes = self.bytes;
        let ghost rest = bytes@.skip(start as int);
        let mut at: usize = start;
        while at < bytes.len() && bytes[at] != 0x0a
            invariant
                start <= at <= bytes.len(),
                rest == bytes@.skip(start as int),
                line@ == rest.take(at - start),
                forall|j: int| 0 <= j < at - start ==> #[trigger] rest[j] != 0x0a,
            decreases bytes.len() - at,
        {
            proof {
                assert(rest.take(at + 1 - start) =~= rest.take(at - start).push(bytes@[at as int]));
            }
            line.push(bytes[at]);
            at += 1;
        }
        proof {
            lemma_first_rejected_at(rest, |b: u8| b != 0x0a, at - start);
        }
        if at < bytes.len() {
            at += 1;
            if line.len() > 0 && line[line.len() - 1] == 0x0d {
                line.pop();
            }
        }
        self.position = at;
        proof {
            assert(bytes@.skip(at as int) =~= rest.skip(at - start));
        }
        at - start
    }

    /// Clears `record` and fills it with the next four lines. Returns the
    /// number of bytes that they took up, which is 0 exactly at the end of
    /// the bytes; the record is then empty.
    pub fn read_record(&mut self, record: &mut Record) -> (n: usize)
        ensures
            n == record_length(old(self)@),
            n == 0 <==> old(self)@.len() == 0,
            final(record)@ == first_record(old(self)@),
            final(self)@ == old(self)@.skip(n as int),
            final(self).source() == old(self).source(),
    {
        let total = self.remaining();
        let ghost b0 = self@;
        let ghost b1 = after_line(b0);
        let ghost b2 = after_line(b1);
        let ghost b3 = after_line(b2);
        proof {
            lemma_record_length(b0);
            lemma_line_length(b0);
            lemma_line_length(b1);
            lemma_line_length(b2);
            lemma_line_length(b3);
        }
        record.clear();
        let mut n = self.read_line(record.name_mut());
        assert(n + line_length(b1) <= total);
        n += self.read_line(record.sequence_mut());
        assert(n + line_length(b2) <= total);
        n += self.read_line(record.plus_line_mut());
        assert(n + line_length(b3) <= total);
        n += self.read_line(record.quality_scores_mut());
        n
    }
}

} // verus!
