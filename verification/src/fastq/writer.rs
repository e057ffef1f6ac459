//! Writing records as bytes: each of the four lines, followed by a line
//! feed.

use vstd::prelude::*;

use crate::bytes::{lemma_first_rejected_at, push_all};
use crate::fastq::reader::{
    after_line, first_record, lemma_record_length, line_content, line_end, line_length,
    record_length, records,
};
use crate::fastq::record::{Record, RecordView};

verus! {

/// The bytes of a record: its four lines, each followed by a line feed.
pub open spec fn written(r: RecordView) -> Seq<u8> {
    r.name.push(0x0a) + r.sequence.push(0x0a) + r.plus_line.push(0x0a) + r.quality_scores.push(
        0x0a,
    )
}

/// Whether the bytes can stand as one line and be read back: they hold no
/// line feed and do not end in a carriage return.
pub open spec fn is_line(bytes: Seq<u8>) -> bool {
    &&& forall|i: int| 0 <= i < bytes.len() ==> #[trigger] bytes[i] != 0x0a
    &&& bytes.len() > 0 ==> bytes.last() != 0x0d
}

/// Whether each of the four lines of a record can stand as one line.
pub open spec fn is_writable(r: RecordView) -> bool {
    is_line(r.name) && is_line(r.sequence) && is_line(r.plus_line) && is_line(r.quality_scores)
}

/// Appends the bytes of a record to `out`.
pub fn write_record(record: &Record, out: &mut Vec<u8>)
    ensures
        final(out)@ == old(out)@ + written(record@),
{
    push_all(out, record.name());
    out.push(0x0a);
    push_all(out, record.sequence());
    out.push(0x0a);
    push_all(out, record.plus_line());
    out.push(0x0a);
    push_all(out, record.quality_scores());
    out.push(0x0a);
    proof {
        assert(out@ =~= old(out)@ + written(record@));
    }
}

/// A line that was written with its line feed is read back as it was, and
/// reading goes on behind the line feed.
pub proof fn lemma_line_read_back(line: Seq<u8>, rest: Seq<u8>)
    requires
        is_line(line),
    ensures
        line_content(line.push(0x0a) + rest) == line,
        line_length(line.push(0x0a) + rest) == line.len() + 1,
        after_line(line.push(0x0a) + rest) == rest,
{
    let bytes = line.push(0x0a) + rest;
    assert forall|j: int| 0 <= j < line.len() implies #[trigger] bytes[j] != 0x0a by {
        assert(bytes[j] == line[j]);
    }
    assert(bytes[line.len() as int] == 0x0a);
    lemma_first_rejected_at(bytes, |b: u8| b != 0x0a, line.len() as int);
    assert(line_end(bytes) == line.len());
    assert(bytes.take(line.len() as int) =~= line);
    assert(bytes.skip(line.len() as int + 1) =~= rest);
}

/// A record that was written is read back as it was, and what follows it
/// is read as what follows it.
pub proof fn lemma_record_read_back(r: RecordView, rest: Seq<u8>)
    requires
        is_writable(r),
    ensures
        first_record(written(r) + rest) == r,
        record_length(written(r) + rest) == written(r).len(),
        records(written(r) + rest) == seq![r] + records(rest),
{
    let bytes = written(r) + rest;
    let b3 = r.quality_scores.push(0x0a) + rest;
    let b2 = r.plus_line.push(0x0a) + b3;
    let b1 = r.sequence.push(0x0a) + b2;
    assert(bytes =~= r.name.push(0x0a) + b1);
    lemma_line_read_back(r.name, b1);
    lemma_line_read_back(r.sequence, b2);
    lemma_line_read_back(r.plus_line, b3);
    lemma_line_read_back(r.quality_scores, rest);
    lemma_record_length(bytes);
    assert(bytes.skip(record_length(bytes)) == rest);
}

/// The bytes of records, one after the other.
pub open spec fn written_all(stream: Seq<RecordView>) -> Seq<u8>
    decreases stream.len(),
{
    if stream.len() == 0 {
        Seq::empty()
    } else {
        written_all(stream.drop_last()) + written(stream.last())
    }
}

/// The bytes of records are those of the first, then those of the others.
pub proof fn lemma_written_all_from_the_first(stream: Seq<RecordView>)
    requires
        stream.len() > 0,
    ensures
        written_all(stream) == written(stream.first()) + written_all(stream.skip(1)),
    decreases stream.len(),
{
    let init = stream.drop_last();
    let tail = stream.skip(1);
    if stream.len() == 1 {
        assert(written_all(init) + written(stream.last()) =~= written(stream.first())
            + written_all(tail));
    } else {
        assert(tail.last() == stream.last());
        lemma_written_all_from_the_first(init);
        assert(init.skip(1) =~= tail.drop_last());
        assert(init.first() == stream.first());
        assert((written(stream.first()) + written_all(init.skip(1))) + written(stream.last())
            =~= written(stream.first()) + (written_all(tail.drop_last()) + written(tail.last())));
    }
}

/// Records that were written one after the other are read back as they
/// were, and no more.
pub proof fn lemma_records_read_back(stream: Seq<RecordView>)
    requires
        forall|i: int| 0 <= i < stream.len() ==> is_writable(#[trigger] stream[i]),
    ensures
        records(written_all(stream)) == stream,
    decreases stream.len(),
{
    if stream.len() == 0 {
        assert(records(written_all(stream)) =~= stream);
    } else {
        let tail = stream.skip(1);
        lemma_written_all_from_the_first(stream);
        assert forall|i: int| 0 <= i < tail.len() implies is_writable(#[trigger] tail[i]) by {
            assert(tail[i] == stream[i + 1]);
        }
        lemma_records_read_back(tail);
        lemma_record_read_back(stream.first(), written_all(tail));
        assert(seq![stream.first()] + tail =~= stream);
    }
}

} // verus!
