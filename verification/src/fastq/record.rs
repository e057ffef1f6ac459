//! One four-line record, held as four reusable byte buffers.

use vstd::prelude::*;

use crate::bytes::bytes_equal;

verus! {

/// What a [`Record`] holds: the bytes of its four lines.
pub struct RecordView {
    pub name: Seq<u8>,
    pub sequence: Seq<u8>,
    pub plus_line: Seq<u8>,
    pub quality_scores: Seq<u8>,
}

/// The record without any line content.
pub open spec fn empty_record() -> RecordView {
    RecordView {
        name: Seq::empty(),
        sequence: Seq::empty(),
        plus_line: Seq::empty(),
        quality_scores: Seq::empty(),
    }
}

/// Whether `b` separates a name from its mate marker or its metadata.
pub open spec fn is_name_separator(b: u8) -> bool {
    b == 0x2f || b == 0x20
}

/// Whether any byte of `name` is a separator.
pub open spec fn has_name_separator(name: Seq<u8>) -> bool {
    exists|i: int| 0 <= i < name.len() && is_name_separator(#[trigger] name[i])
}

/// The position of the last separator of `name`; `name.len()` when it has none.
pub open spec fn last_name_separator(name: Seq<u8>) -> int
    decreases name.len(),
{
    if name.len() == 0 {
        0
    } else if is_name_separator(name.last()) {
        name.len() - 1
    } else {
        let before = last_name_separator(name.drop_last());
        if before < name.len() - 1 {
            before
        } else {
            name.len() as int
        }
    }
}

/// The name that identifies a read: `name` up to its last separator, or all
/// of it when it has none.
pub open spec fn normalized_name(name: Seq<u8>) -> Seq<u8> {
    name.take(last_name_separator(name))
}

/// A record with its name normalized and the other lines untouched.
pub open spec fn normalized(r: RecordView) -> RecordView {
    RecordView { name: normalized_name(r.name), ..r }
}

/// The last separator of a name is a separator, nothing after it is one, and
/// a name without separators has its length as that position.
pub proof fn lemma_last_name_separator(name: Seq<u8>)
    ensures
        0 <= last_name_separator(name) <= name.len(),
        has_name_separator(name) <==> last_name_separator(name) < name.len(),
        has_name_separator(name) ==> is_name_separator(name[last_name_separator(name)]),
        forall|j: int|
            last_name_separator(name) < j < name.len() ==> !is_name_separator(#[trigger] name[j]),
    decreases name.len(),
{
    if name.len() > 0 {
        let init = name.drop_last();
        lemma_last_name_separator(init);
        if is_name_separator(name.last()) {
            assert(is_name_separator(name[name.len() - 1]));
        } else if has_name_separator(init) {
            let i = choose|i: int| 0 <= i < init.len() && is_name_separator(#[trigger] init[i]);
            assert(is_name_separator(name[i]));
            assert(name[last_name_separator(init)] == init[last_name_separator(init)]);
            assert forall|j: int| last_name_separator(name) < j < name.len() implies !is_name_separator(
                #[trigger] name[j],
            ) by {
                if j < init.len() {
                    assert(name[j] == init[j]);
                }
            }
        } else {
            assert forall|i: int| 0 <= i < name.len() implies !is_name_separator(
                #[trigger] name[i],
            ) by {
                if i < init.len() {
                    assert(name[i] == init[i]);
                }
            }
        }
    }
}

/// A name without a separator is its own normalized name.
pub proof fn lemma_normalized_name_without_separator(name: Seq<u8>)
    requires
        !has_name_separator(name),
    ensures
        normalized_name(name) == name,
{
    lemma_last_name_separator(name);
    assert(name.take(name.len() as int) =~= name);
}

/// A normalized name followed by a separator and a suffix free of separators
/// normalizes back to itself.
pub proof fn lemma_normalized_name_strips_suffix(stem: Seq<u8>, separator: u8, suffix: Seq<u8>)
    requires
        is_name_separator(separator),
        !has_name_separator(suffix),
    ensures
        normalized_name(stem.push(separator) + suffix) == stem,
{
    let name = stem.push(separator) + suffix;
    lemma_last_name_separator(name);
    let at = stem.len() as int;
    assert(name[at] == separator);
    let last = last_name_separator(name);
    if last > at {
        assert(name[last] == suffix[last - at - 1]);
    }
    assert(name.take(at) =~= stem);
}

/// One record: a name line, a sequence line, a plus line and a line of
/// quality scores. It holds whatever bytes it is given; the validators judge
/// them.
#[derive(Debug)]
pub struct Record {
    name: Vec<u8>,
    sequence: Vec<u8>,
    plus_line: Vec<u8>,
    quality_scores: Vec<u8>,
}

impl View for Record {
    type V = RecordView;

    closed spec fn view(&self) -> RecordView {
        RecordView {
            name: self.name@,
            sequence: self.sequence@,
            plus_line: self.plus_line@,
            quality_scores: self.quality_scores@,
        }
    }
}

impl Record {
    /// A record of the four given lines.
    pub fn new(name: Vec<u8>, sequence: Vec<u8>, plus_line: Vec<u8>, quality_scores: Vec<u8>) -> (r:
        Self)
        ensures
            r@ == (RecordView {
                name: name@,
                sequence: sequence@,
                plus_line: plus_line@,
                quality_scores: quality_scores@,
            }),
    {
        Self { name, sequence, plus_line, quality_scores }
    }

    pub fn name(&self) -> (r: &[u8])
        ensures
            r@ == self@.name,
    {
        self.name.as_slice()
    }

    pub fn name_mut(&mut self) -> (r: &mut Vec<u8>)
        ensures
            r@ == old(self)@.name,
            final(self)@ == (RecordView { name: final(r)@, ..old(self)@ }),
    {
        &mut self.name
    }

    pub fn sequence(&self) -> (r: &[u8])
        ensures
            r@ == self@.sequence,
    {
        self.sequence.as_slice()
    }

    pub fn sequence_mut(&mut self) -> (r: &mut Vec<u8>)
        ensures
            r@ == old(self)@.sequence,
            final(self)@ == (RecordView { sequence: final(r)@, ..old(self)@ }),
    {
        &mut self.sequence
    }

    pub fn plus_line(&self) -> (r: &[u8])
        ensures
            r@ == self@.plus_line,
    {
        self.plus_line.as_slice()
    }

    pub fn plus_line_mut(&mut self) -> (r: &mut Vec<u8>)
        ensures
            r@ == old(self)@.plus_line,
            final(self)@ == (RecordView { plus_line: final(r)@, ..old(self)@ }),
    {
        &mut self.plus_line
    }

    pub fn quality_scores(&self) -> (r: &[u8])
        ensures
            r@ == self@.quality_scores,
    {
        self.quality_scores.as_slice()
    }

    pub fn quality_scores_mut(&mut self) -> (r: &mut Vec<u8>)
        ensures
            r@ == old(self)@.quality_scores,
            final(self)@ == (RecordView { quality_scores: final(r)@, ..old(self)@ }),
    {
        &mut self.quality_scores
    }

    /// Empties the four lines and keeps their buffers.
    pub fn clear(&mut self)
        ensures
            final(self)@ == empty_record(),
    {
        self.name.clear();
        self.sequence.clear();
        self.plus_line.clear();
        self.quality_scores.clear();
    }

    /// Normalizes the name: cuts it at its last `/` or space, if it has one.
    /// To be called once after the lines were filled and before the record
    /// is validated.
    pub fn reset(&mut self)
        ensures
            final(self)@ == normalized(old(self)@),
    {
        let mut i: usize = self.name.len();
        while i > 0 && !(self.name[i - 1] == 0x2f || self.name[i - 1] == 0x20)
            invariant
                i <= self.name.len(),
                self.name == old(self).name,
                forall|j: int| i <= j < self.name.len() ==> !is_name_separator(#[trigger] self.name@[j]),
            decreases i,
        {
            i -= 1;
        }
        proof {
            lemma_last_name_separator(self.name@);
            if i > 0 {
                assert(is_name_separator(self.name@[i - 1]));
            }
        }
        if i > 0 {
            self.name.truncate(i - 1);
        }
        proof {
            assert(final(self)@.name =~= normalized_name(old(self)@.name));
        }
    }
}

impl Default for Record {
    /// The record without any line content.
    fn default() -> (r: Self)
        ensures
            r@ == empty_record(),
    {
        Self { name: Vec::new(), sequence: Vec::new(), plus_line: Vec::new(), quality_scores: Vec::new() }
    }
}

impl Clone for Record {
    fn clone(&self) -> (r: Self)
        ensures
            r@ == self@,
    {
        Self {
            name: self.name.clone(),
            sequence: self.sequence.clone(),
            plus_line: self.plus_line.clone(),
            quality_scores: self.quality_scores.clone(),
        }
    }
}

impl PartialEq for Record {
    /// Two records are equal when their four lines are.
    fn eq(&self, other: &Self) -> (r: bool) {
        bytes_equal(self.name.as_slice(), other.name.as_slice()) && bytes_equal(
            self.sequence.as_slice(),
            other.sequence.as_slice(),
        ) && bytes_equal(self.plus_line.as_slice(), other.plus_line.as_slice()) && bytes_equal(
            self.quality_scores.as_slice(),
            other.quality_scores.as_slice(),
        )
    }
}

impl vstd::std_specs::cmp::PartialEqSpecImpl for Record {
    open spec fn obeys_eq_spec() -> bool {
        true
    }

    open spec fn eq_spec(&self, other: &Self) -> bool {
        self@ == other@
    }
}

impl Eq for Record {

}

} // verus!
