//! Making up records: pairs of reads whose residues and quality scores
//! are drawn at random and whose form is that of well-formed records.

use rand::rngs::SmallRng;
use rand::{RngCore, SeedableRng};
use vstd::prelude::*;

use crate::bytes::{lemma_first_rejected_at, push_all};
use crate::fastq::record::{
    has_name_separator, lemma_normalized_name_strips_suffix, normalized, Record, RecordView,
};
use crate::fastq::writer::{is_writable, write_record, written_all};
use crate::text::{decimal_digits, digit_byte, lemma_decimal_digits, push_decimal_digits};
use crate::validators::paired::PairedReadValidator;
use crate::validators::single::{is_base, is_quality_symbol, SingleReadValidator};

verus! {

/// Which read of a pair a record is.
#[derive(Clone, Copy, Debug, PartialEq, Eq, Structural)]
pub enum Mate {
    First,
    Second,
}

impl Mate {
    /// The number that marks the mate at the end of a name: 1 or 2.
    pub open spec fn spec_number(self) -> nat {
        match self {
            Mate::First => 1,
            Mate::Second => 2,
        }
    }

    pub fn number(self) -> (n: u8)
        ensures
            n == self.spec_number(),
    {
        match self {
            Mate::First => 1,
            Mate::Second => 2,
        }
    }
}

/// The residue that a draw stands for: one of `ACGT`.
pub open spec fn base_of_draw(draw: u8) -> u8 {
    if draw % 4 == 0 {
        0x41
    } else if draw % 4 == 1 {
        0x43
    } else if draw % 4 == 2 {
        0x47
    } else {
        0x54
    }
}

/// The quality symbol that a draw stands for: one of the 41 from `!` on.
pub open spec fn quality_of_draw(draw: u8) -> u8 {
    (0x21 + (draw / 4) % 41) as u8
}

/// The name that the reads of pair `number` share: `@fqlib:` and the
/// number.
pub open spec fn generated_name(number: u64) -> Seq<u8> {
    seq![0x40u8, 0x66u8, 0x71u8, 0x6cu8, 0x69u8, 0x62u8, 0x3au8] + decimal_digits(number as nat)
}

/// The residues that the draws stand for.
pub open spec fn generated_sequence(draws: Seq<u8>) -> Seq<u8> {
    Seq::new(draws.len(), |i: int| base_of_draw(draws[i]))
}

/// The quality symbols that the draws stand for.
pub open spec fn generated_quality_scores(draws: Seq<u8>) -> Seq<u8> {
    Seq::new(draws.len(), |i: int| quality_of_draw(draws[i]))
}

/// The read `mate` of pair `number`, with a residue and a quality score
/// for each draw. Its name ends in `/1` or `/2`.
pub open spec fn generated_record(number: u64, mate: Mate, draws: Seq<u8>) -> RecordView {
    RecordView {
        name: generated_name(number).push(0x2f).push(digit_byte(mate.spec_number())),
        sequence: generated_sequence(draws),
        plus_line: seq![0x2bu8],
        quality_scores: generated_quality_scores(draws),
    }
}

/// Fills `record` with the read `mate` of pair `number`: as many residues
/// and quality scores as there are draws.
pub fn generate_record(record: &mut Record, number: u64, mate: Mate, draws: &[u8])
    ensures
        final(record)@ == generated_record(number, mate, draws@),
{
    record.clear();
    let mut name: Vec<u8> = Vec::new();
    name.push(0x40);
    name.push(0x66);
    name.push(0x71);
    name.push(0x6c);
    name.push(0x69);
    name.push(0x62);
    name.push(0x3a);
    push_decimal_digits(&mut name, number as u128);
    name.push(0x2f);
    name.push(0x30 + mate.number());
    let mut sequence: Vec<u8> = Vec::new();
    let mut quality_scores: Vec<u8> = Vec::new();
    let mut i: usize = 0;
    while i < draws.len()
        invariant
            i <= draws.len(),
            sequence@ == generated_sequence(draws@.take(i as int)),
            quality_scores@ == generated_quality_scores(draws@.take(i as int)),
        decreases draws.len() - i,
    {
        let draw = draws[i];
        let base: u8 = if draw % 4 == 0 {
            0x41
        } else if draw % 4 == 1 {
            0x43
        } else if draw % 4 == 2 {
            0x47
        } else {
            0x54
        };
        proof {
            let next = draws@.take(i + 1);
            assert(generated_sequence(next) =~= generated_sequence(draws@.take(i as int)).push(
                base_of_draw(draw),
            ));
            assert(generated_quality_scores(next) =~= generated_quality_scores(
                draws@.take(i as int),
            ).push(quality_of_draw(draw)));
        }
        sequence.push(base);
        quality_scores.push(0x21 + (draw / 4) % 41);
        i += 1;
    }
    proof {
        assert(draws@.take(i as int) =~= draws@);
        assert(name@ =~= generated_name(number).push(0x2f).push(digit_byte(mate.spec_number())));
    }
    push_all(record.name_mut(), name.as_slice());
    push_all(record.sequence_mut(), sequence.as_slice());
    record.plus_line_mut().push(0x2b);
    push_all(record.quality_scores_mut(), quality_scores.as_slice());
    proof {
        assert(record@.name =~= name@);
        assert(record@.sequence =~= sequence@);
        assert(record@.plus_line =~= seq![0x2bu8]);
        assert(record@.quality_scores =~= quality_scores@);
    }
}

/// The small, fast generator of random numbers of the crate `rand`.
#[verifier::external_type_specification]
#[verifier::external_body]
pub struct ExSmallRng(SmallRng);

/// `SmallRng::seed_from_u64`: a generator of random numbers in the state
/// that the seed gives. Nothing is claimed of it.
#[verifier::external_body]
fn seeded(seed: u64) -> SmallRng {
    SmallRng::seed_from_u64(seed)
}

/// `fill_bytes` of `SmallRng`: overwrites each byte of `draws` with a
/// random one. All that is claimed is that there are as many bytes after
/// the call as before.
#[verifier::external_body]
fn draw(rng: &mut SmallRng, draws: &mut Vec<u8>)
    ensures
        final(draws)@.len() == old(draws)@.len(),
{
    rng.fill_bytes(draws.as_mut_slice())
}

/// Whether `r` is the read `mate` of pair `number` for some draws, one for
/// each of `read_length` residues.
pub open spec fn is_generated_record(r: RecordView, number: u64, mate: Mate, read_length: nat) -> bool {
    exists|draws: Seq<u8>|
        draws.len() == read_length && r == #[trigger] generated_record(number, mate, draws)
}

/// Whether `stream` holds the reads `mate` of the pairs numbered from 1 on,
/// each with `read_length` residues.
pub open spec fn is_generated_stream(stream: Seq<RecordView>, mate: Mate, read_length: nat) -> bool {
    forall|i: int|
        0 <= i < stream.len() ==> is_generated_record(
            #[trigger] stream[i],
            (i + 1) as u64,
            mate,
            read_length,
        )
}

/// Whether `bytes` are a generated file: the bytes of `count` records, the
/// reads `mate` of the pairs numbered from 1 on, each with `read_length`
/// residues.
pub open spec fn is_generated_file(bytes: Seq<u8>, mate: Mate, count: nat, read_length: nat) -> bool {
    exists|stream: Seq<RecordView>|
        stream.len() == count && is_generated_stream(stream, mate, read_length) && bytes
            == #[trigger] written_all(stream)
}

/// A source of generated pairs of reads, all of one length.
pub struct Generator {
    rng: SmallRng,
    draws: Vec<u8>,
}

impl Generator {
    /// The number of residues of each read.
    pub closed spec fn read_length(&self) -> nat {
        self.draws@.len()
    }

    /// A generator of reads of `read_length` residues, which draws from the
    /// random numbers that follow from `seed`.
    pub fn new(seed: u64, read_length: usize) -> (generator: Self)
        ensures
            generator.read_length() == read_length,
    {
        let mut draws: Vec<u8> = Vec::new();
        while draws.len() < read_length
            invariant
                draws@.len() <= read_length,
            decreases read_length - draws@.len(),
        {
            draws.push(0);
        }
        Generator { rng: seeded(seed), draws }
    }

    /// Fills `record` with the read `mate` of pair `number`, its residues
    /// and quality scores drawn at random.
    pub fn next_record(&mut self, record: &mut Record, number: u64, mate: Mate)
        ensures
            final(self).read_length() == old(self).read_length(),
            is_generated_record(final(record)@, number, mate, old(self).read_length()),
    {
        draw(&mut self.rng, &mut self.draws);
        generate_record(record, number, mate, self.draws.as_slice());
    }
}

/// Generates `record_count` pairs of reads, numbered from 1, and hands
/// back the bytes of two files: the first holds read 1 of each pair, the
/// second read 2.
pub fn generate(generator: &mut Generator, record_count: u64) -> (files: (Vec<u8>, Vec<u8>))
    ensures
        final(generator).read_length() == old(generator).read_length(),
        is_generated_file(
            files.0@,
            Mate::First,
            record_count as nat,
            old(generator).read_length(),
        ),
        is_generated_file(
            files.1@,
            Mate::Second,
            record_count as nat,
            old(generator).read_length(),
        ),
{
    let mut r1: Vec<u8> = Vec::new();
    let mut r2: Vec<u8> = Vec::new();
    let mut record = Record::default();
    let ghost read_length = generator.read_length();
    let ghost stream_1 = Seq::<RecordView>::empty();
    let ghost stream_2 = Seq::<RecordView>::empty();
    let mut count: u64 = 0;
    while count < record_count
        invariant
            count <= record_count,
            generator.read_length() == read_length,
            stream_1.len() == count,
            stream_2.len() == count,
            is_generated_stream(stream_1, Mate::First, read_length),
            is_generated_stream(stream_2, Mate::Second, read_length),
            r1@ == written_all(stream_1),
            r2@ == written_all(stream_2),
        decreases record_count - count,
    {
        count += 1;
        generator.next_record(&mut record, count, Mate::First);
        write_record(&record, &mut r1);
        proof {
            assert(stream_1.push(record@).drop_last() =~= stream_1);
            stream_1 = stream_1.push(record@);
        }
        generator.next_record(&mut record, count, Mate::Second);
        write_record(&record, &mut r2);
        proof {
            assert(stream_2.push(record@).drop_last() =~= stream_2);
            stream_2 = stream_2.push(record@);
        }
    }
    (r1, r2)
}

/// The normalized name of a generated read is the name of its pair.
pub proof fn lemma_generated_name(number: u64, mate: Mate, draws: Seq<u8>)
    ensures
        normalized(generated_record(number, mate, draws)).name == generated_name(number),
{
    let stem = generated_name(number);
    let suffix = seq![digit_byte(mate.spec_number())];
    assert(!has_name_separator(suffix));
    assert(stem.push(0x2f).push(digit_byte(mate.spec_number())) =~= stem.push(0x2f) + suffix);
    lemma_normalized_name_strips_suffix(stem, 0x2f, suffix);
}

/// A generated read with at least one residue keeps every rule for single
/// records, and can be written and read back.
pub proof fn lemma_generated_record_is_valid(
    number: u64,
    mate: Mate,
    draws: Seq<u8>,
    validator: SingleReadValidator,
)
    requires
        draws.len() > 0,
    ensures
        validator.spec_validate(normalized(generated_record(number, mate, draws))) is None,
        is_writable(generated_record(number, mate, draws)),
{
    let r = generated_record(number, mate, draws);
    lemma_generated_name(number, mate, draws);
    lemma_decimal_digits(number as nat);
    assert(generated_name(number)[0] == 0x40);
    lemma_first_rejected_at(r.sequence, |b: u8| is_base(b), r.sequence.len() as int);
    lemma_first_rejected_at(
        r.quality_scores,
        |b: u8| is_quality_symbol(b),
        r.quality_scores.len() as int,
    );
    assert forall|i: int| 0 <= i < r.name.len() implies #[trigger] r.name[i] != 0x0a by {
        if 7 <= i < 7 + decimal_digits(number as nat).len() {
            assert(r.name[i] == decimal_digits(number as nat)[i - 7]);
        }
    }
}

/// The two reads of a generated pair carry the same name.
pub proof fn lemma_generated_pair_is_valid(
    number: u64,
    draws_1: Seq<u8>,
    draws_2: Seq<u8>,
    validator: PairedReadValidator,
)
    ensures
        validator.spec_validate(
            normalized(generated_record(number, Mate::First, draws_1)),
            normalized(generated_record(number, Mate::Second, draws_2)),
        ) is None,
{
    lemma_generated_name(number, Mate::First, draws_1);
    lemma_generated_name(number, Mate::Second, draws_2);
}

} // verus!
