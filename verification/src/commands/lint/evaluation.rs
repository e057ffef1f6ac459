//! What a run evaluates, in what order, and what the mode makes of the
//! violations: the model that the contracts of a run are stated over.

use vstd::multiset::Multiset;
use vstd::prelude::*;

use crate::commands::lint::message::error_message;
use crate::fastq::record::{normalized, normalized_name, RecordView};
use crate::validators::error::ErrorView;
use crate::validators::level::LintMode;
use crate::validators::paired::PairedReadValidator;
use crate::validators::single::duplicate_name::DuplicateNameValidator;
use crate::validators::single::SingleReadValidator;

verus! {

/// One validator's judgement of one record, or of one pair, with the file
/// and the number of the record that a violation is reported against.
pub struct Evaluation {
    pub result: Option<ErrorView>,
    pub pathname: Seq<char>,
    pub record_counter: nat,
}

/// The messages for the violations among the evaluations, in their order.
pub open spec fn findings(evaluations: Seq<Evaluation>) -> Seq<Seq<char>>
    decreases evaluations.len(),
{
    if evaluations.len() == 0 {
        Seq::empty()
    } else {
        let last = evaluations.last();
        findings(evaluations.drop_last()) + match last.result {
            Some(e) => seq![error_message(e, last.pathname, last.record_counter)],
            None => Seq::empty(),
        }
    }
}

/// The first of the messages, if there is any.
pub open spec fn first_of(messages: Seq<Seq<char>>) -> Option<Seq<char>> {
    if messages.len() > 0 {
        Some(messages[0])
    } else {
        None
    }
}

/// What the mode makes of messages: `Log` appends them all to the log and
/// goes on; `Panic` leaves the log alone and stops with the first.
pub open spec fn handled(
    lint_mode: LintMode,
    before: Seq<Seq<char>>,
    messages: Seq<Seq<char>>,
    after: Seq<Seq<char>>,
    stop: Option<Seq<char>>,
) -> bool {
    match lint_mode {
        LintMode::Log => after == before + messages && stop is None,
        LintMode::Panic => after == before && stop == first_of(messages),
    }
}

/// The evaluations of a stream: those of each item in turn, the items
/// numbered from `first`.
pub open spec fn scan<T>(
    items: Seq<T>,
    first: nat,
    evaluate: spec_fn(T, nat) -> Seq<Evaluation>,
) -> Seq<Evaluation>
    decreases items.len(),
{
    if items.len() == 0 {
        Seq::empty()
    } else {
        scan(items.drop_last(), first, evaluate) + evaluate(
            items.last(),
            (first + items.len() - 1) as nat,
        )
    }
}

/// The messages of two runs of evaluations, one after the other, are the
/// messages of the first followed by those of the second.
pub proof fn lemma_findings_concat(a: Seq<Evaluation>, b: Seq<Evaluation>)
    ensures
        findings(a + b) == findings(a) + findings(b),
    decreases b.len(),
{
    if b.len() == 0 {
        assert(a + b =~= a);
        assert(findings(a) + findings(b) =~= findings(a));
    } else {
        assert((a + b).drop_last() =~= a + b.drop_last());
        lemma_findings_concat(a, b.drop_last());
        let tail = match b.last().result {
            Some(e) => seq![error_message(e, b.last().pathname, b.last().record_counter)],
            None => Seq::empty(),
        };
        assert(findings(a + b) == findings(a + b.drop_last()) + tail);
        assert(findings(a) + findings(b.drop_last()) + tail =~= findings(a) + (findings(
            b.drop_last(),
        ) + tail));
    }
}

/// Scanning two runs of items, one after the other, gives the evaluations
/// of the first followed by those of the second, whose items are numbered
/// on from the first.
pub proof fn lemma_scan_concat<T>(
    a: Seq<T>,
    b: Seq<T>,
    first: nat,
    evaluate: spec_fn(T, nat) -> Seq<Evaluation>,
)
    ensures
        scan(a + b, first, evaluate) == scan(a, first, evaluate) + scan(
            b,
            first + a.len(),
            evaluate,
        ),
    decreases b.len(),
{
    if b.len() == 0 {
        assert(a + b =~= a);
        assert(scan(a, first, evaluate) + scan(b, first + a.len(), evaluate) =~= scan(
            a,
            first,
            evaluate,
        ));
    } else {
        assert((a + b).drop_last() =~= a + b.drop_last());
        lemma_scan_concat(a, b.drop_last(), first, evaluate);
        let tail = evaluate(b.last(), (first + a.len() + b.len() - 1) as nat);
        assert(scan(a + b, first, evaluate) == scan(a + b.drop_last(), first, evaluate) + tail);
        assert(scan(a, first, evaluate) + scan(b.drop_last(), first + a.len(), evaluate) + tail
            =~= scan(a, first, evaluate) + (scan(b.drop_last(), first + a.len(), evaluate) + tail));
    }
}

/// A run that has stopped stays stopped with the same message, whatever
/// evaluations would have followed.
pub proof fn lemma_stopped(
    lint_mode: LintMode,
    before: Seq<Seq<char>>,
    done: Seq<Evaluation>,
    rest: Seq<Evaluation>,
    after: Seq<Seq<char>>,
    stop: Option<Seq<char>>,
)
    requires
        handled(lint_mode, before, findings(done), after, stop),
        stop is Some,
    ensures
        handled(lint_mode, before, findings(done + rest), after, stop),
{
    lemma_findings_concat(done, rest);
}

/// What the mode makes of the messages of a stream and then of those of
/// its next item is what it makes of them all.
pub proof fn lemma_handled_next(
    lint_mode: LintMode,
    before: Seq<Seq<char>>,
    done: Seq<Evaluation>,
    logged: Seq<Seq<char>>,
    next: Seq<Evaluation>,
    after: Seq<Seq<char>>,
    stop: Option<Seq<char>>,
)
    requires
        handled(lint_mode, before, findings(done), logged, None),
        handled(lint_mode, logged, findings(next), after, stop),
    ensures
        handled(lint_mode, before, findings(done + next), after, stop),
{
    lemma_findings_concat(done, next);
    assert(before + findings(done) + findings(next) =~= before + (findings(done) + findings(next)));
    if findings(done).len() == 0 {
        assert(findings(done) + findings(next) =~= findings(next));
    }
}

/// The evaluations of one record: one by each validator, in their order.
pub open spec fn single_evaluations(
    validators: Seq<SingleReadValidator>,
    r: RecordView,
    pathname: Seq<char>,
    record_counter: nat,
) -> Seq<Evaluation> {
    Seq::new(
        validators.len(),
        |j: int| Evaluation { result: validators[j].spec_validate(r), pathname, record_counter },
    )
}

/// The evaluations of the two reads of a pair by the single-read
/// validators: all of them judge read 1, each in its order, and then all
/// of them judge read 2. What they find in read 2 is reported against the
/// second file.
pub open spec fn mate_evaluations(
    validators: Seq<SingleReadValidator>,
    r: RecordView,
    s: RecordView,
    pathname_1: Seq<char>,
    pathname_2: Seq<char>,
    record_counter: nat,
) -> Seq<Evaluation> {
    single_evaluations(validators, r, pathname_1, record_counter) + single_evaluations(
        validators,
        s,
        pathname_2,
        record_counter,
    )
}

/// The evaluations of a pair by the paired-read validators, in their
/// order. What they find is reported against the first file.
pub open spec fn paired_evaluations(
    validators: Seq<PairedReadValidator>,
    r: RecordView,
    s: RecordView,
    pathname: Seq<char>,
    record_counter: nat,
) -> Seq<Evaluation> {
    Seq::new(
        validators.len(),
        |j: int| Evaluation { result: validators[j].spec_validate(r, s), pathname, record_counter },
    )
}

/// All the evaluations of a pair: by the single-read validators, then by
/// the paired-read validators.
pub open spec fn pair_evaluations(
    single: Seq<SingleReadValidator>,
    paired: Seq<PairedReadValidator>,
    r: RecordView,
    s: RecordView,
    pathname_1: Seq<char>,
    pathname_2: Seq<char>,
    record_counter: nat,
) -> Seq<Evaluation> {
    mate_evaluations(single, r, s, pathname_1, pathname_2, record_counter) + paired_evaluations(
        paired,
        r,
        s,
        pathname_1,
        record_counter,
    )
}

/// The evaluation of one record in the second pass, by the validator of
/// duplicate names that has collected `names`.
pub open spec fn duplicate_evaluations(
    names: Multiset<Seq<u8>>,
    r: RecordView,
    pathname: Seq<char>,
    record_counter: nat,
) -> Seq<Evaluation> {
    seq![
        Evaluation {
            result: DuplicateNameValidator::spec_validate(names, r),
            pathname,
            record_counter,
        },
    ]
}

/// How a record of a single stream is evaluated: it is normalized, then
/// each validator judges it.
pub open spec fn single_rule(validators: Seq<SingleReadValidator>, pathname: Seq<char>) -> spec_fn(
    RecordView,
    nat,
) -> Seq<Evaluation> {
    |r: RecordView, record_counter: nat|
        single_evaluations(validators, normalized(r), pathname, record_counter)
}

/// The pairs of two streams: the records of the same number, as far as
/// both streams go.
pub open spec fn pairs_of(first: Seq<RecordView>, second: Seq<RecordView>) -> Seq<
    (RecordView, RecordView),
> {
    Seq::new(
        if first.len() <= second.len() {
            first.len()
        } else {
            second.len()
        },
        |i: int| (first[i], second[i]),
    )
}

/// The normalized names of a stream, each as often as it occurs.
pub open spec fn names_of(stream: Seq<RecordView>) -> Multiset<Seq<u8>>
    decreases stream.len(),
{
    if stream.len() == 0 {
        Multiset::empty()
    } else {
        names_of(stream.drop_last()).insert(normalized_name(stream.last().name))
    }
}

/// How a pair of two streams is evaluated: both records are normalized,
/// then the validators judge them.
pub open spec fn pair_rule(
    single: Seq<SingleReadValidator>,
    paired: Seq<PairedReadValidator>,
    pathname_1: Seq<char>,
    pathname_2: Seq<char>,
) -> spec_fn((RecordView, RecordView), nat) -> Seq<Evaluation> {
    |pair: (RecordView, RecordView), record_counter: nat|
        pair_evaluations(
            single,
            paired,
            normalized(pair.0),
            normalized(pair.1),
            pathname_1,
            pathname_2,
            record_counter,
        )
}

/// How a record is evaluated in the second pass: it is normalized, then
/// judged against the names of the first pass.
pub open spec fn duplicate_rule(names: Multiset<Seq<u8>>, pathname: Seq<char>) -> spec_fn(
    RecordView,
    nat,
) -> Seq<Evaluation> {
    |r: RecordView, record_counter: nat|
        duplicate_evaluations(names, normalized(r), pathname, record_counter)
}

/// Reading one more record from each of two streams adds one pair to
/// their pairs, and its evaluations to theirs; their names grow by the
/// name of the first.
pub proof fn lemma_pair_read(
    done_1: Seq<RecordView>,
    done_2: Seq<RecordView>,
    r: RecordView,
    s: RecordView,
    rule: spec_fn((RecordView, RecordView), nat) -> Seq<Evaluation>,
)
    requires
        done_1.len() == done_2.len(),
    ensures
        scan(pairs_of(done_1.push(r), done_2.push(s)), 0, rule) == scan(
            pairs_of(done_1, done_2),
            0,
            rule,
        ) + rule((r, s), done_1.len()),
        names_of(done_1.push(r)) == names_of(done_1).insert(normalized_name(r.name)),
{
    let pairs = pairs_of(done_1, done_2);
    assert(done_1.push(r).drop_last() =~= done_1);
    assert(pairs_of(done_1.push(r), done_2.push(s)) =~= pairs.push((r, s)));
    assert(pairs.push((r, s)).drop_last() =~= pairs);
}

/// A run over two streams that has stopped in a pair stays stopped with
/// the same message, whatever records follow in the streams.
pub proof fn lemma_pairs_stopped(
    done_1: Seq<RecordView>,
    done_2: Seq<RecordView>,
    rest_1: Seq<RecordView>,
    rest_2: Seq<RecordView>,
    rule: spec_fn((RecordView, RecordView), nat) -> Seq<Evaluation>,
    lint_mode: LintMode,
    logged: Seq<Seq<char>>,
    message: Seq<char>,
)
    requires
        done_1.len() == done_2.len(),
        handled(
            lint_mode,
            Seq::empty(),
            findings(scan(pairs_of(done_1, done_2), 0, rule)),
            logged,
            Some(message),
        ),
    ensures
        handled(
            lint_mode,
            Seq::empty(),
            findings(scan(pairs_of(done_1 + rest_1, done_2 + rest_2), 0, rule)),
            logged,
            Some(message),
        ),
{
    let done = pairs_of(done_1, done_2);
    let rest = pairs_of(rest_1, rest_2);
    assert(pairs_of(done_1 + rest_1, done_2 + rest_2) =~= done + rest);
    lemma_scan_concat(done, rest, 0, rule);
    lemma_stopped(
        lint_mode,
        Seq::empty(),
        scan(done, 0, rule),
        scan(rest, done.len(), rule),
        logged,
        Some(message),
    );
}

} // verus!
