//! What holds of the library as a whole. Each law is proved from the
//! definitions that the contracts of the functions use.

use vstd::multiset::Multiset;
use vstd::prelude::*;

use crate::commands::lint::{
    column_segment, duplicate_rule, error_message, findings, lemma_findings_concat, message_body,
    message_place, names_of, pair_evaluations, pair_rule, pair_run, pairs_of, run_of, scan,
    single_rule, single_run, unexpected_end_message, Evaluation, LintOutcomeView, LintReportView,
};
use crate::fastq::reader::records;
use crate::fastq::record::{normalized, normalized_name, RecordView};
use crate::fastq::writer::{is_writable, lemma_records_read_back, written_all};
use crate::generator::{
    generated_name, generated_record, is_generated_file, is_generated_stream,
    lemma_generated_name, lemma_generated_pair_is_valid, lemma_generated_record_is_valid, Mate,
};
use crate::text::{decimal, decimal_digits, lemma_decimal_digits, lemma_decimal_digits_differ};
use crate::validators::error::ErrorView;
use crate::validators::level::{LintMode, ValidationLevel};
use crate::validators::paired::PairedReadValidator;
use crate::validators::single::duplicate_name::DuplicateNameValidator;
use crate::validators::single::SingleReadValidator;
use crate::validators::{
    active_paired, active_single, is_active, is_disabled, paired_catalog, single_catalog,
};

verus! {

broadcast use vstd::multiset::group_multiset_axioms;

/// A message gives the column exactly when the violation has one: the
/// message for a violation with a column is the message for the same
/// violation without it, with the column and a colon put in after the
/// line. Without a column nothing stands there.
pub proof fn lemma_message_column(e: ErrorView, pathname: Seq<char>, record_counter: nat)
    ensures
        ({
            let bare = ErrorView { col_no: None, ..e };
            let place = message_place(bare, pathname, record_counter);
            &&& error_message(bare, pathname, record_counter) == place + message_body(e)
            &&& error_message(e, pathname, record_counter) == place + column_segment(e.col_no)
                + message_body(e)
        }),
        e.col_no is None ==> column_segment(e.col_no).len() == 0,
        e.col_no matches Some(col_no) ==> column_segment(e.col_no) == decimal(col_no as nat).push(
            ':',
        ) && column_segment(e.col_no).len() >= 2,
{
    let bare = ErrorView { col_no: None, ..e };
    let place = message_place(bare, pathname, record_counter);
    assert(message_body(bare) == message_body(e));
    assert(place + column_segment(e.col_no) =~= message_place(e, pathname, record_counter));
    if let Some(col_no) = e.col_no {
        reveal_strlit(":");
        lemma_decimal_digits(col_no as nat);
        assert(decimal(col_no as nat) + ":"@ =~= decimal(col_no as nat).push(':'));
    }
}

/// Where every item of a stream has the same number of evaluations, the
/// evaluations of the stream are those of its items, item after item: the
/// stream has that number for each item, and the evaluation `j` of item `i`
/// is its evaluation `i * per_item + j`.
pub proof fn lemma_scan_in_order<T>(
    items: Seq<T>,
    first: nat,
    evaluate: spec_fn(T, nat) -> Seq<Evaluation>,
    per_item: nat,
    i: int,
    j: int,
)
    requires
        forall|item: T, n: nat| (#[trigger] evaluate(item, n)).len() == per_item,
        0 <= i < items.len(),
        0 <= j < per_item,
    ensures
        scan(items, first, evaluate).len() == items.len() * per_item,
        0 <= i * per_item + j < items.len() * per_item,
        scan(items, first, evaluate)[i * per_item + j] == evaluate(items[i], (first + i) as nat)[j],
    decreases items.len(),
{
    let n = items.len() as int;
    let k = per_item as int;
    lemma_scan_length(items, first, evaluate, per_item);
    lemma_scan_length(items.drop_last(), first, evaluate, per_item);
    assert(0 <= i * k + j < n * k && (i < n - 1 ==> i * k + j < (n - 1) * k) && (n - 1) * k + k
        == n * k) by (nonlinear_arith)
        requires
            0 <= i < n,
            0 <= j < k,
    ;
    if i < n - 1 {
        lemma_scan_in_order(items.drop_last(), first, evaluate, per_item, i, j);
    }
}

/// Where every item of a stream has the same number of evaluations, the
/// stream has that number for each of its items.
pub proof fn lemma_scan_length<T>(
    items: Seq<T>,
    first: nat,
    evaluate: spec_fn(T, nat) -> Seq<Evaluation>,
    per_item: nat,
)
    requires
        forall|item: T, n: nat| (#[trigger] evaluate(item, n)).len() == per_item,
    ensures
        scan(items, first, evaluate).len() == items.len() * per_item,
    decreases items.len(),
{
    let n = items.len() as int;
    let k = per_item as int;
    if n > 0 {
        lemma_scan_length(items.drop_last(), first, evaluate, per_item);
        assert((n - 1) * k + k == n * k) by (nonlinear_arith);
    } else {
        assert(n * k == 0) by (nonlinear_arith)
            requires
                n == 0,
        ;
    }
}

/// A scan of one stream has each active validator judge each record once,
/// record after record and, for each record, in the order of the
/// validators: of `n` records and `k` validators there are `n * k`
/// evaluations, and evaluation `i * k + j` is validator `j` on the
/// normalized record `i`, reported against line `i`.
pub proof fn lemma_single_scan_in_order(
    validators: Seq<SingleReadValidator>,
    stream: Seq<RecordView>,
    pathname: Seq<char>,
    i: int,
    j: int,
)
    requires
        0 <= i < stream.len(),
        0 <= j < validators.len(),
    ensures
        scan(stream, 0, single_rule(validators, pathname)).len() == stream.len()
            * validators.len(),
        0 <= i * validators.len() + j < stream.len() * validators.len(),
        scan(stream, 0, single_rule(validators, pathname))[i * validators.len() + j] == (Evaluation {
            result: validators[j].spec_validate(normalized(stream[i])),
            pathname,
            record_counter: i as nat,
        }),
{
    lemma_scan_in_order(stream, 0, single_rule(validators, pathname), validators.len(), i, j);
}

/// A pair is judged in three runs: each active single-read validator
/// judges read 1, in the order of the validators; then each judges read 2,
/// and what it finds is reported against the second file; then each active
/// paired-read validator judges the pair. Of `k` single-read validators,
/// evaluation `j` is validator `j` on read 1 and evaluation `k + j` is
/// validator `j` on read 2; evaluation `2 * k + j` is paired-read validator
/// `j` on the pair.
pub proof fn lemma_pair_in_order(
    single: Seq<SingleReadValidator>,
    paired: Seq<PairedReadValidator>,
    r: RecordView,
    s: RecordView,
    pathname_1: Seq<char>,
    pathname_2: Seq<char>,
    record_counter: nat,
    j: int,
)
    ensures
        ({
            let all = pair_evaluations(
                single,
                paired,
                r,
                s,
                pathname_1,
                pathname_2,
                record_counter,
            );
            &&& all.len() == 2 * single.len() + paired.len()
            &&& 0 <= j < single.len() ==> all[j] == (Evaluation {
                result: single[j].spec_validate(r),
                pathname: pathname_1,
                record_counter,
            }) && all[single.len() + j] == (Evaluation {
                result: single[j].spec_validate(s),
                pathname: pathname_2,
                record_counter,
            })
            &&& 0 <= j < paired.len() ==> all[2 * single.len() + j] == (Evaluation {
                result: paired[j].spec_validate(r, s),
                pathname: pathname_1,
                record_counter,
            })
        }),
{
}

/// Evaluations without a violation give no message.
pub proof fn lemma_findings_of_clean_evaluations(evaluations: Seq<Evaluation>)
    requires
        forall|t: int| 0 <= t < evaluations.len() ==> (#[trigger] evaluations[t]).result is None,
    ensures
        findings(evaluations) == Seq::<Seq<char>>::empty(),
    decreases evaluations.len(),
{
    if evaluations.len() > 0 {
        let init = evaluations.drop_last();
        assert forall|t: int| 0 <= t < init.len() implies (#[trigger] init[t]).result is None by {
            assert(init[t] == evaluations[t]);
        }
        lemma_findings_of_clean_evaluations(init);
        assert(evaluations.last() == evaluations[evaluations.len() - 1]);
        assert(findings(evaluations) =~= Seq::<Seq<char>>::empty());
    }
}

/// A scan of records in which no active validator finds a violation, and
/// in which no two records carry the same normalized name if the validator
/// of duplicate names is active, logs nothing and is completed with all its
/// records read, in either mode.
pub proof fn lemma_clean_stream_completes(
    validators: Seq<SingleReadValidator>,
    duplicates: bool,
    stream: Seq<RecordView>,
    lint_mode: LintMode,
    pathname: Seq<char>,
)
    requires
        forall|i: int, j: int|
            0 <= i < stream.len() && 0 <= j < validators.len() ==> (#[trigger] validators[j]).spec_validate(
                normalized(#[trigger] stream[i]),
            ) is None,
        duplicates ==> forall|i: int, j: int|
            0 <= i < stream.len() && 0 <= j < stream.len() && i != j ==> normalized_name(
                #[trigger] stream[i].name,
            ) != normalized_name(#[trigger] stream[j].name),
    ensures
        single_run(validators, duplicates, stream, stream, lint_mode, pathname) == (LintReportView {
            logged: Seq::empty(),
            outcome: LintOutcomeView::Completed { records: stream.len() },
        }),
{
    let rule = single_rule(validators, pathname);
    let all = scan(stream, 0, rule);
    let k = validators.len() as int;
    lemma_scan_length(stream, 0, rule, validators.len());
    assert forall|t: int| 0 <= t < all.len() implies (#[trigger] all[t]).result is None by {
        let i = t / k;
        let j = t % k;
        assert(k > 0) by (nonlinear_arith)
            requires
                0 <= t < stream.len() * k,
        ;
        assert(0 <= i < stream.len() && 0 <= j < k && t == i * k + j) by (nonlinear_arith)
            requires
                0 <= t < stream.len() * k,
                k > 0,
                i == t / k,
                j == t % k,
        ;
        lemma_single_scan_in_order(validators, stream, pathname, i, j);
        assert(validators[j].spec_validate(normalized(stream[i])) is None);
    }
    lemma_findings_of_clean_evaluations(all);
    if duplicates {
        lemma_unique_names_pass_clean(stream, pathname);
    }
    assert(findings(all) + Seq::<Seq<char>>::empty() =~= Seq::<Seq<char>>::empty());
}

/// The second pass over a stream in which no two records carry the same
/// normalized name gives no message.
pub proof fn lemma_unique_names_pass_clean(stream: Seq<RecordView>, pathname: Seq<char>)
    requires
        forall|i: int, j: int|
            0 <= i < stream.len() && 0 <= j < stream.len() && i != j ==> normalized_name(
                #[trigger] stream[i].name,
            ) != normalized_name(#[trigger] stream[j].name),
    ensures
        findings(scan(stream, 0, duplicate_rule(names_of(stream), pathname))) == Seq::<
            Seq<char>,
        >::empty(),
{
    let again = duplicate_rule(names_of(stream), pathname);
    assert forall|i: int| 0 <= i < stream.len() implies findings(
        again(#[trigger] stream[i], (0 + i) as nat),
    ) == Seq::<Seq<char>>::empty() by {
        lemma_duplicates_are_shared_names(stream, i);
        let all = again(stream[i], i as nat);
        assert forall|t: int| 0 <= t < all.len() implies (#[trigger] all[t]).result is None by {}
        lemma_findings_of_clean_evaluations(all);
    }
    lemma_findings_of_clean_scan(stream, 0, again);
}

/// Of two streams with different numbers of records, the one with fewer
/// ends the run, unless the mode is `Panic` and a pair before that end has
/// a violation: the outcome names the stream that ended first, and what was
/// logged is what a run over the pairs that both streams have logs in its
/// first pass. Nothing is reported for a record without a mate.
pub proof fn lemma_unequal_streams_end_unexpectedly(
    single: Seq<SingleReadValidator>,
    paired: Seq<PairedReadValidator>,
    duplicates: bool,
    first: Seq<RecordView>,
    second: Seq<RecordView>,
    reread: Seq<RecordView>,
    lint_mode: LintMode,
    pathname_1: Seq<char>,
    pathname_2: Seq<char>,
)
    requires
        first.len() != second.len(),
        lint_mode == LintMode::Log || findings(
            scan(pairs_of(first, second), 0, pair_rule(single, paired, pathname_1, pathname_2)),
        ).len() == 0,
    ensures
        ({
            let report = pair_run(
                single,
                paired,
                duplicates,
                first,
                second,
                reread,
                lint_mode,
                pathname_1,
                pathname_2,
            );
            let common = pairs_of(first, second).len() as int;
            let cut = pair_run(
                single,
                paired,
                false,
                first.take(common),
                second.take(common),
                reread,
                lint_mode,
                pathname_1,
                pathname_2,
            );
            &&& first.len() < second.len() ==> report.outcome == LintOutcomeView::UnexpectedEnd {
                message: unexpected_end_message(pathname_1, pathname_2),
            }
            &&& second.len() < first.len() ==> report.outcome == LintOutcomeView::UnexpectedEnd {
                message: unexpected_end_message(pathname_2, pathname_1),
            }
            &&& report.logged == cut.logged
            &&& cut.outcome == LintOutcomeView::Completed { records: common as nat }
        }),
{
    let common = pairs_of(first, second).len() as int;
    assert(pairs_of(first.take(common), second.take(common)) =~= pairs_of(first, second));
    let first_pass = findings(
        scan(pairs_of(first, second), 0, pair_rule(single, paired, pathname_1, pathname_2)),
    );
    assert(first_pass + Seq::<Seq<char>>::empty() =~= first_pass);
}

/// How often a name occurs among the normalized names of a stream.
pub open spec fn occurrences(stream: Seq<RecordView>, name: Seq<u8>) -> nat
    decreases stream.len(),
{
    if stream.len() == 0 {
        0
    } else {
        occurrences(stream.drop_last(), name) + if normalized_name(stream.last().name) == name {
            1nat
        } else {
            0nat
        }
    }
}

/// The names of a stream hold each name as often as records of the stream
/// have it as their normalized name.
pub proof fn lemma_names_count_occurrences(stream: Seq<RecordView>, name: Seq<u8>)
    ensures
        names_of(stream).count(name) == occurrences(stream, name),
    decreases stream.len(),
{
    if stream.len() > 0 {
        lemma_names_count_occurrences(stream.drop_last(), name);
    }
}

/// A name occurs in a stream at least as often as there are records with
/// that normalized name among any two of its records.
proof fn lemma_occurrences_of_two(stream: Seq<RecordView>, name: Seq<u8>, i: int, j: int)
    requires
        0 <= i < j < stream.len(),
        normalized_name(stream[i].name) == name,
        normalized_name(stream[j].name) == name,
    ensures
        occurrences(stream, name) >= 2,
    decreases stream.len(),
{
    let init = stream.drop_last();
    if j < stream.len() - 1 {
        assert(init[i] == stream[i] && init[j] == stream[j]);
        lemma_occurrences_of_two(init, name, i, j);
    } else {
        assert(init[i] == stream[i]);
        lemma_occurrences_of_one(init, name, i);
    }
}

/// A name occurs in a stream at least once if a record has it as its
/// normalized name.
proof fn lemma_occurrences_of_one(stream: Seq<RecordView>, name: Seq<u8>, i: int)
    requires
        0 <= i < stream.len(),
        normalized_name(stream[i].name) == name,
    ensures
        occurrences(stream, name) >= 1,
    decreases stream.len(),
{
    let init = stream.drop_last();
    if i < stream.len() - 1 {
        assert(init[i] == stream[i]);
        lemma_occurrences_of_one(init, name, i);
    }
}

/// A name that occurs in a stream is the normalized name of one of its
/// records; one that occurs more than once is that of a second record too.
proof fn lemma_occurrences_found(stream: Seq<RecordView>, name: Seq<u8>) -> (found: (int, int))
    requires
        occurrences(stream, name) >= 1,
    ensures
        0 <= found.0 < stream.len(),
        normalized_name(stream[found.0].name) == name,
        occurrences(stream, name) >= 2 ==> 0 <= found.1 < found.0 && normalized_name(
            stream[found.1].name,
        ) == name,
    decreases stream.len(),
{
    let init = stream.drop_last();
    let last = stream.len() - 1;
    if normalized_name(stream.last().name) == name {
        if occurrences(init, name) >= 1 {
            let earlier = lemma_occurrences_found(init, name);
            assert(init[earlier.0] == stream[earlier.0]);
            (last, earlier.0)
        } else {
            (last, 0)
        }
    } else {
        let earlier = lemma_occurrences_found(init, name);
        assert(init[earlier.0] == stream[earlier.0]);
        if occurrences(stream, name) >= 2 {
            assert(init[earlier.1] == stream[earlier.1]);
        }
        earlier
    }
}

/// The second pass reports a record exactly when another record of the
/// first stream has the same normalized name: the validator of duplicate
/// names, with the names of the stream, finds a violation in record `i`
/// if and only if some record `j` other than `i` is named alike.
pub proof fn lemma_duplicates_are_shared_names(stream: Seq<RecordView>, i: int)
    requires
        0 <= i < stream.len(),
    ensures
        DuplicateNameValidator::spec_validate(names_of(stream), normalized(stream[i])) is Some
            <==> exists|j: int|
            0 <= j < stream.len() && j != i && normalized_name(#[trigger] stream[j].name)
                == normalized_name(stream[i].name),
{
    let name = normalized_name(stream[i].name);
    lemma_names_count_occurrences(stream, name);
    if exists|j: int|
        0 <= j < stream.len() && j != i && normalized_name(#[trigger] stream[j].name) == name {
        let j = choose|j: int|
            0 <= j < stream.len() && j != i && normalized_name(#[trigger] stream[j].name) == name;
        if i < j {
            lemma_occurrences_of_two(stream, name, i, j);
        } else {
            lemma_occurrences_of_two(stream, name, j, i);
        }
    }
    if occurrences(stream, name) >= 2 {
        let found = lemma_occurrences_found(stream, name);
        if found.0 != i {
            assert(normalized_name(stream[found.0].name) == name);
        } else {
            assert(normalized_name(stream[found.1].name) == name);
        }
    }
}

/// The second pass judges each record of the stream that is read again
/// once, in order, against the names of the first pass, and reports
/// against the line of that record.
pub proof fn lemma_second_pass_in_order(
    names: Multiset<Seq<u8>>,
    reread: Seq<RecordView>,
    pathname: Seq<char>,
    i: int,
)
    requires
        0 <= i < reread.len(),
    ensures
        scan(reread, 0, duplicate_rule(names, pathname)).len() == reread.len(),
        scan(reread, 0, duplicate_rule(names, pathname))[i] == (Evaluation {
            result: DuplicateNameValidator::spec_validate(names, normalized(reread[i])),
            pathname,
            record_counter: i as nat,
        }),
{
    lemma_scan_in_order(reread, 0, duplicate_rule(names, pathname), 1, i, 0);
}

/// A validator with a disabled code is not active: none of the active
/// single-read validators and none of the active paired-read validators
/// has that code, whatever the levels.
pub proof fn lemma_disabled_validators_are_inactive(
    single_ceiling: ValidationLevel,
    paired_ceiling: Option<ValidationLevel>,
    disabled: Seq<String>,
    code: Seq<char>,
)
    requires
        is_disabled(disabled, code),
    ensures
        forall|i: int|
            0 <= i < active_single(single_ceiling, disabled).len() ==> (#[trigger] active_single(
                single_ceiling,
                disabled,
            )[i]).spec_code() != code,
        forall|i: int|
            0 <= i < active_paired(paired_ceiling, disabled).len() ==> (#[trigger] active_paired(
                paired_ceiling,
                disabled,
            )[i]).spec_code() != code,
{
    let keeps_single = |v: SingleReadValidator|
        is_active(v.spec_code(), v.spec_level(), single_ceiling, disabled);
    assert forall|i: int| 0 <= i < active_single(single_ceiling, disabled).len() implies (
    #[trigger] active_single(single_ceiling, disabled)[i]).spec_code() != code by {
        single_catalog().lemma_filter_pred(keeps_single, i);
    }
    if let Some(ceiling) = paired_ceiling {
        let keeps_paired = |v: PairedReadValidator|
            is_active(v.spec_code(), v.spec_level(), ceiling, disabled);
        assert forall|i: int| 0 <= i < active_paired(paired_ceiling, disabled).len() implies (
        #[trigger] active_paired(paired_ceiling, disabled)[i]).spec_code() != code by {
            paired_catalog().lemma_filter_pred(keeps_paired, i);
        }
    }
}

/// The active validators are active: each is of a level that its ceiling
/// admits, and each validator of the catalog that the ceiling admits and
/// that is not disabled is among them.
pub proof fn lemma_active_validators(ceiling: ValidationLevel, disabled: Seq<String>)
    ensures
        forall|i: int|
            0 <= i < active_single(ceiling, disabled).len() ==> ceiling.spec_admits(
                (#[trigger] active_single(ceiling, disabled)[i]).spec_level(),
            ),
        forall|i: int|
            0 <= i < single_catalog().len() && is_active(
                (#[trigger] single_catalog()[i]).spec_code(),
                single_catalog()[i].spec_level(),
                ceiling,
                disabled,
            ) ==> active_single(ceiling, disabled).contains(single_catalog()[i]),
{
    let keeps = |v: SingleReadValidator| is_active(v.spec_code(), v.spec_level(), ceiling, disabled);
    assert forall|i: int| 0 <= i < active_single(ceiling, disabled).len() implies ceiling.spec_admits(
        (#[trigger] active_single(ceiling, disabled)[i]).spec_level(),
    ) by {
        single_catalog().lemma_filter_pred(keeps, i);
    }
    assert forall|i: int|
        0 <= i < single_catalog().len() && is_active(
            (#[trigger] single_catalog()[i]).spec_code(),
            single_catalog()[i].spec_level(),
            ceiling,
            disabled,
        ) implies active_single(ceiling, disabled).contains(single_catalog()[i]) by {
        single_catalog().lemma_filter_contains(keeps, i);
    }
}

/// The highest ceiling with nothing disabled activates both catalogs whole.
pub proof fn lemma_high_level_activates_all()
    ensures
        active_single(ValidationLevel::High, Seq::empty()) == single_catalog(),
        active_paired(Some(ValidationLevel::High), Seq::empty()) == paired_catalog(),
{
    let disabled = Seq::<String>::empty();
    let keeps_single = |v: SingleReadValidator|
        is_active(v.spec_code(), v.spec_level(), ValidationLevel::High, disabled);
    let keeps_paired = |v: PairedReadValidator|
        is_active(v.spec_code(), v.spec_level(), ValidationLevel::High, disabled);
    lemma_filter_keeps_all(single_catalog(), keeps_single);
    lemma_filter_keeps_all(paired_catalog(), keeps_paired);
}

/// A filter that every item passes keeps the sequence as it is.
proof fn lemma_filter_keeps_all<T>(items: Seq<T>, keeps: spec_fn(T) -> bool)
    requires
        forall|i: int| 0 <= i < items.len() ==> keeps(#[trigger] items[i]),
    ensures
        items.filter(keeps) == items,
    decreases items.len(),
{
    reveal(Seq::filter);
    if items.len() > 0 {
        let init = items.drop_last();
        assert forall|i: int| 0 <= i < init.len() implies keeps(#[trigger] init[i]) by {
            assert(init[i] == items[i]);
        }
        lemma_filter_keeps_all(init, keeps);
        assert(keeps(items[items.len() - 1]));
        assert(init.push(items.last()) =~= items);
    }
}

/// With the validator of duplicate names disabled there is no second pass:
/// the report does not depend on what reading the first stream again
/// would give.
pub proof fn lemma_disabled_duplicates_skip_second_pass(
    single: Seq<SingleReadValidator>,
    paired: Seq<PairedReadValidator>,
    first: Seq<RecordView>,
    second: Seq<RecordView>,
    reread: Seq<RecordView>,
    other: Seq<RecordView>,
    lint_mode: LintMode,
    pathname_1: Seq<char>,
    pathname_2: Seq<char>,
)
    ensures
        pair_run(single, paired, false, first, second, reread, lint_mode, pathname_1, pathname_2)
            == pair_run(
            single,
            paired,
            false,
            first,
            second,
            other,
            lint_mode,
            pathname_1,
            pathname_2,
        ),
        single_run(single, false, first, reread, lint_mode, pathname_1) == single_run(
            single,
            false,
            first,
            other,
            lint_mode,
            pathname_1,
        ),
{
}

/// The number of violations among evaluations.
pub open spec fn violations(evaluations: Seq<Evaluation>) -> nat
    decreases evaluations.len(),
{
    if evaluations.len() == 0 {
        0
    } else {
        violations(evaluations.drop_last()) + if evaluations.last().result is Some {
            1nat
        } else {
            0nat
        }
    }
}

/// There is one message for each violation.
pub proof fn lemma_one_message_per_violation(evaluations: Seq<Evaluation>)
    ensures
        findings(evaluations).len() == violations(evaluations),
    decreases evaluations.len(),
{
    if evaluations.len() > 0 {
        lemma_one_message_per_violation(evaluations.drop_last());
    }
}

/// In `Log` mode no violation stops a run and each is logged: a run over
/// one stream is completed with all its records read, and a run over two
/// streams with the same number of records is completed too. The log
/// holds one message for each violation, in the order of the evaluations.
pub proof fn lemma_log_mode_reports_every_violation(
    first_pass: Seq<Evaluation>,
    second_pass: Seq<Evaluation>,
    records: nat,
)
    ensures
        ({
            let report = run_of(
                LintMode::Log,
                findings(first_pass),
                None,
                findings(second_pass),
                records,
            );
            &&& report.outcome == LintOutcomeView::Completed { records }
            &&& report.logged == findings(first_pass) + findings(second_pass)
            &&& report.logged.len() == violations(first_pass) + violations(second_pass)
        }),
{
    lemma_one_message_per_violation(first_pass);
    lemma_one_message_per_violation(second_pass);
}

/// In `Panic` mode the first violation stops a run: nothing is logged, and
/// the run ends with the message for the first violation of the first
/// pass or, where that pass has none and no stream ends early, of the second
/// pass. It is completed exactly when there is no violation and no stream
/// ends early.
pub proof fn lemma_panic_mode_stops_at_the_first_violation(
    first_pass: Seq<Evaluation>,
    ended_early: Option<Seq<char>>,
    second_pass: Seq<Evaluation>,
    records: nat,
)
    ensures
        ({
            let report = run_of(
                LintMode::Panic,
                findings(first_pass),
                ended_early,
                findings(second_pass),
                records,
            );
            &&& report.logged.len() == 0
            &&& violations(first_pass) > 0 ==> report.outcome == LintOutcomeView::Violation {
                message: findings(first_pass)[0],
            }
            &&& violations(first_pass) == 0 && ended_early is None && violations(second_pass) > 0
                ==> report.outcome == LintOutcomeView::Violation {
                message: findings(second_pass)[0],
            }
            &&& report.outcome is Completed <==> violations(first_pass) + violations(second_pass)
                == 0 && ended_early is None
        }),
{
    lemma_one_message_per_violation(first_pass);
    lemma_one_message_per_violation(second_pass);
}

/// A scan in which no item has a violation gives no message.
pub proof fn lemma_findings_of_clean_scan<T>(
    items: Seq<T>,
    first: nat,
    evaluate: spec_fn(T, nat) -> Seq<Evaluation>,
)
    requires
        forall|i: int|
            0 <= i < items.len() ==> findings(evaluate(#[trigger] items[i], (first + i) as nat))
                == Seq::<Seq<char>>::empty(),
    ensures
        findings(scan(items, first, evaluate)) == Seq::<Seq<char>>::empty(),
    decreases items.len(),
{
    if items.len() > 0 {
        let init = items.drop_last();
        assert forall|i: int| 0 <= i < init.len() implies findings(
            evaluate(#[trigger] init[i], (first + i) as nat),
        ) == Seq::<Seq<char>>::empty() by {
            assert(init[i] == items[i]);
        }
        lemma_findings_of_clean_scan(init, first, evaluate);
        let last = evaluate(items.last(), (first + items.len() - 1) as nat);
        assert(items.last() == items[items.len() - 1]);
        lemma_findings_concat(scan(init, first, evaluate), last);
        assert(findings(scan(init, first, evaluate)) + findings(last) =~= Seq::<Seq<char>>::empty());
    }
}

/// What the generator makes, a run over two streams accepts: two
/// generated files of the same number of reads, each read with at least
/// one residue, are linted without a message and to the end, whatever the
/// validators, the mode and the names of the files, and with or without
/// the second pass.
pub proof fn lemma_generated_files_lint_clean(
    r1: Seq<u8>,
    r2: Seq<u8>,
    count: nat,
    read_length: nat,
    single: Seq<SingleReadValidator>,
    paired: Seq<PairedReadValidator>,
    duplicates: bool,
    lint_mode: LintMode,
    pathname_1: Seq<char>,
    pathname_2: Seq<char>,
)
    requires
        is_generated_file(r1, Mate::First, count, read_length),
        is_generated_file(r2, Mate::Second, count, read_length),
        read_length > 0,
        count <= u64::MAX,
    ensures
        pair_run(
            single,
            paired,
            duplicates,
            records(r1),
            records(r2),
            records(r1),
            lint_mode,
            pathname_1,
            pathname_2,
        ) == (LintReportView {
            logged: Seq::empty(),
            outcome: LintOutcomeView::Completed { records: count },
        }),
{
    let first = choose|stream: Seq<RecordView>|
        stream.len() == count && is_generated_stream(stream, Mate::First, read_length) && r1
            == #[trigger] written_all(stream);
    let second = choose|stream: Seq<RecordView>|
        stream.len() == count && is_generated_stream(stream, Mate::Second, read_length) && r2
            == #[trigger] written_all(stream);
    lemma_generated_stream_is_valid(first, Mate::First, read_length);
    lemma_generated_stream_is_valid(second, Mate::Second, read_length);
    lemma_records_read_back(first);
    lemma_records_read_back(second);
    lemma_generated_pairs_are_clean(
        first,
        second,
        read_length,
        single,
        paired,
        pathname_1,
        pathname_2,
    );
    lemma_generated_names_are_unique(first, read_length, pathname_1);
    assert(Seq::<Seq<char>>::empty() + Seq::<Seq<char>>::empty() =~= Seq::<Seq<char>>::empty());
}

/// The first pass over two generated streams gives no message.
proof fn lemma_generated_pairs_are_clean(
    first: Seq<RecordView>,
    second: Seq<RecordView>,
    read_length: nat,
    single: Seq<SingleReadValidator>,
    paired: Seq<PairedReadValidator>,
    pathname_1: Seq<char>,
    pathname_2: Seq<char>,
)
    requires
        is_generated_stream(first, Mate::First, read_length),
        is_generated_stream(second, Mate::Second, read_length),
        read_length > 0,
    ensures
        findings(
            scan(pairs_of(first, second), 0, pair_rule(single, paired, pathname_1, pathname_2)),
        ) == Seq::<Seq<char>>::empty(),
{
    let rule = pair_rule(single, paired, pathname_1, pathname_2);
    let pairs = pairs_of(first, second);
    lemma_generated_stream_is_valid(first, Mate::First, read_length);
    lemma_generated_stream_is_valid(second, Mate::Second, read_length);
    assert forall|i: int| 0 <= i < pairs.len() implies findings(
        rule(#[trigger] pairs[i], (0 + i) as nat),
    ) == Seq::<Seq<char>>::empty() by {
        let r = normalized(first[i]);
        let s = normalized(second[i]);
        let all = pair_evaluations(single, paired, r, s, pathname_1, pathname_2, i as nat);
        assert forall|t: int| 0 <= t < all.len() implies (#[trigger] all[t]).result is None by {
            if t < single.len() {
                assert(single[t].spec_validate(r) is None);
            } else if t < 2 * single.len() {
                assert(single[t - single.len()].spec_validate(s) is None);
            } else {
                lemma_generated_stream_pairs(
                    first,
                    second,
                    read_length,
                    i,
                    paired[t - 2 * single.len()],
                );
            }
        }
        lemma_findings_of_clean_evaluations(all);
    }
    lemma_findings_of_clean_scan(pairs, 0, rule);
}

/// No two reads of a generated stream carry the same name, so the second
/// pass over it gives no message.
proof fn lemma_generated_names_are_unique(
    stream: Seq<RecordView>,
    read_length: nat,
    pathname: Seq<char>,
)
    requires
        is_generated_stream(stream, Mate::First, read_length),
        stream.len() <= u64::MAX,
    ensures
        findings(scan(stream, 0, duplicate_rule(names_of(stream), pathname))) == Seq::<
            Seq<char>,
        >::empty(),
{
    assert forall|i: int, j: int|
        0 <= i < stream.len() && 0 <= j < stream.len() && i != j implies normalized_name(
        #[trigger] stream[i].name,
    ) != normalized_name(#[trigger] stream[j].name) by {
        lemma_generated_stream_names(stream, Mate::First, read_length, i);
        lemma_generated_stream_names(stream, Mate::First, read_length, j);
        lemma_generated_names_differ((i + 1) as u64, (j + 1) as u64);
    }
    lemma_unique_names_pass_clean(stream, pathname);
}

/// Pairs of different numbers have different names.
proof fn lemma_generated_names_differ(a: u64, b: u64)
    requires
        a != b,
    ensures
        generated_name(a) != generated_name(b),
{
    lemma_decimal_digits_differ(a as nat, b as nat);
    if generated_name(a) == generated_name(b) {
        assert(generated_name(a).skip(7) =~= decimal_digits(a as nat));
        assert(generated_name(b).skip(7) =~= decimal_digits(b as nat));
    }
}

/// Each read of a generated stream with at least one residue keeps every
/// rule for single records and can be written and read back.
proof fn lemma_generated_stream_is_valid(stream: Seq<RecordView>, mate: Mate, read_length: nat)
    requires
        is_generated_stream(stream, mate, read_length),
        read_length > 0,
    ensures
        forall|i: int| 0 <= i < stream.len() ==> is_writable(#[trigger] stream[i]),
        forall|i: int, v: SingleReadValidator|
            0 <= i < stream.len() ==> (#[trigger] v.spec_validate(normalized(#[trigger] stream[i])))
                is None,
{
    assert forall|i: int| 0 <= i < stream.len() implies is_writable(
        #[trigger] stream[i],
    ) by {
        let draws = choose|draws: Seq<u8>|
            draws.len() == read_length && stream[i] == #[trigger] generated_record(
                (i + 1) as u64,
                mate,
                draws,
            );
        lemma_generated_record_is_valid((i + 1) as u64, mate, draws, SingleReadValidator::Name);
    }
    assert forall|i: int, v: SingleReadValidator| 0 <= i < stream.len() implies (
    #[trigger] v.spec_validate(normalized(#[trigger] stream[i]))) is None by {
        let draws = choose|draws: Seq<u8>|
            draws.len() == read_length && stream[i] == #[trigger] generated_record(
                (i + 1) as u64,
                mate,
                draws,
            );
        lemma_generated_record_is_valid((i + 1) as u64, mate, draws, v);
    }
}

/// The normalized name of read `i` of a generated stream is the name of
/// pair `i + 1`.
proof fn lemma_generated_stream_names(
    stream: Seq<RecordView>,
    mate: Mate,
    read_length: nat,
    i: int,
)
    requires
        is_generated_stream(stream, mate, read_length),
        0 <= i < stream.len(),
    ensures
        normalized_name(stream[i].name) == generated_name((i + 1) as u64),
{
    let draws = choose|draws: Seq<u8>|
        draws.len() == read_length && stream[i] == #[trigger] generated_record(
            (i + 1) as u64,
            mate,
            draws,
        );
    lemma_generated_name((i + 1) as u64, mate, draws);
}

/// The reads `i` of two generated streams keep every rule for pairs.
proof fn lemma_generated_stream_pairs(
    first: Seq<RecordView>,
    second: Seq<RecordView>,
    read_length: nat,
    i: int,
    validator: PairedReadValidator,
)
    requires
        is_generated_stream(first, Mate::First, read_length),
        is_generated_stream(second, Mate::Second, read_length),
        0 <= i < first.len(),
        i < second.len(),
    ensures
        validator.spec_validate(normalized(first[i]), normalized(second[i])) is None,
{
    let draws_1 = choose|draws: Seq<u8>|
        draws.len() == read_length && first[i] == #[trigger] generated_record(
            (i + 1) as u64,
            Mate::First,
            draws,
        );
    let draws_2 = choose|draws: Seq<u8>|
        draws.len() == read_length && second[i] == #[trigger] generated_record(
            (i + 1) as u64,
            Mate::Second,
            draws,
        );
    lemma_generated_pair_is_valid((i + 1) as u64, draws_1, draws_2, validator);
}

} // verus!
