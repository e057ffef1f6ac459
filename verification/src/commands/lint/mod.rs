//! Linting: scanning one stream of records, or two streams in step, with
//! the active validators, and reporting each violation with its place.
//!
//! [`validate_single`], [`validate_pair`] and [`lint`] run over streams that
//! are held in memory. [`SingleLint`] and [`PairLint`] are the same runs for
//! a caller that reads the streams itself, record by record.

pub mod evaluation;
pub mod message;
pub mod report;
pub mod session;
pub mod step;

pub use self::evaluation::{
    duplicate_evaluations, duplicate_rule, Evaluation, findings, first_of, handled,
    lemma_findings_concat, lemma_handled_next, lemma_pair_read, lemma_pairs_stopped,
    lemma_scan_concat, lemma_stopped, mate_evaluations, names_of, pair_evaluations, pair_rule,
    paired_evaluations, pairs_of, scan, single_evaluations, single_rule,
};
pub use self::message::{
    build_error_message, build_unexpected_end_message, column_segment, error_message,
    line_number, message_body, message_place, text, texts, unexpected_end_message,
};
pub use self::report::{
    LintOutcome, LintOutcomeView, LintReport, LintReportView, pair_run, run_of, single_run,
    unexpected_end,
};
pub use self::session::{Action, ActionView, PairLint, SingleLint, stepped, stop_of};
pub use self::step::{
    handle_validation_error, lint_duplicate, lint_pair, lint_record, log_validation_error,
    spec_synchronize, Synchronization, synchronize,
};

use vstd::multiset::Multiset;
use vstd::prelude::*;

use crate::fastq::reader::{lemma_record_length, Reader, records};
use crate::fastq::record::{Record, RecordView};
use crate::validators::{active_paired, active_single, is_disabled};
use crate::validators::level::{LintMode, ValidationLevel};
use crate::validators::single::duplicate_name::DuplicateNameValidator;

verus! {

/// Whether the first pass over `stream` can have ended with `action`, the
/// run going from `before` to `after` and the log, empty before, holding
/// `logged`.
spec fn single_pass_ended(
    action: ActionView,
    before: SingleLint,
    after: SingleLint,
    stream: Seq<RecordView>,
    logged: Seq<Seq<char>>,
) -> bool {
    let messages = findings(scan(stream, 0, single_rule(before.validators@, before.pathname@)));
    match action {
        ActionView::Reread => {
            &&& before.duplicates
            &&& after.record_counter == stream.len()
            &&& after.names@ == names_of(stream)
            &&& handled(before.lint_mode, Seq::empty(), messages, logged, None)
        },
        ActionView::Finish(LintOutcomeView::Completed { records }) => {
            &&& !before.duplicates
            &&& records == stream.len()
            &&& handled(before.lint_mode, Seq::empty(), messages, logged, None)
        },
        ActionView::Finish(LintOutcomeView::Violation { message }) => handled(
            before.lint_mode,
            Seq::empty(),
            messages,
            logged,
            Some(message),
        ),
        _ => false,
    }
}

/// First pass over one stream: reads record after record and hands each to
/// the run, until the run asks for something else than to read on.
fn single_first_pass(run: &mut SingleLint, input: &mut Reader, logged: &mut Vec<String>) -> (action:
    Action)
    requires
        old(run).names@ == Multiset::<Seq<u8>>::empty(),
        old(run).record_counter == 0,
        old(logged)@.len() == 0,
    ensures
        final(run).set_as(*old(run)),
        final(run).recheck_counter == old(run).recheck_counter,
        final(input).source() == old(input).source(),
        single_pass_ended(
            action@,
            *old(run),
            *final(run),
            records(old(input)@),
            texts(final(logged)@),
        ),
{
    let total = input.remaining();
    let ghost stream = records(input@);
    let ghost rule = single_rule(run.validators@, run.pathname@);
    let ghost done = Seq::<RecordView>::empty();
    let mut record = Record::default();
    proof {
        assert(stream =~= done + records(input@));
        assert(texts(logged@) =~= Seq::<Seq<char>>::empty() + findings(scan(done, 0, rule)));
    }
    loop
        invariant
            run.set_as(*old(run)),
            run.recheck_counter == old(run).recheck_counter,
            rule == single_rule(run.validators@, run.pathname@),
            stream == records(old(input)@),
            input.source() == old(input).source(),
            stream == done + records(input@),
            done.len() == run.record_counter,
            run.record_counter + input@.len() <= total,
            run.names@ == if run.duplicates {
                names_of(done)
            } else {
                Multiset::empty()
            },
            handled(
                run.lint_mode,
                Seq::empty(),
                findings(scan(done, 0, rule)),
                texts(logged@),
                None,
            ),
        decreases input@.len(),
    {
        let ghost pending = input@;
        let ghost earlier = texts(logged@);
        let bytes_read = input.read_record(&mut record);
        let ghost r = record@;
        proof {
            lemma_record_length(pending);
        }
        let action = run.advance(bytes_read, &mut record, logged);
        proof {
            if bytes_read == 0 {
                assert(stream =~= done);
            } else {
                assert(done.push(r).drop_last() =~= done);
                assert(stream =~= done.push(r) + records(input@));
                lemma_handled_next(
                    run.lint_mode,
                    Seq::empty(),
                    scan(done, 0, rule),
                    earlier,
                    rule(r, done.len()),
                    texts(logged@),
                    stop_of(action@),
                );
                done = done.push(r);
                if stop_of(action@) is Some {
                    lemma_scan_concat(done, records(input@), 0, rule);
                    lemma_stopped(
                        run.lint_mode,
                        Seq::empty(),
                        scan(done, 0, rule),
                        scan(records(input@), done.len(), rule),
                        texts(logged@),
                        stop_of(action@),
                    );
                }
            }
        }
        match action {
            Action::Read => {},
            other => {
                return other;
            },
        }
    }
}

/// Second pass over one stream: reads record after record and hands each
/// to the run, until the run has ended.
fn single_second_pass(run: &mut SingleLint, input: &mut Reader, logged: &mut Vec<String>) -> (outcome:
    LintOutcome)
    requires
        old(run).recheck_counter == 0,
    ensures
        ({
            let stop = stop_of(ActionView::Finish(outcome@));
            &&& handled(
                old(run).lint_mode,
                texts(old(logged)@),
                findings(
                    scan(
                        records(old(input)@),
                        0,
                        duplicate_rule(old(run).names@, old(run).pathname@),
                    ),
                ),
                texts(final(logged)@),
                stop,
            )
            &&& stop is None ==> outcome@ == LintOutcomeView::Completed {
                records: old(run).record_counter as nat,
            }
        }),
{
    let total = input.remaining();
    let ghost before = texts(logged@);
    let ghost stream = records(input@);
    let ghost rule = duplicate_rule(run.names@, run.pathname@);
    let ghost done = Seq::<RecordView>::empty();
    let mut record = Record::default();
    proof {
        assert(stream =~= done + records(input@));
        assert(before + findings(scan(done, 0, rule)) =~= before);
    }
    loop
        invariant
            run.set_as(*old(run)),
            run.names@ == old(run).names@,
            run.record_counter == old(run).record_counter,
            before == texts(old(logged)@),
            rule == duplicate_rule(run.names@, run.pathname@),
            stream == records(old(input)@),
            stream == done + records(input@),
            done.len() == run.recheck_counter,
            run.recheck_counter + input@.len() <= total,
            handled(run.lint_mode, before, findings(scan(done, 0, rule)), texts(logged@), None),
        decreases input@.len(),
    {
        let ghost pending = input@;
        let ghost earlier = texts(logged@);
        let bytes_read = input.read_record(&mut record);
        let ghost r = record@;
        proof {
            lemma_record_length(pending);
        }
        let action = run.recheck(bytes_read, &mut record, logged);
        proof {
            if bytes_read == 0 {
                assert(stream =~= done);
            } else {
                assert(done.push(r).drop_last() =~= done);
                assert(stream =~= done.push(r) + records(input@));
                lemma_handled_next(
                    run.lint_mode,
                    before,
                    scan(done, 0, rule),
                    earlier,
                    rule(r, done.len()),
                    texts(logged@),
                    stop_of(action@),
                );
                done = done.push(r);
                if stop_of(action@) is Some {
                    lemma_scan_concat(done, records(input@), 0, rule);
                    lemma_stopped(
                        run.lint_mode,
                        before,
                        scan(done, 0, rule),
                        scan(records(input@), done.len(), rule),
                        texts(logged@),
                        stop_of(action@),
                    );
                }
            }
        }
        if let Action::Finish(outcome) = action {
            return outcome;
        }
    }
}

/// Scans one stream. First pass: reads record after record until the
/// stream ends, normalizes each, runs on it the single-read validators that
/// the level and the disabled codes leave active, and applies the mode to
/// each violation. Second pass, unless the code of the validator of
/// duplicate names is disabled: reads the stream again from its start and
/// reports each record whose name the first pass has met more than once.
/// Violations are reported against `r1_src`.
pub fn validate_single(
    reader: Reader,
    single_read_validation_level: ValidationLevel,
    disabled_validators: &[String],
    lint_mode: LintMode,
    r1_src: &str,
) -> (report: LintReport)
    ensures
        report@ == single_run(
            active_single(single_read_validation_level, disabled_validators@),
            !is_disabled(disabled_validators@, DuplicateNameValidator::spec_code()),
            records(reader@),
            records(reader.source()),
            lint_mode,
            r1_src@,
        ),
{
    let mut run = SingleLint::new(
        single_read_validation_level,
        disabled_validators,
        lint_mode,
        r1_src,
    );
    let mut input = reader;
    let mut logged: Vec<String> = Vec::new();
    let ghost first_pass = findings(
        scan(records(reader@), 0, single_rule(run.validators@, r1_src@)),
    );
    let ghost second_pass = findings(
        scan(records(reader.source()), 0, duplicate_rule(names_of(records(reader@)), r1_src@)),
    );
    proof {
        assert(Seq::<Seq<char>>::empty() + first_pass =~= first_pass);
        assert(first_pass + Seq::<Seq<char>>::empty() =~= first_pass);
        assert(Seq::<Seq<char>>::empty() + second_pass =~= second_pass);
    }
    match single_first_pass(&mut run, &mut input, &mut logged) {
        Action::Finish(outcome) => LintReport { logged, outcome },
        _ => {
            let mut again = input.reopen();
            let outcome = single_second_pass(&mut run, &mut again, &mut logged);
            LintReport { logged, outcome }
        },
    }
}

/// Whether the first pass over the streams `first` and `second` can have
/// ended with `action`, the run going from `before` to `after` and the
/// log, empty before, holding `logged`.
spec fn first_pass_ended(
    action: ActionView,
    before: PairLint,
    after: PairLint,
    first: Seq<RecordView>,
    second: Seq<RecordView>,
    logged: Seq<Seq<char>>,
) -> bool {
    let pairs = pairs_of(first, second);
    let messages = findings(
        scan(pairs, 0, pair_rule(before.single@, before.paired@, before.r1_src@, before.r2_src@)),
    );
    let ended = unexpected_end(first.len(), second.len(), before.r1_src@, before.r2_src@);
    match action {
        ActionView::Read => false,
        ActionView::Reread => {
            &&& before.duplicates
            &&& ended is None
            &&& after.record_counter == pairs.len()
            &&& after.names@ == names_of(first)
            &&& handled(before.lint_mode, Seq::empty(), messages, logged, None)
        },
        ActionView::Finish(LintOutcomeView::Completed { records }) => {
            &&& !before.duplicates
            &&& ended is None
            &&& records == pairs.len()
            &&& handled(before.lint_mode, Seq::empty(), messages, logged, None)
        },
        ActionView::Finish(LintOutcomeView::UnexpectedEnd { message }) => {
            &&& ended == Some(message)
            &&& handled(before.lint_mode, Seq::empty(), messages, logged, None)
        },
        ActionView::Finish(LintOutcomeView::Violation { message }) => handled(
            before.lint_mode,
            Seq::empty(),
            messages,
            logged,
            Some(message),
        ),
    }
}

/// First pass over two streams: reads a record from each and hands the
/// two to the run, until the run asks for something else than to read on.
fn first_pass(
    run: &mut PairLint,
    input_1: &mut Reader,
    input_2: &mut Reader,
    logged: &mut Vec<String>,
) -> (action: Action)
    requires
        old(run).names@ == Multiset::<Seq<u8>>::empty(),
        old(run).record_counter == 0,
        old(logged)@.len() == 0,
    ensures
        final(run).set_as(*old(run)),
        final(run).recheck_counter == old(run).recheck_counter,
        final(input_1).source() == old(input_1).source(),
        first_pass_ended(
            action@,
            *old(run),
            *final(run),
            records(old(input_1)@),
            records(old(input_2)@),
            texts(final(logged)@),
        ),
{
    let total = input_1.remaining();
    let ghost first = records(input_1@);
    let ghost second = records(input_2@);
    let ghost rule = pair_rule(run.single@, run.paired@, run.r1_src@, run.r2_src@);
    let ghost done_1 = Seq::<RecordView>::empty();
    let ghost done_2 = Seq::<RecordView>::empty();
    let mut record_1 = Record::default();
    let mut record_2 = Record::default();
    proof {
        assert(first =~= done_1 + records(input_1@));
        assert(second =~= done_2 + records(input_2@));
        assert(pairs_of(done_1, done_2) =~= Seq::empty());
        assert(texts(logged@) =~= Seq::<Seq<char>>::empty() + findings(
            scan(pairs_of(done_1, done_2), 0, rule),
        ));
    }
    loop
        invariant
            run.set_as(*old(run)),
            run.recheck_counter == old(run).recheck_counter,
            rule == pair_rule(run.single@, run.paired@, run.r1_src@, run.r2_src@),
            first == records(old(input_1)@),
            second == records(old(input_2)@),
            input_1.source() == old(input_1).source(),
            first == done_1 + records(input_1@),
            second == done_2 + records(input_2@),
            done_1.len() == run.record_counter,
            done_2.len() == run.record_counter,
            run.record_counter + input_1@.len() <= total,
            run.names@ == if run.duplicates {
                names_of(done_1)
            } else {
                Multiset::empty()
            },
            handled(
                run.lint_mode,
                Seq::empty(),
                findings(scan(pairs_of(done_1, done_2), 0, rule)),
                texts(logged@),
                None,
            ),
        decreases input_1@.len(),
    {
        let ghost pending_1 = input_1@;
        let ghost pending_2 = input_2@;
        let ghost earlier = texts(logged@);
        let r1_len = input_1.read_record(&mut record_1);
        let r2_len = input_2.read_record(&mut record_2);
        let ghost r = record_1@;
        let ghost s = record_2@;
        proof {
            lemma_record_length(pending_1);
            lemma_record_length(pending_2);
        }
        let action = run.advance(r1_len, r2_len, &mut record_1, &mut record_2, logged);
        proof {
            if r1_len == 0 {
                assert(first =~= done_1);
            }
            if r2_len == 0 {
                assert(second =~= done_2);
            }
            if r1_len == 0 || r2_len == 0 {
                assert(pairs_of(first, second) =~= pairs_of(done_1, done_2));
            } else {
                lemma_pair_read(done_1, done_2, r, s, rule);
                assert(first =~= done_1.push(r) + records(input_1@));
                assert(second =~= done_2.push(s) + records(input_2@));
                lemma_handled_next(
                    run.lint_mode,
                    Seq::empty(),
                    scan(pairs_of(done_1, done_2), 0, rule),
                    earlier,
                    rule((r, s), done_1.len()),
                    texts(logged@),
                    stop_of(action@),
                );
                done_1 = done_1.push(r);
                done_2 = done_2.push(s);
                if let Some(message) = stop_of(action@) {
                    lemma_pairs_stopped(
                        done_1,
                        done_2,
                        records(input_1@),
                        records(input_2@),
                        rule,
                        run.lint_mode,
                        texts(logged@),
                        message,
                    );
                }
            }
        }
        match action {
            Action::Read => {},
            other => {
                return other;
            },
        }
    }
}

/// Second pass: reads record after record and hands each to the run,
/// until the run has ended.
fn second_pass(run: &mut PairLint, input: &mut Reader, logged: &mut Vec<String>) -> (outcome:
    LintOutcome)
    requires
        old(run).recheck_counter == 0,
    ensures
        ({
            let stop = stop_of(ActionView::Finish(outcome@));
            &&& handled(
                old(run).lint_mode,
                texts(old(logged)@),
                findings(
                    scan(
                        records(old(input)@),
                        0,
                        duplicate_rule(old(run).names@, old(run).r1_src@),
                    ),
                ),
                texts(final(logged)@),
                stop,
            )
            &&& stop is None ==> outcome@ == LintOutcomeView::Completed {
                records: old(run).record_counter as nat,
            }
        }),
{
    let total = input.remaining();
    let ghost before = texts(logged@);
    let ghost stream = records(input@);
    let ghost rule = duplicate_rule(run.names@, run.r1_src@);
    let ghost done = Seq::<RecordView>::empty();
    let mut record = Record::default();
    proof {
        assert(stream =~= done + records(input@));
        assert(before + findings(scan(done, 0, rule)) =~= before);
    }
    loop
        invariant
            run.set_as(*old(run)),
            run.names@ == old(run).names@,
            run.record_counter == old(run).record_counter,
            before == texts(old(logged)@),
            rule == duplicate_rule(run.names@, run.r1_src@),
            stream == records(old(input)@),
            stream == done + records(input@),
            done.len() == run.recheck_counter,
            run.recheck_counter + input@.len() <= total,
            handled(run.lint_mode, before, findings(scan(done, 0, rule)), texts(logged@), None),
        decreases input@.len(),
    {
        let ghost pending = input@;
        let ghost earlier = texts(logged@);
        let bytes_read = input.read_record(&mut record);
        let ghost r = record@;
        proof {
            lemma_record_length(pending);
        }
        let action = run.recheck(bytes_read, &mut record, logged);
        proof {
            if bytes_read == 0 {
                assert(stream =~= done);
            } else {
                assert(done.push(r).drop_last() =~= done);
                assert(stream =~= done.push(r) + records(input@));
                lemma_handled_next(
                    run.lint_mode,
                    before,
                    scan(done, 0, rule),
                    earlier,
                    rule(r, done.len()),
                    texts(logged@),
                    stop_of(action@),
                );
                done = done.push(r);
                if stop_of(action@) is Some {
                    lemma_scan_concat(done, records(input@), 0, rule);
                    lemma_stopped(
                        run.lint_mode,
                        before,
                        scan(done, 0, rule),
                        scan(records(input@), done.len(), rule),
                        texts(logged@),
                        stop_of(action@),
                    );
                }
            }
        }
        if let Action::Finish(outcome) = action {
            return outcome;
        }
    }
}

/// Scans two streams in step. First pass: reads a record from each stream
/// until both end, normalizes the two, runs the active single-read
/// validators on read 1, then on read 2, and then the active paired-read
/// validators on the pair, and applies the mode to each violation. A stream that ends
/// before the other stops the run, whatever the mode. Second pass, unless
/// the code of the validator of duplicate names is disabled: reads the
/// first stream again from its start and reports each record whose name
/// the first pass has met more than once.
///
/// Violations in read 2 are reported against `r2_src`, all others against
/// `r1_src`.
pub fn validate_pair(
    reader_1: Reader,
    reader_2: Reader,
    single_read_validation_level: ValidationLevel,
    paired_read_validation_level: ValidationLevel,
    disabled_validators: &[String],
    lint_mode: LintMode,
    r1_src: &str,
    r2_src: &str,
) -> (report: LintReport)
    ensures
        report@ == pair_run(
            active_single(single_read_validation_level, disabled_validators@),
            active_paired(Some(paired_read_validation_level), disabled_validators@),
            !is_disabled(disabled_validators@, DuplicateNameValidator::spec_code()),
            records(reader_1@),
            records(reader_2@),
            records(reader_1.source()),
            lint_mode,
            r1_src@,
            r2_src@,
        ),
{
    let mut run = PairLint::new(
        single_read_validation_level,
        paired_read_validation_level,
        disabled_validators,
        lint_mode,
        r1_src,
        r2_src,
    );
    let mut input_1 = reader_1;
    let mut input_2 = reader_2;
    let mut logged: Vec<String> = Vec::new();
    let ghost first_pass = findings(
        scan(
            pairs_of(records(reader_1@), records(reader_2@)),
            0,
            pair_rule(run.single@, run.paired@, r1_src@, r2_src@),
        ),
    );
    let ghost second_pass = findings(
        scan(
            records(reader_1.source()),
            0,
            duplicate_rule(names_of(records(reader_1@)), r1_src@),
        ),
    );
    proof {
        assert(Seq::<Seq<char>>::empty() + first_pass =~= first_pass);
        assert(first_pass + Seq::<Seq<char>>::empty() =~= first_pass);
        assert(Seq::<Seq<char>>::empty() + second_pass =~= second_pass);
    }
    match self::first_pass(&mut run, &mut input_1, &mut input_2, &mut logged) {
        Action::Finish(outcome) => LintReport { logged, outcome },
        _ => {
            let mut again = input_1.reopen();
            let outcome = self::second_pass(&mut run, &mut again, &mut logged);
            LintReport { logged, outcome }
        },
    }
}

/// What a run is asked to do: the mode, the ceilings of the single-read
/// and of the paired-read validators, and the codes of the validators that
/// are switched off.
#[derive(Debug)]
pub struct LintOptions {
    pub lint_mode: LintMode,
    pub single_read_validation_level: ValidationLevel,
    pub paired_read_validation_level: ValidationLevel,
    pub disabled_validators: Vec<String>,
}

impl Default for LintOptions {
    /// Stop at the first violation, use every validator.
    fn default() -> (options: Self)
        ensures
            options.lint_mode == LintMode::Panic,
            options.single_read_validation_level == ValidationLevel::High,
            options.paired_read_validation_level == ValidationLevel::High,
            options.disabled_validators@ == Seq::<String>::empty(),
    {
        LintOptions {
            lint_mode: LintMode::Panic,
            single_read_validation_level: ValidationLevel::High,
            paired_read_validation_level: ValidationLevel::High,
            disabled_validators: Vec::new(),
        }
    }
}

impl LintOptions {
    /// The options that the words of a command line name, if each word
    /// names one.
    pub open spec fn spec_from_words(
        lint_mode: Seq<char>,
        single_read_validation_level: Seq<char>,
        paired_read_validation_level: Seq<char>,
        disabled_validators: Vec<String>,
    ) -> Option<LintOptions> {
        match (
            LintMode::spec_parse(lint_mode),
            ValidationLevel::spec_parse(single_read_validation_level),
            ValidationLevel::spec_parse(paired_read_validation_level),
        ) {
            (Some(lint_mode), Some(single), Some(paired)) => Some(
                LintOptions {
                    lint_mode,
                    single_read_validation_level: single,
                    paired_read_validation_level: paired,
                    disabled_validators,
                },
            ),
            _ => None,
        }
    }

    /// Reads the options from the words of a command line: the mode is
    /// `panic` or `log`, a level is `low`, `medium` or `high`. `None` when
    /// a word is none of these.
    pub fn from_words(
        lint_mode: &str,
        single_read_validation_level: &str,
        paired_read_validation_level: &str,
        disabled_validators: Vec<String>,
    ) -> (options: Option<LintOptions>)
        ensures
            options == Self::spec_from_words(
                lint_mode@,
                single_read_validation_level@,
                paired_read_validation_level@,
                disabled_validators,
            ),
    {
        let lint_mode = match LintMode::parse(lint_mode) {
            Some(lint_mode) => lint_mode,
            None => { return None; },
        };
        let single = match ValidationLevel::parse(single_read_validation_level) {
            Some(level) => level,
            None => { return None; },
        };
        let paired = match ValidationLevel::parse(paired_read_validation_level) {
            Some(level) => level,
            None => { return None; },
        };
        Some(
            LintOptions {
                lint_mode,
                single_read_validation_level: single,
                paired_read_validation_level: paired,
                disabled_validators,
            },
        )
    }
}

/// A stream to lint: the bytes of a file and the name under which
/// violations in it are reported.
#[derive(Clone, Copy, Debug)]
pub struct Source<'a> {
    pub pathname: &'a str,
    pub bytes: &'a [u8],
}

/// The report of linting one stream, or two in step.
pub open spec fn lint_run(options: LintOptions, r1: Source, r2: Option<Source>) -> LintReportView {
    match r2 {
        Some(r2) => pair_run(
            active_single(options.single_read_validation_level, options.disabled_validators@),
            active_paired(
                Some(options.paired_read_validation_level),
                options.disabled_validators@,
            ),
            !is_disabled(options.disabled_validators@, DuplicateNameValidator::spec_code()),
            records(r1.bytes@),
            records(r2.bytes@),
            records(r1.bytes@),
            options.lint_mode,
            r1.pathname@,
            r2.pathname@,
        ),
        None => single_run(
            active_single(options.single_read_validation_level, options.disabled_validators@),
            !is_disabled(options.disabled_validators@, DuplicateNameValidator::spec_code()),
            records(r1.bytes@),
            records(r1.bytes@),
            options.lint_mode,
            r1.pathname@,
        ),
    }
}

/// Lints `r1` alone, or `r1` and `r2` as the two streams of paired reads.
pub fn lint(options: &LintOptions, r1: Source, r2: Option<Source>) -> (report: LintReport)
    ensures
        report@ == lint_run(*options, r1, r2),
{
    let reader_1 = Reader::new(r1.bytes);
    match r2 {
        Some(r2) => {
            let reader_2 = Reader::new(r2.bytes);
            validate_pair(
                reader_1,
                reader_2,
                options.single_read_validation_level,
                options.paired_read_validation_level,
                options.disabled_validators.as_slice(),
                options.lint_mode,
                r1.pathname,
                r2.pathname,
            )
        },
        None => validate_single(
            reader_1,
            options.single_read_validation_level,
            options.disabled_validators.as_slice(),
            options.lint_mode,
            r1.pathname,
        ),
    }
}

} // verus!
