//! The steps of a run: judging one record or one pair, and applying the
//! mode to what the validators find.

use vstd::prelude::*;

use crate::commands::lint::evaluation::{
    duplicate_evaluations, Evaluation, findings, handled, lemma_handled_next, lemma_stopped,
    mate_evaluations, pair_evaluations, paired_evaluations, single_evaluations,
};
use crate::commands::lint::message::{build_error_message, error_message, text, texts};
use crate::fastq::record::Record;
use crate::validators::error::Error;
use crate::validators::level::LintMode;
use crate::validators::paired::PairedReadValidator;
use crate::validators::single::duplicate_name::DuplicateNameValidator;
use crate::validators::single::{reported, SingleReadValidator};

verus! {

/// Appends the message for a violation to the log.
pub fn log_validation_error(
    error: Error,
    pathname: &str,
    record_counter: usize,
    logged: &mut Vec<String>,
)
    ensures
        texts(final(logged)@) == texts(old(logged)@).push(
            error_message(error@, pathname@, record_counter as nat),
        ),
{
    let message = build_error_message(error, pathname, record_counter);
    logged.push(message);
    proof {
        assert(texts(logged@) =~= texts(old(logged)@).push(message@));
    }
}

/// Applies the mode to a violation. In `Panic` mode the message is handed
/// back, and the run is to stop with it; in `Log` mode it is appended to
/// the log, and the run goes on.
pub fn handle_validation_error(
    lint_mode: LintMode,
    error: Error,
    pathname: &str,
    record_counter: usize,
    logged: &mut Vec<String>,
) -> (stop: Option<String>)
    ensures
        handled(
            lint_mode,
            texts(old(logged)@),
            seq![error_message(error@, pathname@, record_counter as nat)],
            texts(final(logged)@),
            text(stop),
        ),
{
    let ghost message = error_message(error@, pathname@, record_counter as nat);
    match lint_mode {
        LintMode::Panic => Some(build_error_message(error, pathname, record_counter)),
        LintMode::Log => {
            log_validation_error(error, pathname, record_counter, logged);
            proof {
                assert(texts(old(logged)@) + seq![message] =~= texts(old(logged)@).push(message));
            }
            None
        },
    }
}

/// Applies the mode to what a validator handed back.
fn handle_result(
    result: Result<(), Error>,
    lint_mode: LintMode,
    pathname: &str,
    record_counter: usize,
    logged: &mut Vec<String>,
    Ghost(done): Ghost<Seq<Evaluation>>,
    Ghost(before): Ghost<Seq<Seq<char>>>,
) -> (stop: Option<String>)
    requires
        handled(lint_mode, before, findings(done), texts(old(logged)@), None),
    ensures
        handled(
            lint_mode,
            before,
            findings(
                done.push(
                    Evaluation {
                        result: reported(result),
                        pathname: pathname@,
                        record_counter: record_counter as nat,
                    },
                ),
            ),
            texts(final(logged)@),
            text(stop),
        ),
{
    let ghost next = Evaluation {
        result: reported(result),
        pathname: pathname@,
        record_counter: record_counter as nat,
    };
    proof {
        assert(done.push(next).drop_last() =~= done);
    }
    match result {
        Ok(_) => {
            proof {
                assert(findings(done.push(next)) =~= findings(done));
            }
            None
        },
        Err(error) => {
            let stop = handle_validation_error(lint_mode, error, pathname, record_counter, logged);
            proof {
                let message = error_message(error@, pathname@, record_counter as nat);
                assert(findings(done.push(next)) =~= findings(done).push(message));
                assert(before + findings(done) + seq![message] =~= before + findings(done).push(
                    message,
                ));
            }
            stop
        },
    }
}

/// Runs the validators on a record, in their order, and applies the mode to
/// each violation. `record` is a normalized record, and `record_counter`
/// its number in the file. Hands back the message to stop with, if the run
/// is to stop.
pub fn lint_record(
    validators: &[SingleReadValidator],
    record: &Record,
    lint_mode: LintMode,
    pathname: &str,
    record_counter: usize,
    logged: &mut Vec<String>,
) -> (stop: Option<String>)
    ensures
        handled(
            lint_mode,
            texts(old(logged)@),
            findings(single_evaluations(validators@, record@, pathname@, record_counter as nat)),
            texts(final(logged)@),
            text(stop),
        ),
{
    let ghost before = texts(logged@);
    let ghost all = single_evaluations(validators@, record@, pathname@, record_counter as nat);
    proof {
        assert(before + findings(all.take(0)) =~= before);
    }
    let mut j: usize = 0;
    while j < validators.len()
        invariant
            j <= validators.len(),
            before == texts(old(logged)@),
            all == single_evaluations(validators@, record@, pathname@, record_counter as nat),
            handled(lint_mode, before, findings(all.take(j as int)), texts(logged@), None),
        decreases validators.len() - j,
    {
        let result = validators[j].validate(record);
        proof {
            assert(all.take(j + 1) =~= all.take(j as int).push(all[j as int]));
        }
        let stop = handle_result(
            result,
            lint_mode,
            pathname,
            record_counter,
            logged,
            Ghost(all.take(j as int)),
            Ghost(before),
        );
        if stop.is_some() {
            proof {
                lemma_stopped(
                    lint_mode,
                    before,
                    all.take(j + 1),
                    all.skip(j + 1),
                    texts(logged@),
                    text(stop),
                );
                assert(all.take(j + 1) + all.skip(j + 1) =~= all);
            }
            return stop;
        }
        j += 1;
    }
    proof {
        assert(all.take(j as int) =~= all);
    }
    None
}

/// Runs the validators on a pair and applies the mode to each violation:
/// the single-read validators judge read 1, then they judge read 2, and
/// then the paired-read validators judge the pair. `r` and `s` are normalized
/// records, and `record_counter` is their number in both files. Hands back
/// the message to stop with, if the run is to stop.
pub fn lint_pair(
    single: &[SingleReadValidator],
    paired: &[PairedReadValidator],
    r: &Record,
    s: &Record,
    lint_mode: LintMode,
    pathname_1: &str,
    pathname_2: &str,
    record_counter: usize,
    logged: &mut Vec<String>,
) -> (stop: Option<String>)
    ensures
        handled(
            lint_mode,
            texts(old(logged)@),
            findings(
                pair_evaluations(
                    single@,
                    paired@,
                    r@,
                    s@,
                    pathname_1@,
                    pathname_2@,
                    record_counter as nat,
                ),
            ),
            texts(final(logged)@),
            text(stop),
        ),
{
    let ghost before = texts(logged@);
    let ghost first = single_evaluations(single@, r@, pathname_1@, record_counter as nat);
    let ghost second = single_evaluations(single@, s@, pathname_2@, record_counter as nat);
    let ghost mates = first + second;
    let ghost pairs = paired_evaluations(paired@, r@, s@, pathname_1@, record_counter as nat);
    let ghost all = mates + pairs;
    let stop = lint_record(single, r, lint_mode, pathname_1, record_counter, logged);
    if stop.is_some() {
        proof {
            lemma_stopped(lint_mode, before, first, second + pairs, texts(logged@), text(stop));
            assert(first + (second + pairs) =~= all);
        }
        return stop;
    }
    let ghost earlier = texts(logged@);
    let stop = lint_record(single, s, lint_mode, pathname_2, record_counter, logged);
    proof {
        lemma_handled_next(lint_mode, before, first, earlier, second, texts(logged@), text(stop));
    }
    if stop.is_some() {
        proof {
            lemma_stopped(lint_mode, before, mates, pairs, texts(logged@), text(stop));
        }
        return stop;
    }
    proof {
        assert(mates + pairs.take(0) =~= mates);
    }
    let mut j: usize = 0;
    while j < paired.len()
        invariant
            j <= paired.len(),
            before == texts(old(logged)@),
            mates == mate_evaluations(
                single@,
                r@,
                s@,
                pathname_1@,
                pathname_2@,
                record_counter as nat,
            ),
            pairs == paired_evaluations(paired@, r@, s@, pathname_1@, record_counter as nat),
            all == mates + pairs,
            handled(lint_mode, before, findings(mates + pairs.take(j as int)), texts(logged@), None),
        decreases paired.len() - j,
    {
        let result = paired[j].validate(r, s);
        proof {
            assert(mates + pairs.take(j + 1) =~= (mates + pairs.take(j as int)).push(
                pairs[j as int],
            ));
        }
        let stop = handle_result(
            result,
            lint_mode,
            pathname_1,
            record_counter,
            logged,
            Ghost(mates + pairs.take(j as int)),
            Ghost(before),
        );
        if stop.is_some() {
            proof {
                lemma_stopped(
                    lint_mode,
                    before,
                    mates + pairs.take(j + 1),
                    pairs.skip(j + 1),
                    texts(logged@),
                    text(stop),
                );
                assert((mates + pairs.take(j + 1)) + pairs.skip(j + 1) =~= all);
            }
            return stop;
        }
        j += 1;
    }
    proof {
        assert(mates + pairs.take(j as int) =~= all);
    }
    None
}

/// Second pass: judges a record against the names that the validator of
/// duplicate names has collected, and applies the mode to a violation.
/// `record` is a normalized record, and `record_counter` its number in the
/// file. Hands back the message to stop with, if the run is to stop.
pub fn lint_duplicate(
    validator: &DuplicateNameValidator,
    record: &Record,
    lint_mode: LintMode,
    pathname: &str,
    record_counter: usize,
    logged: &mut Vec<String>,
) -> (stop: Option<String>)
    ensures
        handled(
            lint_mode,
            texts(old(logged)@),
            findings(
                duplicate_evaluations(validator@, record@, pathname@, record_counter as nat),
            ),
            texts(final(logged)@),
            text(stop),
        ),
{
    let ghost before = texts(logged@);
    let ghost none = Seq::<Evaluation>::empty();
    proof {
        assert(before + findings(none) =~= before);
    }
    let result = validator.validate(record);
    proof {
        assert(duplicate_evaluations(validator@, record@, pathname@, record_counter as nat)
            =~= none.push(
            Evaluation {
                result: reported(result),
                pathname: pathname@,
                record_counter: record_counter as nat,
            },
        ));
    }
    handle_result(result, lint_mode, pathname, record_counter, logged, Ghost(none), Ghost(before))
}

/// Where two streams that are read in step stand after a read from each.
#[derive(Clone, Copy, Debug, PartialEq, Eq, Structural)]
pub enum Synchronization {
    /// Both handed out a record.
    InStep,
    /// The first stream has ended and the second has not.
    FirstEnded,
    /// The second stream has ended and the first has not.
    SecondEnded,
    /// Both have ended.
    BothEnded,
}

/// Where two streams stand, given the number of bytes that the last read
/// from each took up. A stream that took up none has ended.
pub open spec fn spec_synchronize(r1_len: usize, r2_len: usize) -> Synchronization {
    if r1_len == 0 && r2_len > 0 {
        Synchronization::FirstEnded
    } else if r2_len == 0 && r1_len > 0 {
        Synchronization::SecondEnded
    } else if r1_len == 0 && r2_len == 0 {
        Synchronization::BothEnded
    } else {
        Synchronization::InStep
    }
}

/// Where two streams stand, given the number of bytes that the last read
/// from each took up.
pub fn synchronize(r1_len: usize, r2_len: usize) -> (state: Synchronization)
    ensures
        state == spec_synchronize(r1_len, r2_len),
{
    if r1_len == 0 && r2_len > 0 {
        Synchronization::FirstEnded
    } else if r2_len == 0 && r1_len > 0 {
        Synchronization::SecondEnded
    } else if r1_len == 0 && r2_len == 0 {
        Synchronization::BothEnded
    } else {
        Synchronization::InStep
    }
}

} // verus!
