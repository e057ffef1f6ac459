//! Runs for a caller that reads the streams itself and hands over what it
//! has read, event by event.

use vstd::multiset::Multiset;
use vstd::prelude::*;
use vstd::string::StringExecFns;

use crate::commands::lint::evaluation::{
    duplicate_evaluations, findings, handled, pair_evaluations, single_evaluations,
};
use crate::commands::lint::message::{
    build_unexpected_end_message, text, texts, unexpected_end_message,
};
use crate::commands::lint::report::{LintOutcome, LintOutcomeView};
use crate::commands::lint::step::{
    lint_duplicate, lint_pair, lint_record, spec_synchronize, Synchronization, synchronize,
};
use crate::fastq::record::{normalized, normalized_name, Record};
use crate::validators::{
    active_paired, active_single, code_is_disabled, filter_validators, is_disabled,
};
use crate::validators::level::{LintMode, ValidationLevel};
use crate::validators::paired::PairedReadValidator;
use crate::validators::single::duplicate_name::DuplicateNameValidator;
use crate::validators::single::SingleReadValidator;

verus! {

/// What a run asks of its caller next.
#[derive(Debug, PartialEq, Eq)]
pub enum Action {
    /// Read on and hand over what was read: the next record, or the next
    /// record of each stream.
    Read,
    /// Open the first stream again and hand over its records for the
    /// second pass.
    Reread,
    /// Stop: the run has ended.
    Finish(LintOutcome),
}

/// What an [`Action`] holds, its texts as sequences of characters.
pub enum ActionView {
    Read,
    Reread,
    Finish(LintOutcomeView),
}

impl View for Action {
    type V = ActionView;

    open spec fn view(&self) -> ActionView {
        match self {
            Action::Read => ActionView::Read,
            Action::Reread => ActionView::Reread,
            Action::Finish(outcome) => ActionView::Finish(outcome@),
        }
    }
}

/// The message of the violation that an action stops the run with, if it
/// does.
pub open spec fn stop_of(action: ActionView) -> Option<Seq<char>> {
    match action {
        ActionView::Finish(LintOutcomeView::Violation { message }) => Some(message),
        _ => None,
    }
}

/// The action after a record or a pair was judged: to stop with the
/// message, if there is one, else to read on.
pub open spec fn stepped(stop: Option<Seq<char>>) -> ActionView {
    match stop {
        Some(message) => ActionView::Finish(LintOutcomeView::Violation { message }),
        None => ActionView::Read,
    }
}

/// The action after a record or a pair was judged.
fn step(stop: Option<String>) -> (action: Action)
    ensures
        action@ == stepped(text(stop)),
        stop_of(action@) == text(stop),
{
    match stop {
        Some(message) => Action::Finish(LintOutcome::Violation { message }),
        None => Action::Read,
    }
}

/// A run over one stream, for a caller that reads the stream itself: it
/// hands over record after record and then, if the run asks for it, the
/// records of the stream once more.
pub struct SingleLint {
    /// The active validators, in the order in which they run.
    pub validators: Vec<SingleReadValidator>,
    /// Whether the validator of duplicate names is active, and so whether
    /// there is a second pass.
    pub duplicates: bool,
    /// The validator of duplicate names, with the names of the records
    /// that were judged.
    pub names: DuplicateNameValidator,
    pub lint_mode: LintMode,
    /// The file that violations are reported against.
    pub pathname: String,
    /// The number of records that were judged in the first pass.
    pub record_counter: usize,
    /// The number of records that were judged in the second pass.
    pub recheck_counter: usize,
}

impl SingleLint {
    /// A run that has read nothing yet, with the single-read validators
    /// that the level and the disabled codes leave active.
    pub fn new(
        single_read_validation_level: ValidationLevel,
        disabled_validators: &[String],
        lint_mode: LintMode,
        r1_src: &str,
    ) -> (run: Self)
        ensures
            run.validators@ == active_single(single_read_validation_level, disabled_validators@),
            run.duplicates == !is_disabled(
                disabled_validators@,
                DuplicateNameValidator::spec_code(),
            ),
            run.names@ == Multiset::<Seq<u8>>::empty(),
            run.lint_mode == lint_mode,
            run.pathname@ == r1_src@,
            run.record_counter == 0,
            run.recheck_counter == 0,
    {
        let (validators, _) = filter_validators(
            single_read_validation_level,
            None,
            disabled_validators,
        );
        let names = DuplicateNameValidator::new();
        let duplicates = !code_is_disabled(disabled_validators, names.code());
        SingleLint {
            validators,
            duplicates,
            names,
            lint_mode,
            pathname: String::from_str(r1_src),
            record_counter: 0,
            recheck_counter: 0,
        }
    }

    /// Whether the run is as it was but for its counters and the names
    /// that it has collected.
    pub open spec fn set_as(self, before: SingleLint) -> bool {
        &&& self.validators == before.validators
        &&& self.duplicates == before.duplicates
        &&& self.lint_mode == before.lint_mode
        &&& self.pathname == before.pathname
    }

    /// First pass. Takes what a read of the stream gave: the number of
    /// bytes that it took up and the record that it filled. No bytes mean
    /// the end of the stream: the run is completed, or goes on to the
    /// second pass if the validator of duplicate names is active. Else the
    /// record is normalized, its name is collected for the second pass, it
    /// is judged by each validator, the mode is applied to each violation,
    /// and the run goes on unless a violation stops it.
    pub fn advance(&mut self, bytes_read: usize, record: &mut Record, logged: &mut Vec<String>) -> (action:
        Action)
        requires
            bytes_read > 0 ==> old(self).record_counter < usize::MAX,
        ensures
            final(self).set_as(*old(self)),
            final(self).recheck_counter == old(self).recheck_counter,
            bytes_read == 0 ==> {
                &&& action@ == if old(self).duplicates {
                    ActionView::Reread
                } else {
                    ActionView::Finish(
                        LintOutcomeView::Completed { records: old(self).record_counter as nat },
                    )
                }
                &&& final(self).record_counter == old(self).record_counter
                &&& final(self).names@ == old(self).names@
                &&& final(record)@ == old(record)@
                &&& final(logged)@ == old(logged)@
            },
            bytes_read > 0 ==> {
                &&& final(record)@ == normalized(old(record)@)
                &&& final(self).names@ == if old(self).duplicates {
                    old(self).names@.insert(normalized_name(old(record)@.name))
                } else {
                    old(self).names@
                }
                &&& handled(
                    old(self).lint_mode,
                    texts(old(logged)@),
                    findings(
                        single_evaluations(
                            old(self).validators@,
                            normalized(old(record)@),
                            old(self).pathname@,
                            old(self).record_counter as nat,
                        ),
                    ),
                    texts(final(logged)@),
                    stop_of(action@),
                )
                &&& action@ == stepped(stop_of(action@))
                &&& final(self).record_counter == old(self).record_counter + 1
            },
    {
        if bytes_read == 0 {
            if self.duplicates {
                return Action::Reread;
            }
            return Action::Finish(LintOutcome::Completed { records: self.record_counter });
        }
        record.reset();
        if self.duplicates {
            self.names.insert(record);
        }
        let stop = lint_record(
            self.validators.as_slice(),
            record,
            self.lint_mode,
            self.pathname.as_str(),
            self.record_counter,
            logged,
        );
        self.record_counter += 1;
        step(stop)
    }

    /// Second pass. Takes what a read of the stream, opened again, gave:
    /// the number of bytes that it took up and the record that it filled.
    /// No bytes mean the end of the stream, and the run is completed. Else
    /// the record is normalized and judged against the names of the first
    /// pass, the mode is applied to a violation, and the run goes on unless
    /// the violation stops it.
    pub fn recheck(&mut self, bytes_read: usize, record: &mut Record, logged: &mut Vec<String>) -> (action:
        Action)
        requires
            bytes_read > 0 ==> old(self).recheck_counter < usize::MAX,
        ensures
            final(self).set_as(*old(self)),
            final(self).names@ == old(self).names@,
            final(self).record_counter == old(self).record_counter,
            bytes_read == 0 ==> {
                &&& action@ == ActionView::Finish(
                    LintOutcomeView::Completed { records: old(self).record_counter as nat },
                )
                &&& final(self).recheck_counter == old(self).recheck_counter
                &&& final(record)@ == old(record)@
                &&& final(logged)@ == old(logged)@
            },
            bytes_read > 0 ==> {
                &&& final(record)@ == normalized(old(record)@)
                &&& handled(
                    old(self).lint_mode,
                    texts(old(logged)@),
                    findings(
                        duplicate_evaluations(
                            old(self).names@,
                            normalized(old(record)@),
                            old(self).pathname@,
                            old(self).recheck_counter as nat,
                        ),
                    ),
                    texts(final(logged)@),
                    stop_of(action@),
                )
                &&& action@ == stepped(stop_of(action@))
                &&& final(self).recheck_counter == old(self).recheck_counter + 1
            },
    {
        if bytes_read == 0 {
            return Action::Finish(LintOutcome::Completed { records: self.record_counter });
        }
        record.reset();
        let stop = lint_duplicate(
            &self.names,
            record,
            self.lint_mode,
            self.pathname.as_str(),
            self.recheck_counter,
            logged,
        );
        self.recheck_counter += 1;
        step(stop)
    }
}

/// A run over two streams, for a caller that reads the streams itself: it
/// hands over pair after pair and then, if the run asks for it, the
/// records of the first stream once more.
pub struct PairLint {
    /// The active single-read validators, in the order in which they run.
    pub single: Vec<SingleReadValidator>,
    /// The active paired-read validators, in the order in which they run.
    pub paired: Vec<PairedReadValidator>,
    /// Whether the validator of duplicate names is active, and so whether
    /// there is a second pass.
    pub duplicates: bool,
    /// The validator of duplicate names, with the names of read 1 of the
    /// pairs that were judged.
    pub names: DuplicateNameValidator,
    pub lint_mode: LintMode,
    /// The file of read 1.
    pub r1_src: String,
    /// The file of read 2.
    pub r2_src: String,
    /// The number of pairs that were judged in the first pass.
    pub record_counter: usize,
    /// The number of records that were judged in the second pass.
    pub recheck_counter: usize,
}

impl PairLint {
    /// A run that has read nothing yet, with the validators that the
    /// levels and the disabled codes leave active.
    pub fn new(
        single_read_validation_level: ValidationLevel,
        paired_read_validation_level: ValidationLevel,
        disabled_validators: &[String],
        lint_mode: LintMode,
        r1_src: &str,
        r2_src: &str,
    ) -> (run: Self)
        ensures
            run.single@ == active_single(single_read_validation_level, disabled_validators@),
            run.paired@ == active_paired(Some(paired_read_validation_level), disabled_validators@),
            run.duplicates == !is_disabled(
                disabled_validators@,
                DuplicateNameValidator::spec_code(),
            ),
            run.names@ == Multiset::<Seq<u8>>::empty(),
            run.lint_mode == lint_mode,
            run.r1_src@ == r1_src@,
            run.r2_src@ == r2_src@,
            run.record_counter == 0,
            run.recheck_counter == 0,
    {
        let (single, paired) = filter_validators(
            single_read_validation_level,
            Some(paired_read_validation_level),
            disabled_validators,
        );
        let names = DuplicateNameValidator::new();
        let duplicates = !code_is_disabled(disabled_validators, names.code());
        PairLint {
            single,
            paired,
            duplicates,
            names,
            lint_mode,
            r1_src: String::from_str(r1_src),
            r2_src: String::from_str(r2_src),
            record_counter: 0,
            recheck_counter: 0,
        }
    }

    /// Whether the run is as it was but for its counters and the names
    /// that it has collected.
    pub open spec fn set_as(self, before: PairLint) -> bool {
        &&& self.single == before.single
        &&& self.paired == before.paired
        &&& self.duplicates == before.duplicates
        &&& self.lint_mode == before.lint_mode
        &&& self.r1_src == before.r1_src
        &&& self.r2_src == before.r2_src
    }

    /// First pass. Takes what a read of each stream gave: the number of
    /// bytes that it took up and the record that it filled. A stream that
    /// has ended before the other stops the run. Where both have ended, the
    /// run is completed, or goes on to the second pass if the validator of
    /// duplicate names is active. Else the two records are normalized, the
    /// name of read 1 is collected for the second pass, the single-read
    /// validators judge read 1 and then read 2, the paired-read validators
    /// judge the pair, the mode is applied to each violation, and the run
    /// goes on unless a violation stops it.
    pub fn advance(
        &mut self,
        r1_len: usize,
        r2_len: usize,
        record_1: &mut Record,
        record_2: &mut Record,
        logged: &mut Vec<String>,
    ) -> (action: Action)
        requires
            spec_synchronize(r1_len, r2_len) == Synchronization::InStep ==> old(self).record_counter
                < usize::MAX,
        ensures
            final(self).set_as(*old(self)),
            final(self).recheck_counter == old(self).recheck_counter,
            spec_synchronize(r1_len, r2_len) != Synchronization::InStep ==> {
                &&& final(self).record_counter == old(self).record_counter
                &&& final(self).names@ == old(self).names@
                &&& final(record_1)@ == old(record_1)@
                &&& final(record_2)@ == old(record_2)@
                &&& final(logged)@ == old(logged)@
            },
            spec_synchronize(r1_len, r2_len) == Synchronization::FirstEnded ==> action@
                == ActionView::Finish(
                LintOutcomeView::UnexpectedEnd {
                    message: unexpected_end_message(old(self).r1_src@, old(self).r2_src@),
                },
            ),
            spec_synchronize(r1_len, r2_len) == Synchronization::SecondEnded ==> action@
                == ActionView::Finish(
                LintOutcomeView::UnexpectedEnd {
                    message: unexpected_end_message(old(self).r2_src@, old(self).r1_src@),
                },
            ),
            spec_synchronize(r1_len, r2_len) == Synchronization::BothEnded ==> action@ == if old(
                self,
            ).duplicates {
                ActionView::Reread
            } else {
                ActionView::Finish(
                    LintOutcomeView::Completed { records: old(self).record_counter as nat },
                )
            },
            spec_synchronize(r1_len, r2_len) == Synchronization::InStep ==> {
                &&& final(record_1)@ == normalized(old(record_1)@)
                &&& final(record_2)@ == normalized(old(record_2)@)
                &&& final(self).names@ == if old(self).duplicates {
                    old(self).names@.insert(normalized_name(old(record_1)@.name))
                } else {
                    old(self).names@
                }
                &&& handled(
                    old(self).lint_mode,
                    texts(old(logged)@),
                    findings(
                        pair_evaluations(
                            old(self).single@,
                            old(self).paired@,
                            normalized(old(record_1)@),
                            normalized(old(record_2)@),
                            old(self).r1_src@,
                            old(self).r2_src@,
                            old(self).record_counter as nat,
                        ),
                    ),
                    texts(final(logged)@),
                    stop_of(action@),
                )
                &&& action@ == stepped(stop_of(action@))
                &&& final(self).record_counter == old(self).record_counter + 1
            },
    {
        match synchronize(r1_len, r2_len) {
            Synchronization::FirstEnded => {
                let message = build_unexpected_end_message(
                    self.r1_src.as_str(),
                    self.r2_src.as_str(),
                );
                return Action::Finish(LintOutcome::UnexpectedEnd { message });
            },
            Synchronization::SecondEnded => {
                let message = build_unexpected_end_message(
                    self.r2_src.as_str(),
                    self.r1_src.as_str(),
                );
                return Action::Finish(LintOutcome::UnexpectedEnd { message });
            },
            Synchronization::BothEnded => {
                if self.duplicates {
                    return Action::Reread;
                }
                return Action::Finish(LintOutcome::Completed { records: self.record_counter });
            },
            Synchronization::InStep => {},
        }
        record_1.reset();
        record_2.reset();
        if self.duplicates {
            self.names.insert(record_1);
        }
        let stop = lint_pair(
            self.single.as_slice(),
            self.paired.as_slice(),
            record_1,
            record_2,
            self.lint_mode,
            self.r1_src.as_str(),
            self.r2_src.as_str(),
            self.record_counter,
            logged,
        );
        self.record_counter += 1;
        step(stop)
    }

    /// Second pass. Takes what a read of the first stream, opened again,
    /// gave: the number of bytes that it took up and the record that it
    /// filled. No bytes mean the end of the stream, and the run is
    /// completed. Else the record is normalized and judged against the
    /// names of the first pass, the mode is applied to a violation, and the
    /// run goes on unless the violation stops it.
    pub fn recheck(&mut self, bytes_read: usize, record: &mut Record, logged: &mut Vec<String>) -> (action:
        Action)
        requires
            bytes_read > 0 ==> old(self).recheck_counter < usize::MAX,
        ensures
            final(self).set_as(*old(self)),
            final(self).names@ == old(self).names@,
            final(self).record_counter == old(self).record_counter,
            bytes_read == 0 ==> {
                &&& action@ == ActionView::Finish(
                    LintOutcomeView::Completed { records: old(self).record_counter as nat },
                )
                &&& final(self).recheck_counter == old(self).recheck_counter
                &&& final(record)@ == old(record)@
                &&& final(logged)@ == old(logged)@
            },
            bytes_read > 0 ==> {
                &&& final(record)@ == normalized(old(record)@)
                &&& handled(
                    old(self).lint_mode,
                    texts(old(logged)@),
                    findings(
                        duplicate_evaluations(
                            old(self).names@,
                            normalized(old(record)@),
                            old(self).r1_src@,
                            old(self).recheck_counter as nat,
                        ),
                    ),
                    texts(final(logged)@),
                    stop_of(action@),
                )
                &&& action@ == stepped(stop_of(action@))
                &&& final(self).recheck_counter == old(self).recheck_counter + 1
            },
    {
        if bytes_read == 0 {
            return Action::Finish(LintOutcome::Completed { records: self.record_counter });
        }
        record.reset();
        let stop = lint_duplicate(
            &self.names,
            record,
            self.lint_mode,
            self.r1_src.as_str(),
            self.recheck_counter,
            logged,
        );
        self.recheck_counter += 1;
        step(stop)
    }
}

} // verus!
