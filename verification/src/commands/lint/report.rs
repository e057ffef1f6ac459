//! What a run leaves behind, and what it is to leave behind.

use vstd::prelude::*;

use crate::commands::lint::evaluation::{
    duplicate_rule, findings, names_of, pair_rule, pairs_of, scan, single_rule,
};
use crate::commands::lint::message::{texts, unexpected_end_message};
use crate::fastq::record::RecordView;
use crate::validators::level::LintMode;
use crate::validators::paired::PairedReadValidator;
use crate::validators::single::SingleReadValidator;

verus! {

/// How a run ended.
#[derive(Debug, PartialEq, Eq)]
pub enum LintOutcome {
    /// The end of the input was reached; `records` is the number of
    /// records, or of pairs, that were read.
    Completed { records: usize },
    /// A violation stopped the run; `message` reports it.
    Violation { message: String },
    /// One of two streams ended before the other; `message` says which.
    UnexpectedEnd { message: String },
}

/// What a [`LintOutcome`] holds, its texts as sequences of characters.
pub enum LintOutcomeView {
    Completed { records: nat },
    Violation { message: Seq<char> },
    UnexpectedEnd { message: Seq<char> },
}

impl View for LintOutcome {
    type V = LintOutcomeView;

    open spec fn view(&self) -> LintOutcomeView {
        match self {
            LintOutcome::Completed { records } => LintOutcomeView::Completed {
                records: *records as nat,
            },
            LintOutcome::Violation { message } => LintOutcomeView::Violation { message: message@ },
            LintOutcome::UnexpectedEnd { message } => LintOutcomeView::UnexpectedEnd {
                message: message@,
            },
        }
    }
}

/// What a run leaves behind: the messages that it logged, in order, and
/// how it ended.
#[derive(Debug, PartialEq, Eq)]
pub struct LintReport {
    pub logged: Vec<String>,
    pub outcome: LintOutcome,
}

/// What a [`LintReport`] holds, its texts as sequences of characters.
pub struct LintReportView {
    pub logged: Seq<Seq<char>>,
    pub outcome: LintOutcomeView,
}

impl View for LintReport {
    type V = LintReportView;

    open spec fn view(&self) -> LintReportView {
        LintReportView { logged: texts(self.logged@), outcome: self.outcome@ }
    }
}

impl LintReport {
    /// The status with which a process that made this run exits: 0 when
    /// the run was completed, 1 when a violation or the early end of a
    /// stream stopped it.
    pub fn exit_status(&self) -> (status: u8)
        ensures
            status == if self@.outcome is Completed {
                0u8
            } else {
                1u8
            },
    {
        match &self.outcome {
            LintOutcome::Completed { .. } => 0,
            _ => 1,
        }
    }
}

/// The report of a run, from the messages of its passes. `unexpected_end`
/// is the message about a stream that ended early, if one did, in which
/// case there is no second pass. In `Log` mode all messages are logged and
/// only an early end stops the run; in `Panic` mode nothing is logged and
/// the first message of all stops it.
pub open spec fn run_of(
    lint_mode: LintMode,
    first_pass: Seq<Seq<char>>,
    unexpected_end: Option<Seq<char>>,
    second_pass: Seq<Seq<char>>,
    records: nat,
) -> LintReportView {
    match lint_mode {
        LintMode::Log => match unexpected_end {
            Some(message) => LintReportView {
                logged: first_pass,
                outcome: LintOutcomeView::UnexpectedEnd { message },
            },
            None => LintReportView {
                logged: first_pass + second_pass,
                outcome: LintOutcomeView::Completed { records },
            },
        },
        LintMode::Panic => LintReportView {
            logged: Seq::empty(),
            outcome: if first_pass.len() > 0 {
                LintOutcomeView::Violation { message: first_pass[0] }
            } else {
                match unexpected_end {
                    Some(message) => LintOutcomeView::UnexpectedEnd { message },
                    None => if second_pass.len() > 0 {
                        LintOutcomeView::Violation { message: second_pass[0] }
                    } else {
                        LintOutcomeView::Completed { records }
                    },
                }
            },
        },
    }
}

/// The report of a run over one stream of records. The first pass judges
/// the records of `stream`. The second pass, which takes place if
/// `duplicates` holds, judges the records of `reread` against the names of
/// `stream`.
pub open spec fn single_run(
    validators: Seq<SingleReadValidator>,
    duplicates: bool,
    stream: Seq<RecordView>,
    reread: Seq<RecordView>,
    lint_mode: LintMode,
    pathname: Seq<char>,
) -> LintReportView {
    run_of(
        lint_mode,
        findings(scan(stream, 0, single_rule(validators, pathname))),
        None,
        if duplicates {
            findings(scan(reread, 0, duplicate_rule(names_of(stream), pathname)))
        } else {
            Seq::empty()
        },
        stream.len(),
    )
}

/// The message about the stream that ended early, if the streams differ in
/// their number of records.
pub open spec fn unexpected_end(
    first: nat,
    second: nat,
    pathname_1: Seq<char>,
    pathname_2: Seq<char>,
) -> Option<Seq<char>> {
    if first < second {
        Some(unexpected_end_message(pathname_1, pathname_2))
    } else if second < first {
        Some(unexpected_end_message(pathname_2, pathname_1))
    } else {
        None
    }
}

/// The report of a run over two streams of records. The first pass judges
/// the pairs of `first` and `second`. The second pass, which takes place
/// if `duplicates` holds, judges the records of `reread` against the names
/// of `first`.
pub open spec fn pair_run(
    single: Seq<SingleReadValidator>,
    paired: Seq<PairedReadValidator>,
    duplicates: bool,
    first: Seq<RecordView>,
    second: Seq<RecordView>,
    reread: Seq<RecordView>,
    lint_mode: LintMode,
    pathname_1: Seq<char>,
    pathname_2: Seq<char>,
) -> LintReportView {
    run_of(
        lint_mode,
        findings(
            scan(pairs_of(first, second), 0, pair_rule(single, paired, pathname_1, pathname_2)),
        ),
        unexpected_end(first.len(), second.len(), pathname_1, pathname_2),
        if duplicates {
            findings(scan(reread, 0, duplicate_rule(names_of(first), pathname_1)))
        } else {
            Seq::empty()
        },
        pairs_of(first, second).len(),
    )
}

} // verus!
