//! The validators that judge one record at a time.

pub mod duplicate_name;

pub use duplicate_name::DuplicateNameValidator;

use vstd::prelude::*;
use vstd::string::StringExecFns;

use crate::bytes::{first_rejected, lemma_first_rejected_at};
use crate::fastq::record::{Record, RecordView};
use crate::text::{decimal, push_decimal};
use crate::validators::error::{Error, ErrorView, LineType};
use crate::validators::level::ValidationLevel;

verus! {

/// Whether `b` is the code of a residue: one of `ACGTN`, in either case.
pub open spec fn is_base(b: u8) -> bool {
    b == 0x41 || b == 0x43 || b == 0x47 || b == 0x54 || b == 0x4e || b == 0x61 || b == 0x63 || b
        == 0x67 || b == 0x74 || b == 0x6e
}

/// Whether `b` encodes a quality score: a printable character from `!` to `~`.
pub open spec fn is_quality_symbol(b: u8) -> bool {
    0x21 <= b <= 0x7e
}

/// A validator of single records. Each is a rule of its own, with a code
/// that names it in reports and on the command line, a name, and the level
/// from which it is used.
#[derive(Clone, Copy, Debug, PartialEq, Eq, Structural, Hash)]
pub enum SingleReadValidator {
    /// The plus line starts with `+`.
    PlusLine,
    /// The sequence holds residue codes only.
    Alphabet,
    /// The name line starts with `@`.
    Name,
    /// None of the four lines is empty.
    Complete,
    /// The sequence and the quality scores have the same length.
    ConsistentSeqQual,
    /// The quality scores are printable characters.
    QualityString,
}

/// What a validator handed back, as a contract sees it: the violation, if any.
pub open spec fn reported(r: Result<(), Error>) -> Option<ErrorView> {
    match r {
        Ok(_) => None,
        Err(e) => Some(e@),
    }
}

impl SingleReadValidator {
    pub open spec fn spec_code(self) -> Seq<char> {
        match self {
            SingleReadValidator::PlusLine => "S001"@,
            SingleReadValidator::Alphabet => "S002"@,
            SingleReadValidator::Name => "S003"@,
            SingleReadValidator::Complete => "S004"@,
            SingleReadValidator::ConsistentSeqQual => "S005"@,
            SingleReadValidator::QualityString => "S006"@,
        }
    }

    pub open spec fn spec_name(self) -> Seq<char> {
        match self {
            SingleReadValidator::PlusLine => "PlusLineValidator"@,
            SingleReadValidator::Alphabet => "AlphabetValidator"@,
            SingleReadValidator::Name => "NameValidator"@,
            SingleReadValidator::Complete => "CompleteValidator"@,
            SingleReadValidator::ConsistentSeqQual => "ConsistentSeqQualValidator"@,
            SingleReadValidator::QualityString => "QualityStringValidator"@,
        }
    }

    pub open spec fn spec_level(self) -> ValidationLevel {
        match self {
            SingleReadValidator::PlusLine => ValidationLevel::Low,
            SingleReadValidator::Alphabet => ValidationLevel::Medium,
            SingleReadValidator::Name => ValidationLevel::High,
            SingleReadValidator::Complete => ValidationLevel::Low,
            SingleReadValidator::ConsistentSeqQual => ValidationLevel::High,
            SingleReadValidator::QualityString => ValidationLevel::Medium,
        }
    }

    /// A violation that this validator reports.
    pub open spec fn violation(
        self,
        message: Seq<char>,
        line_type: LineType,
        col_no: Option<usize>,
    ) -> ErrorView {
        ErrorView { code: self.spec_code(), name: self.spec_name(), message, line_type, col_no }
    }

    /// What the validator finds in a record: nothing, or one violation.
    pub open spec fn spec_validate(self, r: RecordView) -> Option<ErrorView> {
        match self {
            SingleReadValidator::PlusLine => {
                if r.plus_line.len() > 0 && r.plus_line[0] == 0x2b {
                    None
                } else {
                    Some(self.violation("Does not start with a '+'"@, LineType::PlusLine, Some(1)))
                }
            },
            SingleReadValidator::Alphabet => {
                let at = first_rejected(r.sequence, |b: u8| is_base(b));
                if at < r.sequence.len() {
                    Some(
                        self.violation(
                            "Invalid character: "@.push(r.sequence[at] as char),
                            LineType::Sequence,
                            Some((at + 1) as usize),
                        ),
                    )
                } else {
                    None
                }
            },
            SingleReadValidator::Name => {
                if r.name.len() > 0 && r.name[0] == 0x40 {
                    None
                } else {
                    Some(self.violation("Does not start with an '@'"@, LineType::Name, Some(1)))
                }
            },
            SingleReadValidator::Complete => {
                if r.name.len() == 0 {
                    Some(self.violation("Incomplete record: name is empty"@, LineType::Name, None))
                } else if r.sequence.len() == 0 {
                    Some(
                        self.violation(
                            "Incomplete record: sequence is empty"@,
                            LineType::Sequence,
                            None,
                        ),
                    )
                } else if r.plus_line.len() == 0 {
                    Some(
                        self.violation(
                            "Incomplete record: plus line is empty"@,
                            LineType::PlusLine,
                            None,
                        ),
                    )
                } else if r.quality_scores.len() == 0 {
                    Some(
                        self.violation(
                            "Incomplete record: quality is empty"@,
                            LineType::QualityScore,
                            None,
                        ),
                    )
                } else {
                    None
                }
            },
            SingleReadValidator::ConsistentSeqQual => {
                if r.sequence.len() == r.quality_scores.len() {
                    None
                } else {
                    Some(
                        self.violation(
                            "Sequence and quality lengths do not match (expected "@ + decimal(
                                r.sequence.len(),
                            ) + ", got "@ + decimal(r.quality_scores.len()) + ")"@,
                            LineType::QualityScore,
                            None,
                        ),
                    )
                }
            },
            SingleReadValidator::QualityString => {
                let at = first_rejected(r.quality_scores, |b: u8| is_quality_symbol(b));
                if at < r.quality_scores.len() {
                    Some(
                        self.violation(
                            "Invalid character: "@.push(r.quality_scores[at] as char),
                            LineType::QualityScore,
                            Some((at + 1) as usize),
                        ),
                    )
                } else {
                    None
                }
            },
        }
    }

    /// The code that names the validator in reports and disables it.
    pub fn code(&self) -> (r: &'static str)
        ensures
            r@ == self.spec_code(),
    {
        match self {
            SingleReadValidator::PlusLine => "S001",
            SingleReadValidator::Alphabet => "S002",
            SingleReadValidator::Name => "S003",
            SingleReadValidator::Complete => "S004",
            SingleReadValidator::ConsistentSeqQual => "S005",
            SingleReadValidator::QualityString => "S006",
        }
    }

    pub fn name(&self) -> (r: &'static str)
        ensures
            r@ == self.spec_name(),
    {
        match self {
            SingleReadValidator::PlusLine => "PlusLineValidator",
            SingleReadValidator::Alphabet => "AlphabetValidator",
            SingleReadValidator::Name => "NameValidator",
            SingleReadValidator::Complete => "CompleteValidator",
            SingleReadValidator::ConsistentSeqQual => "ConsistentSeqQualValidator",
            SingleReadValidator::QualityString => "QualityStringValidator",
        }
    }

    /// The lowest ceiling at which the validator is used.
    pub fn level(&self) -> (r: ValidationLevel)
        ensures
            r == self.spec_level(),
    {
        match self {
            SingleReadValidator::PlusLine => ValidationLevel::Low,
            SingleReadValidator::Alphabet => ValidationLevel::Medium,
            SingleReadValidator::Name => ValidationLevel::High,
            SingleReadValidator::Complete => ValidationLevel::Low,
            SingleReadValidator::ConsistentSeqQual => ValidationLevel::High,
            SingleReadValidator::QualityString => ValidationLevel::Medium,
        }
    }

    fn fail(&self, message: &str, line_type: LineType, col_no: Option<usize>) -> (r: Result<
        (),
        Error,
    >)
        ensures
            reported(r) == Some(self.violation(message@, line_type, col_no)),
    {
        Err(Error::new(self.code(), self.name(), message, line_type, col_no))
    }

    fn fail_at(&self, line: &[u8], at: usize, line_type: LineType) -> (r: Result<(), Error>)
        requires
            at < line@.len(),
        ensures
            reported(r) == Some(
                self.violation(
                    "Invalid character: "@.push(line@[at as int] as char),
                    line_type,
                    Some((at + 1) as usize),
                ),
            ),
    {
        let mut message = String::from_str("Invalid character: ");
        message.push(line[at] as char);
        self.fail(message.as_str(), line_type, Some(at + 1))
    }

    /// Judges one record: `Ok` when it keeps the validator's rule, else the
    /// violation.
    pub fn validate(&self, record: &Record) -> (r: Result<(), Error>)
        ensures
            reported(r) == self.spec_validate(record@),
    {
        match self {
            SingleReadValidator::PlusLine => {
                let line = record.plus_line();
                if line.len() > 0 && line[0] == 0x2b {
                    Ok(())
                } else {
                    self.fail("Does not start with a '+'", LineType::PlusLine, Some(1))
                }
            },
            SingleReadValidator::Alphabet => {
                let line = record.sequence();
                let ghost accepts = |b: u8| is_base(b);
                let mut i: usize = 0;
                while i < line.len() && is_base_byte(line[i])
                    invariant
                        i <= line.len(),
                        forall|j: int| 0 <= j < i ==> is_base(#[trigger] line@[j]),
                    decreases line.len() - i,
                {
                    i += 1;
                }
                proof {
                    lemma_first_rejected_at(line@, accepts, i as int);
                }
                if i < line.len() {
                    self.fail_at(line, i, LineType::Sequence)
                } else {
                    Ok(())
                }
            },
            SingleReadValidator::Name => {
                let line = record.name();
                if line.len() > 0 && line[0] == 0x40 {
                    Ok(())
                } else {
                    self.fail("Does not start with an '@'", LineType::Name, Some(1))
                }
            },
            SingleReadValidator::Complete => {
                if record.name().len() == 0 {
                    self.fail("Incomplete record: name is empty", LineType::Name, None)
                } else if record.sequence().len() == 0 {
                    self.fail("Incomplete record: sequence is empty", LineType::Sequence, None)
                } else if record.plus_line().len() == 0 {
                    self.fail("Incomplete record: plus line is empty", LineType::PlusLine, None)
                } else if record.quality_scores().len() == 0 {
                    self.fail("Incomplete record: quality is empty", LineType::QualityScore, None)
                } else {
                    Ok(())
                }
            },
            SingleReadValidator::ConsistentSeqQual => {
                let expected = record.sequence().len();
                let got = record.quality_scores().len();
                if expected == got {
                    Ok(())
                } else {
                    let mut message = String::from_str(
                        "Sequence and quality lengths do not match (expected ",
                    );
                    push_decimal(&mut message, expected as u128);
                    message.append(", got ");
                    push_decimal(&mut message, got as u128);
                    message.append(")");
                    self.fail(message.as_str(), LineType::QualityScore, None)
                }
            },
            SingleReadValidator::QualityString => {
                let line = record.quality_scores();
                let ghost accepts = |b: u8| is_quality_symbol(b);
                let mut i: usize = 0;
                while i < line.len() && 0x21 <= line[i] && line[i] <= 0x7e
                    invariant
                        i <= line.len(),
                        forall|j: int| 0 <= j < i ==> is_quality_symbol(#[trigger] line@[j]),
                    decreases line.len() - i,
                {
                    i += 1;
                }
                proof {
                    lemma_first_rejected_at(line@, accepts, i as int);
                }
                if i < line.len() {
                    self.fail_at(line, i, LineType::QualityScore)
                } else {
                    Ok(())
                }
            },
        }
    }
}

/// Whether `b` is the code of a residue.
pub fn is_base_byte(b: u8) -> (r: bool)
    ensures
        r == is_base(b),
{
    b == 0x41 || b == 0x43 || b == 0x47 || b == 0x54 || b == 0x4e || b == 0x61 || b == 0x63 || b
        == 0x67 || b == 0x74 || b == 0x6e
}

} // verus!
