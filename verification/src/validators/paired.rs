//! The validators that judge the two reads of a pair together.

use vstd::prelude::*;
use vstd::string::StringExecFns;

use crate::bytes::bytes_equal;
use crate::fastq::record::{Record, RecordView};
use crate::text::{byte_text, push_bytes};
use crate::validators::error::{Error, ErrorView, LineType};
use crate::validators::level::ValidationLevel;
use crate::validators::single::reported;

verus! {

/// A validator of pairs of records: the first record is read 1 of the pair,
/// the second is read 2.
#[derive(Clone, Copy, Debug, PartialEq, Eq, Structural, Hash)]
pub enum PairedReadValidator {
    /// Both reads carry the same name.
    Names,
}

impl PairedReadValidator {
    pub open spec fn spec_code(self) -> Seq<char> {
        match self {
            PairedReadValidator::Names => "P001"@,
        }
    }

    pub open spec fn spec_name(self) -> Seq<char> {
        match self {
            PairedReadValidator::Names => "NamesValidator"@,
        }
    }

    pub open spec fn spec_level(self) -> ValidationLevel {
        match self {
            PairedReadValidator::Names => ValidationLevel::Medium,
        }
    }

    /// What the validator finds in a pair: nothing, or one violation, which
    /// is about read 1.
    pub open spec fn spec_validate(self, r: RecordView, s: RecordView) -> Option<ErrorView> {
        match self {
            PairedReadValidator::Names => {
                if r.name == s.name {
                    None
                } else {
                    Some(
                        ErrorView {
                            code: self.spec_code(),
                            name: self.spec_name(),
                            message: "Names do not match (expected '"@ + byte_text(r.name)
                                + "', got '"@ + byte_text(s.name) + "')"@,
                            line_type: LineType::Name,
                            col_no: None,
                        },
                    )
                }
            },
        }
    }

    /// The code that names the validator in reports and disables it.
    pub fn code(&self) -> (r: &'static str)
        ensures
            r@ == self.spec_code(),
    {
        match self {
            PairedReadValidator::Names => "P001",
        }
    }

    pub fn name(&self) -> (r: &'static str)
        ensures
            r@ == self.spec_name(),
    {
        match self {
            PairedReadValidator::Names => "NamesValidator",
        }
    }

    /// The lowest ceiling at which the validator is used.
    pub fn level(&self) -> (r: ValidationLevel)
        ensures
            r == self.spec_level(),
    {
        match self {
            PairedReadValidator::Names => ValidationLevel::Medium,
        }
    }

    /// Judges one pair: `Ok` when it keeps the validator's rule, else the
    /// violation.
    pub fn validate(&self, r: &Record, s: &Record) -> (result: Result<(), Error>)
        ensures
            reported(result) == self.spec_validate(r@, s@),
    {
        match self {
            PairedReadValidator::Names => {
                if bytes_equal(r.name(), s.name()) {
                    Ok(())
                } else {
                    let mut message = String::from_str("Names do not match (expected '");
                    push_bytes(&mut message, r.name());
                    message.append("', got '");
                    push_bytes(&mut message, s.name());
                    message.append("')");
                    Err(
                        Error::new(
                            self.code(),
                            self.name(),
                            message.as_str(),
                            LineType::Name,
                            None,
                        ),
                    )
                }
            },
        }
    }
}

} // verus!
