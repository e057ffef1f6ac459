//! What a validator reports when a record breaks its rule.

use vstd::prelude::*;
use vstd::string::StringExecFns;

verus! {

/// Which of the four lines of a record a violation is about.
#[derive(Clone, Copy, Debug, PartialEq, Eq, Structural, PartialOrd, Ord, Hash)]
pub enum LineType {
    Name,
    Sequence,
    PlusLine,
    QualityScore,
}

impl LineType {
    /// The number of lines between the start of a record and this line.
    pub open spec fn spec_offset(self) -> nat {
        match self {
            LineType::Name => 0,
            LineType::Sequence => 1,
            LineType::PlusLine => 2,
            LineType::QualityScore => 3,
        }
    }

    pub fn offset(self) -> (r: usize)
        ensures
            r == self.spec_offset(),
    {
        match self {
            LineType::Name => 0,
            LineType::Sequence => 1,
            LineType::PlusLine => 2,
            LineType::QualityScore => 3,
        }
    }
}

/// What an [`Error`] holds, its texts as sequences of characters.
pub struct ErrorView {
    pub code: Seq<char>,
    pub name: Seq<char>,
    pub message: Seq<char>,
    pub line_type: LineType,
    pub col_no: Option<usize>,
}

/// One violation: the code and the name of the validator that found it, a
/// message, the line it is about and, where the validator knows it, the
/// column in that line, counted from 1.
#[derive(Debug)]
pub struct Error {
    pub code: String,
    pub name: String,
    pub message: String,
    pub line_type: LineType,
    pub col_no: Option<usize>,
}

impl View for Error {
    type V = ErrorView;

    open spec fn view(&self) -> ErrorView {
        ErrorView {
            code: self.code@,
            name: self.name@,
            message: self.message@,
            line_type: self.line_type,
            col_no: self.col_no,
        }
    }
}

impl Error {
    pub fn new(code: &str, name: &str, message: &str, line_type: LineType, col_no: Option<usize>) -> (e:
        Self)
        ensures
            e@ == (ErrorView { code: code@, name: name@, message: message@, line_type, col_no }),
    {
        Self {
            code: String::from_str(code),
            name: String::from_str(name),
            message: String::from_str(message),
            line_type,
            col_no,
        }
    }
}

impl Clone for Error {
    fn clone(&self) -> (e: Self)
        ensures
            e@ == self@,
    {
        Self {
            code: self.code.clone(),
            name: self.name.clone(),
            message: self.message.clone(),
            line_type: self.line_type,
            col_no: self.col_no,
        }
    }
}

impl PartialEq for Error {
    /// Two violations are equal when all that they carry is.
    fn eq(&self, other: &Self) -> (r: bool) {
        self.code == other.code && self.name == other.name && self.message == other.message
            && self.line_type == other.line_type && self.col_no == other.col_no
    }
}

impl vstd::std_specs::cmp::PartialEqSpecImpl for Error {
    open spec fn obeys_eq_spec() -> bool {
        true
    }

    open spec fn eq_spec(&self, other: &Self) -> bool {
        self@ == other@
    }
}

impl Eq for Error {

}

} // verus!
