//! How strict a run is, and what it does with a violation.

use vstd::prelude::*;
use vstd::string::StringExecFns;

verus! {

/// The strictness tier of a validator, and the ceiling of a run:
/// `Low < Medium < High`.
#[derive(Clone, Copy, Debug, PartialEq, Eq, Structural, PartialOrd, Ord, Hash)]
pub enum ValidationLevel {
    Low,
    Medium,
    High,
}

impl ValidationLevel {
    /// The place of the level in the order: 0 for `Low`, 2 for `High`.
    pub open spec fn spec_rank(self) -> nat {
        match self {
            ValidationLevel::Low => 0,
            ValidationLevel::Medium => 1,
            ValidationLevel::High => 2,
        }
    }

    /// Whether a run with this ceiling uses a validator of level `level`.
    pub open spec fn spec_admits(self, level: ValidationLevel) -> bool {
        level.spec_rank() <= self.spec_rank()
    }

    /// The level that the word names: `low`, `medium` or `high`.
    pub open spec fn spec_parse(word: Seq<char>) -> Option<ValidationLevel> {
        if word == "low"@ {
            Some(ValidationLevel::Low)
        } else if word == "medium"@ {
            Some(ValidationLevel::Medium)
        } else if word == "high"@ {
            Some(ValidationLevel::High)
        } else {
            None
        }
    }

    pub fn rank(self) -> (r: u8)
        ensures
            r == self.spec_rank(),
    {
        match self {
            ValidationLevel::Low => 0,
            ValidationLevel::Medium => 1,
            ValidationLevel::High => 2,
        }
    }

    pub fn admits(self, level: ValidationLevel) -> (r: bool)
        ensures
            r == self.spec_admits(level),
    {
        level.rank() <= self.rank()
    }

    pub fn parse(word: &str) -> (r: Option<ValidationLevel>)
        ensures
            r == Self::spec_parse(word@),
    {
        let word = String::from_str(word);
        if word == String::from_str("low") {
            Some(ValidationLevel::Low)
        } else if word == String::from_str("medium") {
            Some(ValidationLevel::Medium)
        } else if word == String::from_str("high") {
            Some(ValidationLevel::High)
        } else {
            None
        }
    }
}

impl Default for ValidationLevel {
    /// The default ceiling activates the whole catalog.
    fn default() -> (r: Self)
        ensures
            r == ValidationLevel::High,
    {
        ValidationLevel::High
    }
}

/// What a run does with a violation.
#[derive(Clone, Copy, Debug, PartialEq, Eq, Structural, Hash)]
pub enum LintMode {
    /// Stop at the first one.
    Panic,
    /// Report each one and go on.
    Log,
}

impl LintMode {
    /// The mode that the word names: `panic` or `log`.
    pub open spec fn spec_parse(word: Seq<char>) -> Option<LintMode> {
        if word == "panic"@ {
            Some(LintMode::Panic)
        } else if word == "log"@ {
            Some(LintMode::Log)
        } else {
            None
        }
    }

    pub fn parse(word: &str) -> (r: Option<LintMode>)
        ensures
            r == Self::spec_parse(word@),
    {
        let word = String::from_str(word);
        if word == String::from_str("panic") {
            Some(LintMode::Panic)
        } else if word == String::from_str("log") {
            Some(LintMode::Log)
        } else {
            None
        }
    }
}

impl Default for LintMode {
    fn default() -> (r: Self)
        ensures
            r == LintMode::Panic,
    {
        LintMode::Panic
    }
}

} // verus!
