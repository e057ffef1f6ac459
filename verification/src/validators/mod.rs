//! The validators: what a violation carries, the levels that select
//! validators, and the catalog with its filter.

pub mod error;
pub mod level;
pub mod paired;
pub mod single;

pub use error::{Error, ErrorView, LineType};
pub use level::{LintMode, ValidationLevel};
pub use paired::PairedReadValidator;
pub use single::{DuplicateNameValidator, SingleReadValidator};

use vstd::prelude::*;
use vstd::string::StringExecFns;

verus! {

/// The validators of single records, in the order in which they run.
pub open spec fn single_catalog() -> Seq<SingleReadValidator> {
    seq![
        SingleReadValidator::PlusLine,
        SingleReadValidator::Alphabet,
        SingleReadValidator::Name,
        SingleReadValidator::Complete,
        SingleReadValidator::ConsistentSeqQual,
        SingleReadValidator::QualityString,
    ]
}

/// The validators of pairs, in the order in which they run.
pub open spec fn paired_catalog() -> Seq<PairedReadValidator> {
    seq![PairedReadValidator::Names]
}

/// Whether `code` is among the disabled codes.
pub open spec fn is_disabled(disabled: Seq<String>, code: Seq<char>) -> bool {
    exists|i: int| 0 <= i < disabled.len() && (#[trigger] disabled[i])@ == code
}

/// Whether a validator of that code and level runs under the ceiling and
/// the disabled codes.
pub open spec fn is_active(
    code: Seq<char>,
    level: ValidationLevel,
    ceiling: ValidationLevel,
    disabled: Seq<String>,
) -> bool {
    ceiling.spec_admits(level) && !is_disabled(disabled, code)
}

/// The validators of single records that run: those of the catalog that
/// are active, in the catalog's order.
pub open spec fn active_single(ceiling: ValidationLevel, disabled: Seq<String>) -> Seq<
    SingleReadValidator,
> {
    single_catalog().filter(
        |v: SingleReadValidator| is_active(v.spec_code(), v.spec_level(), ceiling, disabled),
    )
}

/// The validators of pairs that run: none without a ceiling, else those of
/// the catalog that are active, in the catalog's order.
pub open spec fn active_paired(ceiling: Option<ValidationLevel>, disabled: Seq<String>) -> Seq<
    PairedReadValidator,
> {
    match ceiling {
        Some(ceiling) => paired_catalog().filter(
            |v: PairedReadValidator| is_active(v.spec_code(), v.spec_level(), ceiling, disabled),
        ),
        None => Seq::empty(),
    }
}

/// Whether `code` is among the disabled codes.
pub fn code_is_disabled(disabled: &[String], code: &str) -> (r: bool)
    ensures
        r == is_disabled(disabled@, code@),
{
    let wanted = String::from_str(code);
    let mut i: usize = 0;
    while i < disabled.len()
        invariant
            i <= disabled.len(),
            wanted@ == code@,
            forall|j: int| 0 <= j < i ==> (#[trigger] disabled@[j])@ != code@,
        decreases disabled.len() - i,
    {
        if disabled[i] == wanted {
            assert(disabled@[i as int]@ == code@);
            return true;
        }
        i += 1;
    }
    false
}

/// The catalog of single-read validators.
pub fn single_read_validators() -> (all: Vec<SingleReadValidator>)
    ensures
        all@ == single_catalog(),
{
    let mut all: Vec<SingleReadValidator> = Vec::new();
    all.push(SingleReadValidator::PlusLine);
    all.push(SingleReadValidator::Alphabet);
    all.push(SingleReadValidator::Name);
    all.push(SingleReadValidator::Complete);
    all.push(SingleReadValidator::ConsistentSeqQual);
    all.push(SingleReadValidator::QualityString);
    proof {
        assert(all@ =~= single_catalog());
    }
    all
}

/// The catalog of paired-read validators.
pub fn paired_read_validators() -> (all: Vec<PairedReadValidator>)
    ensures
        all@ == paired_catalog(),
{
    let mut all: Vec<PairedReadValidator> = Vec::new();
    all.push(PairedReadValidator::Names);
    proof {
        assert(all@ =~= paired_catalog());
    }
    all
}

/// Selects the validators of a run: of the single-read catalog those whose
/// level is at most `single_read_validation_level`, and, where a
/// paired-read level is given, of the paired-read catalog those whose level
/// is at most that; none of them with a disabled code. Both lists keep the
/// order of their catalog.
pub fn filter_validators(
    single_read_validation_level: ValidationLevel,
    paired_read_validation_level: Option<ValidationLevel>,
    disabled_validators: &[String],
) -> (active: (Vec<SingleReadValidator>, Vec<PairedReadValidator>))
    ensures
        active.0@ == active_single(single_read_validation_level, disabled_validators@),
        active.1@ == active_paired(paired_read_validation_level, disabled_validators@),
{
    let ghost disabled = disabled_validators@;
    let catalog = single_read_validators();
    let ghost keeps_single = |v: SingleReadValidator|
        is_active(v.spec_code(), v.spec_level(), single_read_validation_level, disabled);
    let mut single: Vec<SingleReadValidator> = Vec::new();
    let mut i: usize = 0;
    while i < catalog.len()
        invariant
            i <= catalog.len(),
            disabled == disabled_validators@,
            keeps_single == |v: SingleReadValidator|
                is_active(v.spec_code(), v.spec_level(), single_read_validation_level, disabled),
            single@ == catalog@.take(i as int).filter(keeps_single),
        decreases catalog.len() - i,
    {
        let v = catalog[i];
        proof {
            reveal(Seq::filter);
            assert(catalog@.take(i + 1).drop_last() =~= catalog@.take(i as int));
        }
        if single_read_validation_level.admits(v.level()) && !code_is_disabled(
            disabled_validators,
            v.code(),
        ) {
            single.push(v);
        }
        i += 1;
    }
    proof {
        assert(catalog@.take(i as int) =~= catalog@);
    }
    let mut paired: Vec<PairedReadValidator> = Vec::new();
    if let Some(ceiling) = paired_read_validation_level {
        let catalog = paired_read_validators();
        let ghost keeps_paired = |v: PairedReadValidator|
            is_active(v.spec_code(), v.spec_level(), ceiling, disabled);
        let mut i: usize = 0;
        while i < catalog.len()
            invariant
                i <= catalog.len(),
                disabled == disabled_validators@,
                keeps_paired == |v: PairedReadValidator|
                    is_active(v.spec_code(), v.spec_level(), ceiling, disabled),
                paired@ == catalog@.take(i as int).filter(keeps_paired),
            decreases catalog.len() - i,
        {
            let v = catalog[i];
            proof {
                reveal(Seq::filter);
                assert(catalog@.take(i + 1).drop_last() =~= catalog@.take(i as int));
            }
            if ceiling.admits(v.level()) && !code_is_disabled(disabled_validators, v.code()) {
                paired.push(v);
            }
            i += 1;
        }
        proof {
            assert(catalog@.take(i as int) =~= catalog@);
        }
    }
    (single, paired)
}

} // verus!
