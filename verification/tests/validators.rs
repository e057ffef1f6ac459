use fqlib::fastq::Record;
use fqlib::validators::{
    filter_validators, DuplicateNameValidator, Error, LineType, LintMode, PairedReadValidator,
    SingleReadValidator, ValidationLevel,
};

fn record(name: &[u8], sequence: &[u8], plus_line: &[u8], quality_scores: &[u8]) -> Record {
    Record::new(
        name.to_vec(),
        sequence.to_vec(),
        plus_line.to_vec(),
        quality_scores.to_vec(),
    )
}

fn named(name: &[u8]) -> Record {
    record(name, b"ACGT", b"+", b"FQLB")
}

fn codes(validators: &[SingleReadValidator]) -> Vec<&'static str> {
    validators.iter().map(|v| v.code()).collect()
}

fn paired_codes(validators: &[PairedReadValidator]) -> Vec<&'static str> {
    validators.iter().map(|v| v.code()).collect()
}

fn disabled(codes: &[&str]) -> Vec<String> {
    codes.iter().map(|c| String::from(*c)).collect()
}

#[test]
fn test_line_type_offsets() {
    assert_eq!(LineType::Name.offset(), 0);
    assert_eq!(LineType::Sequence.offset(), 1);
    assert_eq!(LineType::PlusLine.offset(), 2);
    assert_eq!(LineType::QualityScore.offset(), 3);
    assert!(LineType::Name < LineType::Sequence);
    assert!(LineType::PlusLine < LineType::QualityScore);
}

#[test]
fn test_validation_levels_are_ordered() {
    assert!(ValidationLevel::Low < ValidationLevel::Medium);
    assert!(ValidationLevel::Medium < ValidationLevel::High);
    assert_eq!(ValidationLevel::Low.rank(), 0);
    assert_eq!(ValidationLevel::Medium.rank(), 1);
    assert_eq!(ValidationLevel::High.rank(), 2);
    assert_eq!(ValidationLevel::default(), ValidationLevel::High);
}

#[test]
fn test_a_ceiling_admits_the_levels_up_to_it() {
    let levels = [ValidationLevel::Low, ValidationLevel::Medium, ValidationLevel::High];
    for ceiling in levels {
        for level in levels {
            assert_eq!(ceiling.admits(level), level <= ceiling);
        }
    }
}

#[test]
fn test_parse_validation_level() {
    assert_eq!(ValidationLevel::parse("low"), Some(ValidationLevel::Low));
    assert_eq!(ValidationLevel::parse("medium"), Some(ValidationLevel::Medium));
    assert_eq!(ValidationLevel::parse("high"), Some(ValidationLevel::High));
    assert_eq!(ValidationLevel::parse("High"), None);
    assert_eq!(ValidationLevel::parse(""), None);
    assert_eq!(ValidationLevel::parse("lowest"), None);
}

#[test]
fn test_parse_lint_mode() {
    assert_eq!(LintMode::parse("panic"), Some(LintMode::Panic));
    assert_eq!(LintMode::parse("log"), Some(LintMode::Log));
    assert_eq!(LintMode::parse("Log"), None);
    assert_eq!(LintMode::parse(""), None);
    assert_eq!(LintMode::default(), LintMode::Panic);
}

#[test]
fn test_error_new_keeps_what_it_is_given() {
    let error = Error::new(
        "S002",
        "AlphabetValidator",
        "Invalid character: m",
        LineType::Sequence,
        Some(76),
    );

    assert_eq!(error.code, "S002");
    assert_eq!(error.name, "AlphabetValidator");
    assert_eq!(error.message, "Invalid character: m");
    assert_eq!(error.line_type, LineType::Sequence);
    assert_eq!(error.col_no, Some(76));
    assert_eq!(error, error.clone());
    assert_ne!(
        error,
        Error::new("S002", "AlphabetValidator", "Invalid character: m", LineType::Sequence, None)
    );
}

#[test]
fn test_catalog_of_single_read_validators() {
    let (single, paired) = filter_validators(ValidationLevel::High, None, &[]);

    assert_eq!(codes(&single), ["S001", "S002", "S003", "S004", "S005", "S006"]);
    assert_eq!(
        single.iter().map(|v| v.name()).collect::<Vec<_>>(),
        [
            "PlusLineValidator",
            "AlphabetValidator",
            "NameValidator",
            "CompleteValidator",
            "ConsistentSeqQualValidator",
            "QualityStringValidator",
        ]
    );
    assert_eq!(
        single.iter().map(|v| v.level()).collect::<Vec<_>>(),
        [
            ValidationLevel::Low,
            ValidationLevel::Medium,
            ValidationLevel::High,
            ValidationLevel::Low,
            ValidationLevel::High,
            ValidationLevel::Medium,
        ]
    );
    assert!(paired.is_empty());
}

#[test]
fn test_filter_validators_by_level() {
    let (single, paired) =
        filter_validators(ValidationLevel::Low, Some(ValidationLevel::Low), &[]);
    assert_eq!(codes(&single), ["S001", "S004"]);
    assert!(paired.is_empty());

    let (single, paired) =
        filter_validators(ValidationLevel::Medium, Some(ValidationLevel::Medium), &[]);
    assert_eq!(codes(&single), ["S001", "S002", "S004", "S006"]);
    assert_eq!(paired_codes(&paired), ["P001"]);

    let (single, paired) =
        filter_validators(ValidationLevel::Low, Some(ValidationLevel::High), &[]);
    assert_eq!(codes(&single), ["S001", "S004"]);
    assert_eq!(paired_codes(&paired), ["P001"]);
    assert_eq!(paired[0].name(), "NamesValidator");
    assert_eq!(paired[0].level(), ValidationLevel::Medium);
}

#[test]
fn test_filter_validators_leaves_out_disabled_codes() {
    let (single, paired) = filter_validators(
        ValidationLevel::High,
        Some(ValidationLevel::High),
        &disabled(&["S002", "P001", "S005"]),
    );
    assert_eq!(codes(&single), ["S001", "S003", "S004", "S006"]);
    assert!(paired.is_empty());

    let (single, paired) = filter_validators(
        ValidationLevel::Medium,
        Some(ValidationLevel::High),
        &disabled(&["S001", "S001", "X999", "s002"]),
    );
    assert_eq!(codes(&single), ["S002", "S004", "S006"]);
    assert_eq!(paired_codes(&paired), ["P001"]);
}

#[test]
fn test_plus_line_validator() {
    let v = SingleReadValidator::PlusLine;

    assert_eq!(v.validate(&record(b"@r", b"ACGT", b"+", b"FQLB")), Ok(()));
    assert_eq!(v.validate(&record(b"@r", b"ACGT", b"+r", b"FQLB")), Ok(()));
    let expected =
        Error::new("S001", "PlusLineValidator", "Does not start with a '+'", LineType::PlusLine, Some(1));
    assert_eq!(v.validate(&record(b"@r", b"ACGT", b"", b"FQLB")), Err(expected.clone()));
    assert_eq!(v.validate(&record(b"@r", b"ACGT", b"-+", b"FQLB")), Err(expected));
}

#[test]
fn test_alphabet_validator() {
    let v = SingleReadValidator::Alphabet;

    assert_eq!(v.validate(&record(b"@r", b"ACGTNacgtn", b"+", b"")), Ok(()));
    assert_eq!(v.validate(&record(b"@r", b"", b"+", b"")), Ok(()));
    assert_eq!(
        v.validate(&record(b"@r", b"ACGmTx", b"+", b"")),
        Err(Error::new(
            "S002",
            "AlphabetValidator",
            "Invalid character: m",
            LineType::Sequence,
            Some(4)
        ))
    );
    assert_eq!(
        v.validate(&record(b"@r", b".CGT", b"+", b"")),
        Err(Error::new(
            "S002",
            "AlphabetValidator",
            "Invalid character: .",
            LineType::Sequence,
            Some(1)
        ))
    );
    assert_eq!(
        v.validate(&record(b"@r", b"AC\xe9", b"+", b"")),
        Err(Error::new(
            "S002",
            "AlphabetValidator",
            "Invalid character: \u{e9}",
            LineType::Sequence,
            Some(3)
        ))
    );
}

#[test]
fn test_name_validator() {
    let v = SingleReadValidator::Name;

    assert_eq!(v.validate(&record(b"@", b"", b"", b"")), Ok(()));
    assert_eq!(v.validate(&record(b"@fqlib", b"", b"", b"")), Ok(()));
    let expected =
        Error::new("S003", "NameValidator", "Does not start with an '@'", LineType::Name, Some(1));
    assert_eq!(v.validate(&record(b"", b"", b"", b"")), Err(expected.clone()));
    assert_eq!(v.validate(&record(b"fqlib@", b"", b"", b"")), Err(expected));
}

#[test]
fn test_complete_validator() {
    let v = SingleReadValidator::Complete;
    let error = |message: &str, line_type: LineType| {
        Err(Error::new("S004", "CompleteValidator", message, line_type, None))
    };

    assert_eq!(v.validate(&record(b"@", b"A", b"+", b"F")), Ok(()));
    assert_eq!(
        v.validate(&record(b"", b"", b"", b"")),
        error("Incomplete record: name is empty", LineType::Name)
    );
    assert_eq!(
        v.validate(&record(b"@", b"", b"+", b"")),
        error("Incomplete record: sequence is empty", LineType::Sequence)
    );
    assert_eq!(
        v.validate(&record(b"@", b"A", b"", b"")),
        error("Incomplete record: plus line is empty", LineType::PlusLine)
    );
    assert_eq!(
        v.validate(&record(b"@", b"A", b"+", b"")),
        error("Incomplete record: quality is empty", LineType::QualityScore)
    );
}

#[test]
fn test_consistent_seq_qual_validator() {
    let v = SingleReadValidator::ConsistentSeqQual;

    assert_eq!(v.validate(&record(b"@", b"ACGT", b"+", b"FQLB")), Ok(()));
    assert_eq!(v.validate(&record(b"@", b"", b"+", b"")), Ok(()));
    assert_eq!(
        v.validate(&record(b"@", b"ACGT", b"+", b"FQL")),
        Err(Error::new(
            "S005",
            "ConsistentSeqQualValidator",
            "Sequence and quality lengths do not match (expected 4, got 3)",
            LineType::QualityScore,
            None
        ))
    );
    let long = vec![b'A'; 1203];
    assert_eq!(
        v.validate(&record(b"@", b"", b"+", &long)),
        Err(Error::new(
            "S005",
            "ConsistentSeqQualValidator",
            "Sequence and quality lengths do not match (expected 0, got 1203)",
            LineType::QualityScore,
            None
        ))
    );
}

#[test]
fn test_quality_string_validator() {
    let v = SingleReadValidator::QualityString;

    assert_eq!(v.validate(&record(b"@", b"", b"+", b"!\"#FQLB}~")), Ok(()));
    assert_eq!(v.validate(&record(b"@", b"", b"+", b"")), Ok(()));
    assert_eq!(
        v.validate(&record(b"@", b"", b"+", b"FQ LB")),
        Err(Error::new(
            "S006",
            "QualityStringValidator",
            "Invalid character:  ",
            LineType::QualityScore,
            Some(3)
        ))
    );
    assert_eq!(
        v.validate(&record(b"@", b"", b"+", b"\x7fFQLB")),
        Err(Error::new(
            "S006",
            "QualityStringValidator",
            "Invalid character: \u{7f}",
            LineType::QualityScore,
            Some(1)
        ))
    );
}

#[test]
fn test_names_validator() {
    let v = PairedReadValidator::Names;

    assert_eq!(v.code(), "P001");
    assert_eq!(v.validate(&named(b"@fqlib:1"), &named(b"@fqlib:1")), Ok(()));
    assert_eq!(v.validate(&named(b""), &named(b"")), Ok(()));
    assert_eq!(
        v.validate(&named(b"@fqlib:1"), &named(b"@fqlib:2")),
        Err(Error::new(
            "P001",
            "NamesValidator",
            "Names do not match (expected '@fqlib:1', got '@fqlib:2')",
            LineType::Name,
            None
        ))
    );
    assert_eq!(
        v.validate(&named(b"@fqlib:1"), &named(b"@fqlib:1/2")),
        Err(Error::new(
            "P001",
            "NamesValidator",
            "Names do not match (expected '@fqlib:1', got '@fqlib:1/2')",
            LineType::Name,
            None
        ))
    );
}

#[test]
fn test_duplicate_name_validator_flags_names_met_twice() {
    let mut v = DuplicateNameValidator::new();
    assert_eq!(v.code(), "S007");
    assert_eq!(v.name(), "DuplicateNameValidator");
    assert_eq!(v.level(), ValidationLevel::High);

    v.insert(&named(b"@fqlib:1"));
    v.insert(&named(b"@fqlib:2"));
    v.insert(&named(b"@fqlib:1"));

    let expected = Error::new(
        "S007",
        "DuplicateNameValidator",
        "Duplicate found: '@fqlib:1'",
        LineType::Name,
        None,
    );
    assert_eq!(v.validate(&named(b"@fqlib:1")), Err(expected.clone()));
    assert_eq!(v.validate(&named(b"@fqlib:2")), Ok(()));
    assert_eq!(v.validate(&named(b"@fqlib:3")), Ok(()));
    assert_eq!(v.validate(&named(b"@fqlib:1")), Err(expected));
}

#[test]
fn test_duplicate_name_validator_without_names() {
    let v = DuplicateNameValidator::new();

    assert_eq!(v.validate(&named(b"@fqlib:1")), Ok(()));
    assert_eq!(v.validate(&named(b"")), Ok(()));
}

#[test]
fn test_duplicate_name_validator_counts_each_name_on_its_own() {
    let mut v = DuplicateNameValidator::new();
    for i in 0..500u32 {
        v.insert(&named(format!("@fqlib:{}", i).as_bytes()));
    }
    for i in 0..500u32 {
        assert_eq!(v.validate(&named(format!("@fqlib:{}", i).as_bytes())), Ok(()));
    }

    for i in 0..500u32 {
        if i % 7 == 0 {
            v.insert(&named(format!("@fqlib:{}", i).as_bytes()));
        }
        if i % 21 == 0 {
            v.insert(&named(format!("@fqlib:{}", i).as_bytes()));
        }
    }

    for i in 0..500u32 {
        let name = format!("@fqlib:{}", i);
        let result = v.validate(&named(name.as_bytes()));
        if i % 7 == 0 {
            assert_eq!(
                result,
                Err(Error::new(
                    "S007",
                    "DuplicateNameValidator",
                    &format!("Duplicate found: '{}'", name),
                    LineType::Name,
                    None
                ))
            );
        } else {
            assert_eq!(result, Ok(()));
        }
    }
}

#[test]
fn test_duplicate_name_validator_tells_a_name_from_its_prefix() {
    let mut v = DuplicateNameValidator::new();

    v.insert(&named(b"@fqlib"));
    v.insert(&named(b"@fqlib:"));
    v.insert(&named(b""));

    assert_eq!(v.validate(&named(b"@fqlib")), Ok(()));
    assert_eq!(v.validate(&named(b"@fqlib:")), Ok(()));
    assert_eq!(v.validate(&named(b"")), Ok(()));

    v.insert(&named(b""));

    assert_eq!(
        v.validate(&named(b"")),
        Err(Error::new(
            "S007",
            "DuplicateNameValidator",
            "Duplicate found: ''",
            LineType::Name,
            None
        ))
    );
    assert_eq!(v.validate(&named(b"@fqlib")), Ok(()));
}
