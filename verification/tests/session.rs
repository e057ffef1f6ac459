use fqlib::commands::lint::{
    validate_pair, validate_single, Action, LintOutcome, LintReport, PairLint, SingleLint,
};
use fqlib::fastq::{trim_line_ending, Reader, Record};
use fqlib::validators::{LintMode, ValidationLevel};

fn record(name: &[u8], sequence: &[u8], plus_line: &[u8], quality_scores: &[u8]) -> Record {
    Record::new(
        name.to_vec(),
        sequence.to_vec(),
        plus_line.to_vec(),
        quality_scores.to_vec(),
    )
}

fn strings(words: &[&str]) -> Vec<String> {
    words.iter().map(|w| String::from(*w)).collect()
}

fn trim(line: &[u8]) -> Vec<u8> {
    let mut line = line.to_vec();
    trim_line_ending(&mut line);
    line
}

/// Runs over one stream as a caller does that reads the stream itself.
fn drive_single(bytes: &[u8], lint_mode: LintMode, disabled: &[&str]) -> LintReport {
    let mut run = SingleLint::new(ValidationLevel::High, &strings(disabled), lint_mode, "in.fastq");
    let mut reader = Reader::new(bytes);
    let mut record = Record::default();
    let mut logged = Vec::new();
    loop {
        let bytes_read = reader.read_record(&mut record);
        match run.advance(bytes_read, &mut record, &mut logged) {
            Action::Read => {}
            Action::Reread => break,
            Action::Finish(outcome) => return LintReport { logged, outcome },
        }
    }
    let mut reader = reader.reopen();
    loop {
        let bytes_read = reader.read_record(&mut record);
        match run.recheck(bytes_read, &mut record, &mut logged) {
            Action::Read => {}
            Action::Reread => panic!("there is one second pass"),
            Action::Finish(outcome) => return LintReport { logged, outcome },
        }
    }
}

/// Runs over two streams as a caller does that reads the streams itself.
fn drive_pair(r1: &[u8], r2: &[u8], lint_mode: LintMode, disabled: &[&str]) -> LintReport {
    let mut run = PairLint::new(
        ValidationLevel::High,
        ValidationLevel::High,
        &strings(disabled),
        lint_mode,
        "r1.fastq",
        "r2.fastq",
    );
    let mut reader_1 = Reader::new(r1);
    let mut reader_2 = Reader::new(r2);
    let mut record_1 = Record::default();
    let mut record_2 = Record::default();
    let mut logged = Vec::new();
    loop {
        let r1_len = reader_1.read_record(&mut record_1);
        let r2_len = reader_2.read_record(&mut record_2);
        match run.advance(r1_len, r2_len, &mut record_1, &mut record_2, &mut logged) {
            Action::Read => {}
            Action::Reread => break,
            Action::Finish(outcome) => return LintReport { logged, outcome },
        }
    }
    let mut reader = reader_1.reopen();
    loop {
        let bytes_read = reader.read_record(&mut record_1);
        match run.recheck(bytes_read, &mut record_1, &mut logged) {
            Action::Read => {}
            Action::Reread => panic!("there is one second pass"),
            Action::Finish(outcome) => return LintReport { logged, outcome },
        }
    }
}

const STREAMS: [&[u8]; 6] = [
    b"",
    b"@A/1\nACGT\n+\nFQLB\n",
    b"@A/1\nACGT\n+\nFQLB\n@B/1\nAC.T\n+\nFQLB\n@A/1\nACGT\n-\nFQ\n",
    b"@A/2\nACGT\n+\nFQLB\n@B/2\nACGT\n+\nFQLB\n@C/2\nACGT\n+\nFQLB\n",
    b"A/1\nAC T\n\n\n@B\n",
    b"@A/1\r\nACGT\r\n+\r\nFQLB\r\n@A/1\r\nACGT\r\n+\r\nFQLB",
];

const DISABLED: [&[&str]; 4] = [&[], &["S007"], &["S001", "S002", "P001"], &["S004", "S007"]];

#[test]
fn test_trim_line_ending() {
    assert_eq!(trim(b"ACGT\n"), b"ACGT");
    assert_eq!(trim(b"ACGT\r\n"), b"ACGT");
    assert_eq!(trim(b"ACGT\r\r\n"), b"ACGT\r");
    assert_eq!(trim(b"ACGT"), b"ACGT");
    assert_eq!(trim(b"ACGT\r"), b"ACGT\r");
    assert_eq!(trim(b"AC\nGT"), b"AC\nGT");
    assert_eq!(trim(b"\n"), b"");
    assert_eq!(trim(b"\r\n"), b"");
    assert_eq!(trim(b"\r"), b"\r");
    assert_eq!(trim(b""), b"");
}

#[test]
fn test_single_lint_starts_with_the_active_validators() {
    let run = SingleLint::new(ValidationLevel::Medium, &strings(&["S004"]), LintMode::Log, "in.fastq");

    assert_eq!(
        run.validators.iter().map(|v| v.code()).collect::<Vec<_>>(),
        ["S001", "S002", "S006"]
    );
    assert!(run.duplicates);
    assert_eq!(run.lint_mode, LintMode::Log);
    assert_eq!(run.pathname, "in.fastq");
    assert_eq!((run.record_counter, run.recheck_counter), (0, 0));

    let run = SingleLint::new(ValidationLevel::Low, &strings(&["S007"]), LintMode::Panic, "in.fastq");

    assert_eq!(run.validators.iter().map(|v| v.code()).collect::<Vec<_>>(), ["S001", "S004"]);
    assert!(!run.duplicates);
}

#[test]
fn test_single_lint_judges_record_after_record() {
    let mut run = SingleLint::new(ValidationLevel::High, &[], LintMode::Log, "in.fastq");
    let mut logged = Vec::new();

    let mut r = record(b"@A/1", b"ACGT", b"+", b"FQLB");
    assert_eq!(run.advance(17, &mut r, &mut logged), Action::Read);
    assert_eq!(r, record(b"@A", b"ACGT", b"+", b"FQLB"));
    assert_eq!(run.record_counter, 1);
    assert_eq!(logged, Vec::<String>::new());

    let mut r = record(b"B 1", b"AC.T", b"+", b"FQLB");
    assert_eq!(run.advance(16, &mut r, &mut logged), Action::Read);
    assert_eq!(r, record(b"B", b"AC.T", b"+", b"FQLB"));
    assert_eq!(run.record_counter, 2);
    assert_eq!(
        logged,
        [
            "in.fastq:6:3: [S002] AlphabetValidator: Invalid character: .",
            "in.fastq:5:1: [S003] NameValidator: Does not start with an '@'",
        ]
    );

    let mut r = Record::default();
    assert_eq!(run.advance(0, &mut r, &mut logged), Action::Reread);
    assert_eq!(r, Record::default());
    assert_eq!((run.record_counter, run.recheck_counter), (2, 0));
    assert_eq!(logged.len(), 2);
}

#[test]
fn test_single_lint_judges_the_stream_again() {
    let mut run = SingleLint::new(ValidationLevel::High, &[], LintMode::Log, "in.fastq");
    let mut logged = Vec::new();
    for name in [&b"@A/1"[..], b"@B/1", b"@A 2"] {
        let mut r = record(name, b"ACGT", b"+", b"FQLB");
        assert_eq!(run.advance(17, &mut r, &mut logged), Action::Read);
    }
    let mut r = Record::default();
    assert_eq!(run.advance(0, &mut r, &mut logged), Action::Reread);
    assert_eq!(logged, Vec::<String>::new());

    let mut r = record(b"@A/1", b"ACGT", b"+", b"FQLB");
    assert_eq!(run.recheck(17, &mut r, &mut logged), Action::Read);
    assert_eq!(r.name(), b"@A");
    assert_eq!(logged, ["in.fastq:1: [S007] DuplicateNameValidator: Duplicate found: '@A'"]);
    let mut r = record(b"@B/1", b"ACGT", b"+", b"FQLB");
    assert_eq!(run.recheck(17, &mut r, &mut logged), Action::Read);
    assert_eq!(logged.len(), 1);
    let mut r = record(b"@A 2", b"ACGT", b"+", b"FQLB");
    assert_eq!(run.recheck(17, &mut r, &mut logged), Action::Read);
    assert_eq!(
        logged[1..],
        ["in.fastq:9: [S007] DuplicateNameValidator: Duplicate found: '@A'"]
    );
    assert_eq!(
        run.recheck(0, &mut r, &mut logged),
        Action::Finish(LintOutcome::Completed { records: 3 })
    );
    assert_eq!((run.record_counter, run.recheck_counter), (3, 3));
}

#[test]
fn test_single_lint_without_duplicates_is_completed_after_one_pass() {
    let mut run =
        SingleLint::new(ValidationLevel::High, &strings(&["S007"]), LintMode::Log, "in.fastq");
    let mut logged = Vec::new();
    let mut r = record(b"@A/1", b"ACGT", b"+", b"FQLB");

    assert_eq!(run.advance(17, &mut r, &mut logged), Action::Read);
    assert_eq!(
        run.advance(0, &mut r, &mut logged),
        Action::Finish(LintOutcome::Completed { records: 1 })
    );
}

#[test]
fn test_single_lint_in_panic_mode_stops_in_the_second_pass() {
    let mut run = SingleLint::new(ValidationLevel::High, &[], LintMode::Panic, "in.fastq");
    let mut logged = Vec::new();
    for _ in 0..2 {
        let mut r = record(b"@A/1", b"ACGT", b"+", b"FQLB");
        assert_eq!(run.advance(17, &mut r, &mut logged), Action::Read);
    }
    let mut r = Record::default();
    assert_eq!(run.advance(0, &mut r, &mut logged), Action::Reread);

    let mut r = record(b"@A/1", b"ACGT", b"+", b"FQLB");

    assert_eq!(
        run.recheck(17, &mut r, &mut logged),
        Action::Finish(LintOutcome::Violation {
            message: String::from(
                "in.fastq:1: [S007] DuplicateNameValidator: Duplicate found: '@A'"
            )
        })
    );
    assert_eq!(logged, Vec::<String>::new());
}

#[test]
fn test_single_lint_in_panic_mode_stops_with_the_first_violation() {
    let mut run = SingleLint::new(ValidationLevel::High, &[], LintMode::Panic, "in.fastq");
    let mut logged = Vec::new();

    let mut r = record(b"B 1", b"AC.T", b"+", b"FQLB");

    assert_eq!(
        run.advance(16, &mut r, &mut logged),
        Action::Finish(LintOutcome::Violation {
            message: String::from("in.fastq:2:3: [S002] AlphabetValidator: Invalid character: .")
        })
    );
    assert_eq!(logged, Vec::<String>::new());
}

#[test]
fn test_pair_lint_starts_with_the_active_validators() {
    let run = PairLint::new(
        ValidationLevel::Low,
        ValidationLevel::High,
        &strings(&["S001"]),
        LintMode::Panic,
        "r1.fastq",
        "r2.fastq",
    );

    assert_eq!(run.single.iter().map(|v| v.code()).collect::<Vec<_>>(), ["S004"]);
    assert_eq!(run.paired.iter().map(|v| v.code()).collect::<Vec<_>>(), ["P001"]);
    assert!(run.duplicates);
    assert_eq!(run.r1_src, "r1.fastq");
    assert_eq!(run.r2_src, "r2.fastq");
    assert_eq!((run.record_counter, run.recheck_counter), (0, 0));

    let run = PairLint::new(
        ValidationLevel::Low,
        ValidationLevel::Low,
        &strings(&["S007"]),
        LintMode::Panic,
        "r1.fastq",
        "r2.fastq",
    );

    assert!(run.paired.is_empty());
    assert!(!run.duplicates);
}

#[test]
fn test_pair_lint_asks_for_the_second_pass() {
    let mut run =
        PairLint::new(ValidationLevel::High, ValidationLevel::High, &[], LintMode::Log, "r1", "r2");
    let mut logged = Vec::new();
    let mut a = record(b"@A/1", b"ACGT", b"+", b"FQLB");
    let mut b = record(b"@A/2", b"ACGT", b"+", b"FQLB");

    assert_eq!(run.advance(17, 17, &mut a, &mut b, &mut logged), Action::Read);
    assert_eq!(a.name(), b"@A");
    assert_eq!(b.name(), b"@A");
    let mut a = record(b"@A/1", b"ACGT", b"+", b"FQLB");
    let mut b = record(b"@B/2", b"ACGT", b"+", b"FQLB");
    assert_eq!(run.advance(17, 17, &mut a, &mut b, &mut logged), Action::Read);
    assert_eq!(logged, ["r1:5: [P001] NamesValidator: Names do not match (expected '@A', got '@B')"]);
    assert_eq!(run.advance(0, 0, &mut a, &mut b, &mut logged), Action::Reread);
    assert_eq!((run.record_counter, run.recheck_counter), (2, 0));

    let mut r = record(b"@A/1", b"ACGT", b"+", b"FQLB");
    assert_eq!(run.recheck(17, &mut r, &mut logged), Action::Read);
    assert_eq!(r.name(), b"@A");
    let mut r = record(b"@C/1", b"ACGT", b"+", b"FQLB");
    assert_eq!(run.recheck(17, &mut r, &mut logged), Action::Read);
    assert_eq!(
        run.recheck(0, &mut r, &mut logged),
        Action::Finish(LintOutcome::Completed { records: 2 })
    );
    assert_eq!((run.record_counter, run.recheck_counter), (2, 2));
    assert_eq!(
        logged[1..],
        ["r1:1: [S007] DuplicateNameValidator: Duplicate found: '@A'"]
    );
}

#[test]
fn test_pair_lint_ends_when_one_stream_ends() {
    for lint_mode in [LintMode::Panic, LintMode::Log] {
        let mut run =
            PairLint::new(ValidationLevel::High, ValidationLevel::High, &[], lint_mode, "r1", "r2");
        let mut logged = Vec::new();
        let mut a = record(b"A", b"AC.T", b"", b"");
        let mut b = Record::default();

        assert_eq!(
            run.advance(8, 0, &mut a, &mut b, &mut logged),
            Action::Finish(LintOutcome::UnexpectedEnd {
                message: String::from("r2 unexpectedly ended before r1")
            })
        );
        assert_eq!(
            run.advance(0, 8, &mut b, &mut a, &mut logged),
            Action::Finish(LintOutcome::UnexpectedEnd {
                message: String::from("r1 unexpectedly ended before r2")
            })
        );
        assert_eq!(a, record(b"A", b"AC.T", b"", b""));
        assert_eq!(logged, Vec::<String>::new());
        assert_eq!(run.record_counter, 0);
    }
}

#[test]
fn test_pair_lint_without_duplicates_is_completed_after_one_pass() {
    let mut run = PairLint::new(
        ValidationLevel::High,
        ValidationLevel::High,
        &strings(&["S007"]),
        LintMode::Log,
        "r1",
        "r2",
    );
    let mut logged = Vec::new();
    let mut a = record(b"@A/1", b"ACGT", b"+", b"FQLB");
    let mut b = record(b"@A/2", b"ACGT", b"+", b"FQLB");

    assert_eq!(run.advance(17, 17, &mut a, &mut b, &mut logged), Action::Read);
    assert_eq!(
        run.advance(0, 0, &mut a, &mut b, &mut logged),
        Action::Finish(LintOutcome::Completed { records: 1 })
    );
}

#[test]
fn test_runs_record_by_record_are_runs_over_the_streams() {
    for bytes in STREAMS {
        for disabled in DISABLED {
            for lint_mode in [LintMode::Panic, LintMode::Log] {
                assert_eq!(
                    drive_single(bytes, lint_mode, disabled),
                    validate_single(
                        Reader::new(bytes),
                        ValidationLevel::High,
                        &strings(disabled),
                        lint_mode,
                        "in.fastq"
                    )
                );
            }
        }
    }
}

#[test]
fn test_runs_pair_by_pair_are_runs_over_the_streams() {
    for r1 in STREAMS {
        for r2 in STREAMS {
            for disabled in DISABLED {
                for lint_mode in [LintMode::Panic, LintMode::Log] {
                    assert_eq!(
                        drive_pair(r1, r2, lint_mode, disabled),
                        validate_pair(
                            Reader::new(r1),
                            Reader::new(r2),
                            ValidationLevel::High,
                            ValidationLevel::High,
                            &strings(disabled),
                            lint_mode,
                            "r1.fastq",
                            "r2.fastq"
                        )
                    );
                }
            }
        }
    }
}
