use fqlib::fastq::Record;

fn record(name: &[u8], sequence: &[u8], plus_line: &[u8], quality_scores: &[u8]) -> Record {
    Record::new(
        name.to_vec(),
        sequence.to_vec(),
        plus_line.to_vec(),
        quality_scores.to_vec(),
    )
}

fn normalized(name: &[u8]) -> Vec<u8> {
    let mut r = Record::default();
    r.name_mut().extend_from_slice(name);
    assert_eq!(r.name(), name);
    r.reset();
    r.name().to_vec()
}

#[test]
fn test_clear() {
    let mut record = record(b"@fqlib:1/1", b"ACGT", b"+", b"FQLB");

    record.clear();

    assert!(record.name().is_empty());
    assert!(record.sequence().is_empty());
    assert!(record.plus_line().is_empty());
    assert!(record.quality_scores().is_empty());
}

#[test]
fn test_new_keeps_the_four_lines() {
    let record = record(b"@fqlib:1/1", b"ACGT", b"+", b"FQLB");

    assert_eq!(record.name(), b"@fqlib:1/1");
    assert_eq!(record.sequence(), b"ACGT");
    assert_eq!(record.plus_line(), b"+");
    assert_eq!(record.quality_scores(), b"FQLB");
}

#[test]
fn test_default_is_empty() {
    let record = Record::default();

    assert!(record.name().is_empty());
    assert!(record.sequence().is_empty());
    assert!(record.plus_line().is_empty());
    assert!(record.quality_scores().is_empty());
    assert_eq!(record, Record::new(Vec::new(), Vec::new(), Vec::new(), Vec::new()));
}

#[test]
fn test_mutable_access_reaches_each_line() {
    let mut record = Record::default();

    record.name_mut().extend_from_slice(b"@fqlib");
    record.sequence_mut().extend_from_slice(b"AC");
    record.plus_line_mut().push(b'+');
    record.quality_scores_mut().extend_from_slice(b"FQ");

    assert_eq!(record, self::record(b"@fqlib", b"AC", b"+", b"FQ"));
}

#[test]
fn test_reset_strips_the_mate_marker() {
    assert_eq!(normalized(b"@fqlib/1"), b"@fqlib");
    assert_eq!(normalized(b"@fqlib/2"), b"@fqlib");
}

#[test]
fn test_reset_strips_the_metadata() {
    assert_eq!(normalized(b"@fqlib 1"), b"@fqlib");
    assert_eq!(normalized(b"@fqlib 1:N:0:ATCACG"), b"@fqlib");
}

#[test]
fn test_reset_keeps_a_name_without_separator() {
    assert_eq!(normalized(b"@fqlib"), b"@fqlib");
    assert_eq!(normalized(b"@fqlib:1:2"), b"@fqlib:1:2");
    assert_eq!(normalized(b""), b"");
}

#[test]
fn test_reset_cuts_at_the_last_separator() {
    assert_eq!(normalized(b"@fqlib:1/1"), b"@fqlib:1");
    assert_eq!(normalized(b"@fqlib 1/2"), b"@fqlib 1");
    assert_eq!(normalized(b"@fqlib/1 x"), b"@fqlib/1");
    assert_eq!(normalized(b"@fqlib/"), b"@fqlib");
    assert_eq!(normalized(b"/"), b"");
    assert_eq!(normalized(b" @fqlib"), b"");
}

#[test]
fn test_reset_touches_the_name_only() {
    let mut r = record(b"@fqlib/1", b"AC/GT", b"+ x", b"F/ Q");

    r.reset();

    assert_eq!(r, record(b"@fqlib", b"AC/GT", b"+ x", b"F/ Q"));
}

#[test]
fn test_equality_looks_at_all_four_lines() {
    let r = record(b"@fqlib", b"ACGT", b"+", b"FQLB");

    assert_eq!(r, r.clone());
    assert_ne!(r, record(b"@fqlic", b"ACGT", b"+", b"FQLB"));
    assert_ne!(r, record(b"@fqlib", b"ACGA", b"+", b"FQLB"));
    assert_ne!(r, record(b"@fqlib", b"ACGT", b"+x", b"FQLB"));
    assert_ne!(r, record(b"@fqlib", b"ACGT", b"+", b"FQL"));
}
