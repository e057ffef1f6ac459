use fqlib::fastq::{Reader, Record};

fn read_all(bytes: &[u8]) -> Vec<(Record, usize)> {
    let mut reader = Reader::new(bytes);
    let mut record = Record::default();
    let mut all = Vec::new();
    loop {
        let n = reader.read_record(&mut record);
        if n == 0 {
            assert_eq!(record, Record::default());
            break;
        }
        all.push((record.clone(), n));
    }
    all
}

fn record(name: &[u8], sequence: &[u8], plus_line: &[u8], quality_scores: &[u8]) -> Record {
    Record::new(
        name.to_vec(),
        sequence.to_vec(),
        plus_line.to_vec(),
        quality_scores.to_vec(),
    )
}

#[test]
fn test_read_record_reads_four_lines_per_record() {
    let all = read_all(b"@fqlib:1/1\nACGT\n+\nFQLB\n@fqlib:2/1\nTG\n+fqlib:2/1\nAB\n");

    assert_eq!(
        all,
        vec![
            (record(b"@fqlib:1/1", b"ACGT", b"+", b"FQLB"), 23),
            (record(b"@fqlib:2/1", b"TG", b"+fqlib:2/1", b"AB"), 28),
        ]
    );
}

#[test]
fn test_read_record_at_the_end_reads_nothing() {
    let mut reader = Reader::new(b"");
    let mut record = record(b"@fqlib", b"ACGT", b"+", b"FQLB");

    assert_eq!(reader.read_record(&mut record), 0);
    assert_eq!(record, Record::default());
    assert_eq!(reader.read_record(&mut record), 0);
    assert_eq!(reader.remaining(), 0);
}

#[test]
fn test_read_record_strips_carriage_returns() {
    let all = read_all(b"@fqlib\r\nACGT\r\n+\r\nFQLB\r\n");

    assert_eq!(all, vec![(record(b"@fqlib", b"ACGT", b"+", b"FQLB"), 23)]);
}

#[test]
fn test_read_record_strips_one_carriage_return_only() {
    let all = read_all(b"@fqlib\r\r\nAC\rGT\n+\n\r\n");

    assert_eq!(all, vec![(record(b"@fqlib\r", b"AC\rGT", b"+", b""), 19)]);
}

#[test]
fn test_read_record_takes_a_last_line_without_line_feed() {
    let all = read_all(b"@fqlib\nACGT\n+\nFQLB");

    assert_eq!(all, vec![(record(b"@fqlib", b"ACGT", b"+", b"FQLB"), 18)]);
}

#[test]
fn test_read_record_keeps_a_carriage_return_without_line_feed() {
    let all = read_all(b"@fqlib\nACGT\n+\nFQLB\r");

    assert_eq!(all, vec![(record(b"@fqlib", b"ACGT", b"+", b"FQLB\r"), 19)]);
}

#[test]
fn test_read_record_leaves_missing_lines_empty() {
    let all = read_all(b"@fqlib:1\nACGT\n+\nFQLB\n@fqlib:2\nAC\n");

    assert_eq!(
        all,
        vec![
            (record(b"@fqlib:1", b"ACGT", b"+", b"FQLB"), 21),
            (record(b"@fqlib:2", b"AC", b"", b""), 12),
        ]
    );
}

#[test]
fn test_read_record_takes_an_empty_line_as_a_line() {
    let all = read_all(b"\n\n\n\n\n");

    assert_eq!(
        all,
        vec![(record(b"", b"", b"", b""), 4), (record(b"", b"", b"", b""), 1)]
    );
}

#[test]
fn test_reopen_starts_again() {
    let bytes = b"@fqlib:1\nACGT\n+\nFQLB\n@fqlib:2\nAC\n+\nFQ\n";
    let mut reader = Reader::new(bytes);
    let mut record = Record::default();
    assert_eq!(reader.remaining(), 38);
    assert_eq!(reader.read_record(&mut record), 21);
    assert_eq!(reader.remaining(), 17);

    let mut again = reader.reopen();

    assert_eq!(again.remaining(), 38);
    assert_eq!(again.read_record(&mut record), 21);
    assert_eq!(record.name(), b"@fqlib:1");
    assert_eq!(reader.read_record(&mut record), 17);
    assert_eq!(record.name(), b"@fqlib:2");
}
