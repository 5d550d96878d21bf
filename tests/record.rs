use acc2taxid::{parse_fields, parse_number, parse_record, Record, RecordError};

fn fields(f: &[&str]) -> Vec<String> {
    f.iter().map(|s| s.to_string()).collect()
}

#[test]
fn number_decimal() {
    assert_eq!(parse_number("42"), Some(42));
    assert_eq!(parse_number("0"), Some(0));
    assert_eq!(parse_number("+7"), Some(7));
    assert_eq!(parse_number("007"), Some(7));
    assert_eq!(parse_number("18446744073709551615"), Some(u64::MAX));
}

#[test]
fn number_hex_prefix() {
    assert_eq!(parse_number("0x1A"), Some(26));
    assert_eq!(parse_number("0xff"), Some(255));
    assert_eq!(parse_number("0x+10"), Some(16));
    assert_eq!(parse_number("0xffffffffffffffff"), Some(u64::MAX));
}

#[test]
fn number_refused() {
    assert_eq!(parse_number(""), None);
    assert_eq!(parse_number("+"), None);
    assert_eq!(parse_number("-1"), None);
    assert_eq!(parse_number("12a"), None);
    assert_eq!(parse_number(" 1"), None);
    assert_eq!(parse_number("0x"), None);
    assert_eq!(parse_number("0X1A"), None);
    assert_eq!(parse_number("1.5"), None);
    assert_eq!(parse_number("18446744073709551616"), None);
    assert_eq!(parse_number("0x10000000000000000"), None);
    assert_eq!(parse_number("\u{661}"), None);
}

#[test]
fn fields_read_as_record() {
    let r = parse_fields(&fields(&["acc.A", "acc.A.1", "1", "100"])).unwrap();
    assert_eq!(
        r,
        Record {
            accession: "acc.A".to_string(),
            accession_version: "acc.A.1".to_string(),
            taxid: 1,
            gid: 100,
        }
    );
}

#[test]
fn fields_wrong_count() {
    assert_eq!(
        parse_fields(&fields(&["acc.A", "acc.A.1", "1"])),
        Err(RecordError::FieldCount { found: 3 })
    );
    assert_eq!(
        parse_fields(&fields(&["a", "b", "1", "2", "3"])),
        Err(RecordError::FieldCount { found: 5 })
    );
    assert_eq!(parse_fields(&Vec::new()), Err(RecordError::FieldCount { found: 0 }));
}

#[test]
fn fields_bad_identifiers() {
    assert_eq!(
        parse_fields(&fields(&["a", "a.1", "x", "2"])),
        Err(RecordError::InvalidTaxid)
    );
    assert_eq!(
        parse_fields(&fields(&["a", "a.1", "x", "y"])),
        Err(RecordError::InvalidTaxid)
    );
    assert_eq!(
        parse_fields(&fields(&["a", "a.1", "1", ""])),
        Err(RecordError::InvalidGid)
    );
}

#[test]
fn csv_row_read_as_record() {
    let row = csv::StringRecord::from(vec!["acc.B", "acc.B.1", "2", "200"]);
    let r = parse_record(&row).unwrap();
    assert_eq!(r.accession, "acc.B");
    assert_eq!(r.accession_version, "acc.B.1");
    assert_eq!(r.taxid, 2);
    assert_eq!(r.gid, 200);
}

#[test]
fn csv_row_refused() {
    let short = csv::StringRecord::from(vec!["acc.B", "2", "200"]);
    assert_eq!(parse_record(&short), Err(RecordError::FieldCount { found: 3 }));
    let bad = csv::StringRecord::from(vec!["acc.B", "acc.B.1", "2", "two"]);
    assert_eq!(parse_record(&bad), Err(RecordError::InvalidGid));
}
