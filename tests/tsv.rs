use pswd_store::error::StoreError;
use pswd_store::record::Record;
use pswd_store::tsv::{format_tsv, parse_tsv, split_bytes};

fn rec(a: &str, b: &str, c: &str, d: &str) -> Record {
    Record::new(a.to_string(), b.to_string(), c.to_string(), d.to_string())
}

#[test]
fn format_writes_header_and_one_line_per_record() {
    let text = format_tsv(&vec![rec("ex.com", "me", "p1", "n"), rec("", "ü", "", "x")]);
    assert_eq!(text, "site\tusername\tpassword\tnote\nex.com\tme\tp1\tn\n\tü\t\tx\n");
    assert_eq!(format_tsv(&Vec::new()), "site\tusername\tpassword\tnote\n");
}

#[test]
fn parse_skips_header_and_reads_fields() {
    let rs = parse_tsv("site\tusername\tpassword\tnote\nex.com\tme\tp1\tn\r\n\tü\t\tx").unwrap();
    assert_eq!(rs.len(), 2);
    assert_eq!(rs[0].site, "ex.com");
    assert_eq!(rs[0].note, "n");
    assert_eq!(rs[1].site, "");
    assert_eq!(rs[1].username, "ü");
    assert_eq!(rs[1].note, "x");
}

#[test]
fn parse_of_formatted_text_gives_records_back() {
    let records = vec![rec("a", "b", "c", "d"), rec("", "", "", "")];
    let back = parse_tsv(&format_tsv(&records)).unwrap();
    assert_eq!(back.len(), 2);
    assert_eq!(back[0].password, "c");
    assert_eq!(back[1].site, "");
}

#[test]
fn parse_ignores_fields_past_the_fourth() {
    let rs = parse_tsv("h\na\tb\tc\td\te\n").unwrap();
    assert_eq!(rs[0].note, "d");
}

#[test]
fn parse_rejects_short_lines() {
    assert_eq!(parse_tsv("h\na\tb\tc\n").unwrap_err(), StoreError::MalformedRecordData);
    assert_eq!(parse_tsv("h\n\n").unwrap_err(), StoreError::MalformedRecordData);
}

#[test]
fn parse_of_empty_or_header_only_text_is_empty() {
    assert_eq!(parse_tsv("").unwrap().len(), 0);
    assert_eq!(parse_tsv("site\tusername\tpassword\tnote\n").unwrap().len(), 0);
}

#[test]
fn split_keeps_empty_pieces() {
    assert_eq!(split_bytes(b"a,,b,", b','), vec![b"a".to_vec(), vec![], b"b".to_vec(), vec![]]);
    assert_eq!(split_bytes(b"", b','), vec![Vec::<u8>::new()]);
}
