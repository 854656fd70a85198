use pswd_store::codec::{decode, encode};
use pswd_store::error::StoreError;
use pswd_store::record::Record;

fn rec(a: &str, b: &str, c: &str, d: &str) -> Record {
    Record::new(a.to_string(), b.to_string(), c.to_string(), d.to_string())
}

fn same(x: &Record, y: &Record) -> bool {
    x.site == y.site && x.username == y.username && x.password == y.password && x.note == y.note
}

#[test]
fn encode_one_record_exact_bytes() {
    let bytes = encode(&vec![rec("ab", "", "xyz", "é")]);
    let expected: Vec<u8> = vec![
        2, 0, 0, 0, 0, 0, 0, 0, 3, 0, 0, 0, 2, 0, 0, 0, b'a', b'b', b'x', b'y', b'z', 0xc3, 0xa9,
    ];
    assert_eq!(bytes, expected);
}

#[test]
fn encode_empty_collection_is_empty() {
    assert!(encode(&Vec::new()).is_empty());
    assert_eq!(decode(&[]).unwrap().len(), 0);
}

#[test]
fn codec_round_trip_keeps_order_and_fields() {
    let records = vec![
        rec("ex.com", "me", "p1", "n"),
        rec("", "", "", ""),
        rec("site\twith tab", "ユーザー", "pä$$", "multi\nline"),
        rec("ex.com", "me", "p1", "n"),
    ];
    let back = decode(&encode(&records)).unwrap();
    assert_eq!(back.len(), records.len());
    for (a, b) in records.iter().zip(back.iter()) {
        assert!(same(a, b));
    }
}

#[test]
fn decode_rejects_short_header() {
    assert_eq!(decode(&[1, 0, 0, 0, 0]).unwrap_err(), StoreError::MalformedRecordData);
    let mut bytes = encode(&vec![rec("a", "b", "c", "d")]);
    bytes.extend_from_slice(&[0, 0, 0]);
    assert_eq!(decode(&bytes).unwrap_err(), StoreError::MalformedRecordData);
}

#[test]
fn decode_rejects_length_past_end() {
    let mut bytes = encode(&vec![rec("abc", "", "", "")]);
    bytes[0] = 200;
    assert_eq!(decode(&bytes).unwrap_err(), StoreError::MalformedRecordData);
    let huge: Vec<u8> = vec![0xff, 0xff, 0xff, 0xff, 0, 0, 0, 0, 0, 0, 0, 0, 0, 0, 0, 0, 1];
    assert_eq!(decode(&huge).unwrap_err(), StoreError::MalformedRecordData);
}

#[test]
fn decode_rejects_invalid_utf8() {
    let bytes: Vec<u8> = vec![1, 0, 0, 0, 0, 0, 0, 0, 0, 0, 0, 0, 0, 0, 0, 0, 0xff];
    assert_eq!(decode(&bytes).unwrap_err(), StoreError::MalformedRecordData);
}
