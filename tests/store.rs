use pswd_store::auth::derive_key;
use pswd_store::error::StoreError;
use pswd_store::parser::WhereClause;
use pswd_store::persist::{change_password, fits_wire, load_store, seal_store};
use pswd_store::record::Record;
use pswd_store::store::RecordStore;

fn rec(a: &str, b: &str, c: &str, d: &str) -> Record {
    Record::new(a.to_string(), b.to_string(), c.to_string(), d.to_string())
}

fn fields(r: &Record) -> (String, String, String, String) {
    (r.site.clone(), r.username.clone(), r.password.clone(), r.note.clone())
}

fn owned(a: &str, b: &str, c: &str, d: &str) -> (String, String, String, String) {
    (a.to_string(), b.to_string(), c.to_string(), d.to_string())
}

fn store_of(rs: Vec<Record>) -> RecordStore {
    RecordStore::from_records(rs)
}

#[test]
fn add_appends_at_last_position_and_marks_dirty() {
    let mut s = store_of(vec![rec("a", "b", "c", "d")]);
    assert!(!s.dirty);
    s.add(rec("x", "y", "z", "w"));
    assert!(s.dirty);
    let l = s.list(&WhereClause::All);
    assert_eq!(l.len(), 2);
    assert_eq!(l[1].0, 1);
    assert_eq!(fields(&l[1].1), owned("x", "y", "z", "w"));
}

#[test]
fn delete_shifts_following_records_down() {
    let mut s = store_of(vec![rec("0", "", "", ""), rec("1", "", "", ""), rec("2", "", "", "")]);
    s.delete(1).unwrap();
    assert!(s.dirty);
    assert_eq!(s.len(), 2);
    assert_eq!(s.records[1].site, "2");
    assert_eq!(s.records[0].site, "0");
}

#[test]
fn delete_out_of_range_leaves_store_unchanged() {
    let mut s = store_of(vec![rec("a", "b", "c", "d")]);
    assert_eq!(s.delete(1), Err(StoreError::IndexOutOfRange));
    assert_eq!(s.delete(usize::MAX), Err(StoreError::IndexOutOfRange));
    assert_eq!(s.len(), 1);
    assert!(!s.dirty);
}

#[test]
fn delete_single_entry_then_delete_again() {
    let mut s = store_of(vec![rec("ex.com", "me", "p1", "n")]);
    assert_eq!(s.delete(0), Ok(()));
    assert_eq!(s.len(), 0);
    assert_eq!(s.delete(0), Err(StoreError::IndexOutOfRange));
    assert_eq!(s.len(), 0);
}

#[test]
fn merge_modify_keeps_fields_given_empty() {
    let mut s = store_of(vec![rec("a", "b", "c", "d")]);
    s.modify(0, rec("", "B", "", ""), true).unwrap();
    assert_eq!(fields(&s.records[0]), owned("a", "B", "c", "d"));
    assert!(s.dirty);
}

#[test]
fn overwrite_modify_replaces_every_field() {
    let mut s = store_of(vec![rec("a", "b", "c", "d")]);
    s.modify(0, rec("", "B", "", "D"), false).unwrap();
    assert_eq!(fields(&s.records[0]), owned("", "B", "", "D"));
}

#[test]
fn modify_out_of_range_fails() {
    let mut s = store_of(vec![rec("a", "b", "c", "d")]);
    assert_eq!(s.modify(3, rec("x", "x", "x", "x"), false), Err(StoreError::IndexOutOfRange));
    assert_eq!(fields(&s.records[0]), owned("a", "b", "c", "d"));
    assert!(!s.dirty);
}

#[test]
fn keyword_listing_filters_any_field_case_sensitively() {
    let s = store_of(vec![
        rec("mail.example", "ann", "pw", ""),
        rec("bank", "Mail", "x", ""),
        rec("shop", "bob", "y", "see mail"),
    ]);
    let l = s.list(&WhereClause::Keyword("mail".to_string()));
    let idx: Vec<usize> = l.iter().map(|p| p.0).collect();
    assert_eq!(idx, vec![0, 2]);
    assert_eq!(s.list(&WhereClause::Keyword("".to_string())).len(), 3);
    assert_eq!(s.list(&WhereClause::Keyword("zzz".to_string())).len(), 0);
}

#[test]
fn replace_all_marks_dirty() {
    let mut s = RecordStore::new();
    s.replace_all(vec![rec("a", "b", "c", "d"), rec("e", "f", "g", "h")]);
    assert!(s.dirty);
    assert_eq!(s.len(), 2);
}

#[test]
fn add_list_persist_reload_scenario() {
    let mut s = RecordStore::new();
    s.add(rec("ex.com", "me", "p1", "n"));
    let l = s.list(&WhereClause::All);
    assert_eq!(l.len(), 1);
    assert_eq!(l[0].0, 0);
    assert_eq!(fields(&l[0].1), owned("ex.com", "me", "p1", "n"));
    let key = derive_key("correct horse");
    let bytes = seal_store(&s, &key).unwrap().unwrap();
    let back = load_store(&bytes, &key).unwrap();
    assert!(!back.dirty);
    assert_eq!(back.len(), 1);
    assert_eq!(fields(&back.records[0]), owned("ex.com", "me", "p1", "n"));
    let other = derive_key("wrong horse");
    assert_eq!(load_store(&bytes, &other).unwrap_err(), StoreError::DecryptionFailed);
}

#[test]
fn clean_store_is_not_written() {
    let s = store_of(vec![rec("a", "b", "c", "d")]);
    assert!(seal_store(&s, &derive_key("k")).unwrap().is_none());
}

#[test]
fn empty_dirty_store_seals_to_one_padding_block() {
    let mut s = store_of(vec![rec("a", "", "", "")]);
    s.delete(0).unwrap();
    let key = derive_key("k");
    let bytes = seal_store(&s, &key).unwrap().unwrap();
    assert_eq!(bytes.len(), 16);
    assert_eq!(load_store(&bytes, &key).unwrap().len(), 0);
    let other = derive_key("other");
    assert_eq!(load_store(&bytes, &other).unwrap_err(), StoreError::DecryptionFailed);
}

#[test]
fn empty_file_is_not_a_store() {
    let key = derive_key("k");
    assert_eq!(load_store(&[], &key).unwrap_err(), StoreError::DecryptionFailed);
}

#[test]
fn sealed_single_record_is_two_blocks() {
    let mut s = RecordStore::new();
    s.add(rec("ex.com", "me", "p1", "n"));
    let bytes = seal_store(&s, &derive_key("k")).unwrap().unwrap();
    assert_eq!(bytes.len(), 32);
}

#[test]
fn decrypted_garbage_is_malformed() {
    let key = derive_key("k");
    let bytes = pswd_store::cipher::encrypt(&[1, 2, 3], &key.key, &key.iv);
    assert_eq!(load_store(&bytes, &key).unwrap_err(), StoreError::MalformedRecordData);
}

#[test]
fn fits_wire_accepts_ordinary_records() {
    assert!(fits_wire(&vec![rec("a", "b", "c", "d")]));
    assert!(fits_wire(&Vec::new()));
}

#[test]
fn change_password_reencrypts_under_new_key() {
    let old_key = derive_key("old");
    let mut cfg = pswd_store::cfg::Cfg::new("f".to_string());
    let s = store_of(vec![rec("a", "b", "c", "d")]);
    let (k, bytes) =
        change_password(&mut cfg, &s, &"new".to_string(), &"new".to_string()).unwrap();
    assert_eq!(k.key, derive_key("new").key);
    assert_eq!(load_store(&bytes, &k).unwrap().len(), 1);
    assert!(load_store(&bytes, &old_key).is_err());
    assert_eq!(cfg.pswd, pswd_store::auth::verification_digest(&k.key));
    let before = cfg.pswd.clone();
    let r = change_password(&mut cfg, &s, &"x".to_string(), &"y".to_string());
    assert_eq!(r.err(), Some(StoreError::PasswordMismatch));
    assert_eq!(cfg.pswd, before);
}
