//! Turning a store into the bytes of its encrypted file and back.
use crate::auth::{SessionKey, derived_key, digest_of_key, set_new_password};
use crate::cfg::Cfg;
use crate::cipher::{BLOCK_LEN, encrypt_spec, decrypt, decrypt_spec, encrypt, pkcs7_pad};
use crate::codec::{
    MAX_FIELD_LEN,
    all_fit,
    decode,
    decode_records,
    encode,
    encode_record,
    encode_records,
    field_bytes,
    lemma_encode_records_append,
    lemma_encode_records_push,
    record_fits,
};
use crate::error::StoreError;
use crate::record::{Record, RecordView, records_view};
use crate::store::RecordStore;
use vstd::prelude::*;

verus! {

/// The collection can be written and encrypted: every field fits its
/// length header and the padded stream fits in memory.
pub open spec fn sealable(rs: Seq<RecordView>) -> bool {
    &&& all_fit(rs)
    &&& encode_records(rs).len() + BLOCK_LEN <= usize::MAX
}

/// The records that an encrypted file holds under `key` and `iv`, or why it
/// holds none.
pub open spec fn load_spec(cipher: Seq<u8>, key: Seq<u8>, iv: Seq<u8>) -> Result<
    Seq<RecordView>,
    StoreError,
> {
    match decrypt_spec(cipher, key, iv) {
        None => Err(StoreError::DecryptionFailed),
        Some(plain) => match decode_records(plain) {
            None => Err(StoreError::MalformedRecordData),
            Some(rs) => Ok(rs),
        },
    }
}

proof fn lemma_encode_record_len(r: RecordView)
    ensures
        encode_record(r).len() == 16 + field_bytes(r.site).len() + field_bytes(r.username).len()
            + field_bytes(r.password).len() + field_bytes(r.note).len(),
{
}

/// Whether a collection can be sealed into a file.
pub fn fits_wire(records: &Vec<Record>) -> (r: bool)
    ensures
        r == sealable(records_view(records@)),
{
    let ghost rv = records_view(records@);
    let mut total: usize = 0;
    let mut i: usize = 0;
    assert(rv.take(0) =~= seq![]);
    while i < records.len()
        invariant
            i <= records@.len(),
            rv == records_view(records@),
            forall|k: int| 0 <= k < i ==> #[trigger] record_fits(rv[k]),
            total == encode_records(rv.take(i as int)).len(),
        decreases records@.len() - i,
    {
        let r = &records[i];
        let l0 = r.site.as_str().as_bytes().len();
        let l1 = r.username.as_str().as_bytes().len();
        let l2 = r.password.as_str().as_bytes().len();
        let l3 = r.note.as_str().as_bytes().len();
        if l0 as u64 > MAX_FIELD_LEN || l1 as u64 > MAX_FIELD_LEN || l2 as u64 > MAX_FIELD_LEN
            || l3 as u64 > MAX_FIELD_LEN {
            assert(!record_fits(rv[i as int]));
            return false;
        }
        proof {
            lemma_encode_record_len(rv[i as int]);
            assert(rv.take(i + 1) =~= rv.take(i as int).push(rv[i as int]));
            lemma_encode_records_push(rv.take(i as int), rv[i as int]);
            assert(rv =~= rv.take(i + 1) + rv.skip(i + 1));
            lemma_encode_records_append(rv.take(i + 1), rv.skip(i + 1));
        }
        let size = (16 + l0 as u64 + l1 as u64 + l2 as u64 + l3 as u64);
        if size > (usize::MAX - total) as u64 {
            return false;
        }
        total = total + size as usize;
        i = i + 1;
    }
    assert(rv.take(i as int) =~= rv);
    total <= usize::MAX - BLOCK_LEN
}

/// The store that an encrypted file holds: decrypt, then decode. The loaded
/// store has nothing to persist.
pub fn load_store(cipher: &[u8], session: &SessionKey) -> (r: Result<RecordStore, StoreError>)
    ensures
        match r {
            Ok(s) => load_spec(cipher@, session.key@, session.iv@) == Ok::<
                Seq<RecordView>,
                StoreError,
            >(s@) && !s.dirty,
            Err(e) => load_spec(cipher@, session.key@, session.iv@) == Err::<
                Seq<RecordView>,
                StoreError,
            >(e),
        },
{
    let plain = decrypt(cipher, &session.key, &session.iv)?;
    let records = decode(plain.as_slice())?;
    Ok(RecordStore::from_records(records))
}

/// The encrypted file of a collection.
fn seal_records(records: &Vec<Record>, session: &SessionKey) -> (r: Vec<u8>)
    requires
        sealable(records_view(records@)),
    ensures
        r@ == encrypt_spec(
            encode_records(records_view(records@)),
            session.key@,
            session.iv@,
        ),
        r@.len() == pkcs7_pad(encode_records(records_view(records@))).len(),
        decrypt_spec(r@, session.key@, session.iv@) == Some(encode_records(records_view(records@))),
{
    let plain = encode(records);
    encrypt(plain.as_slice(), &session.key, &session.iv)
}

/// The bytes to write back at the end of a session: `None` when nothing
/// changed, else the encrypted encoding of the records.
pub fn seal_store(store: &RecordStore, session: &SessionKey) -> (r: Result<
    Option<Vec<u8>>,
    StoreError,
>)
    ensures
        !store.dirty ==> r == Ok::<Option<Vec<u8>>, StoreError>(None),
        store.dirty ==> (r is Err <==> !sealable(store@)),
        r matches Err(e) ==> e == StoreError::TooLarge,
        r matches Ok(Some(c)) ==> store.dirty && c@ == encrypt_spec(
            encode_records(store@),
            session.key@,
            session.iv@,
        ) && c@.len() == pkcs7_pad(encode_records(store@)).len() && decrypt_spec(
            c@,
            session.key@,
            session.iv@,
        ) == Some(encode_records(store@)),
        store.dirty && sealable(store@) ==> r is Ok && r->Ok_0 is Some,
{
    if !store.dirty {
        return Ok(None);
    }
    if !fits_wire(&store.records) {
        return Err(StoreError::TooLarge);
    }
    Ok(Some(seal_records(&store.records, session)))
}

/// Changes the password: on two equal entries the configuration takes the
/// new key's digest, and the records are encrypted at once under the new
/// key, whose file bytes are returned with it. On failure nothing changes.
pub fn change_password(
    cfg: &mut Cfg,
    store: &RecordStore,
    password: &String,
    repeated: &String,
) -> (r: Result<(SessionKey, Vec<u8>), StoreError>)
    ensures
        r matches Err(e) ==> *final(cfg) == *old(cfg) && (e == StoreError::TooLarge
            || e == StoreError::PasswordMismatch),
        r matches Err(e) ==> (e == StoreError::TooLarge <==> !sealable(store@)),
        r is Ok <==> sealable(store@) && password@ == repeated@,
        r matches Ok((k, c)) ==> {
            &&& k.key@ == derived_key(password@)
            &&& k.iv@ == k.key@.take(16)
            &&& final(cfg).pswd@ == digest_of_key(k.key@)
            &&& final(cfg).record_pth == old(cfg).record_pth
            &&& c@ == encrypt_spec(encode_records(store@), k.key@, k.iv@)
            &&& c@.len() == pkcs7_pad(encode_records(store@)).len()
            &&& final(cfg).pswd@.len() == 64
            &&& decrypt_spec(c@, k.key@, k.iv@) == Some(encode_records(store@))
        },
{
    if !fits_wire(&store.records) {
        return Err(StoreError::TooLarge);
    }
    let session = set_new_password(cfg, password, repeated)?;
    let c = seal_records(&store.records, &session);
    Ok((session, c))
}

/// Sealing a store and loading the bytes back under the same key gives the
/// same records.
pub proof fn lemma_seal_then_load(rs: Seq<RecordView>, c: Seq<u8>, key: Seq<u8>, iv: Seq<u8>)
    requires
        sealable(rs),
        decrypt_spec(c, key, iv) == Some(encode_records(rs)),
    ensures
        load_spec(c, key, iv) == Ok::<Seq<RecordView>, StoreError>(rs),
{
    crate::codec::lemma_codec_round_trip(rs);
}

} // verus!
