//! The wire format of a record collection: per record, four little-endian
//! `u32` byte lengths (site, username, password, note) followed by the four
//! fields' UTF-8 bytes in the same order; records are concatenated with no
//! count, separator or checksum.
use crate::error::StoreError;
use crate::record::{Record, RecordView, records_view};
use vstd::prelude::*;
use vstd::utf8::*;

verus! {

broadcast use {encode_utf8_valid_utf8, encode_utf8_decode_utf8};

/// The largest value a length header can carry.
pub const MAX_FIELD_LEN: u64 = 0xffff_ffff;

/// The four little-endian bytes of `n`.
pub open spec fn u32_le(n: nat) -> Seq<u8> {
    seq![
        (n % 256) as u8,
        ((n / 256) % 256) as u8,
        ((n / 65536) % 256) as u8,
        ((n / 16777216) % 256) as u8,
    ]
}

/// The little-endian integer held by the four bytes of `b` starting at `at`.
#[verifier::opaque]
pub open spec fn read_u32_le(b: Seq<u8>, at: int) -> nat {
    (b[at] as nat) + (b[at + 1] as nat) * 256 + (b[at + 2] as nat) * 65536 + (b[at + 3] as nat)
        * 16777216
}

/// The UTF-8 bytes of a field.
pub open spec fn field_bytes(s: Seq<char>) -> Seq<u8> {
    encode_utf8(s)
}

/// The length header of one record.
pub open spec fn header_of(r: RecordView) -> Seq<u8> {
    u32_le(field_bytes(r.site).len()) + u32_le(field_bytes(r.username).len()) + u32_le(
        field_bytes(r.password).len(),
    ) + u32_le(field_bytes(r.note).len())
}

/// The bytes of one record.
pub open spec fn encode_record(r: RecordView) -> Seq<u8> {
    header_of(r) + field_bytes(r.site) + field_bytes(r.username) + field_bytes(r.password)
        + field_bytes(r.note)
}

/// The bytes of a record collection.
pub open spec fn encode_records(rs: Seq<RecordView>) -> Seq<u8>
    decreases rs.len(),
{
    if rs.len() == 0 {
        seq![]
    } else {
        encode_record(rs[0]) + encode_records(rs.drop_first())
    }
}

/// Every field of the record fits a length header.
pub open spec fn record_fits(r: RecordView) -> bool {
    &&& field_bytes(r.site).len() <= MAX_FIELD_LEN
    &&& field_bytes(r.username).len() <= MAX_FIELD_LEN
    &&& field_bytes(r.password).len() <= MAX_FIELD_LEN
    &&& field_bytes(r.note).len() <= MAX_FIELD_LEN
}

/// Every field of every record fits a length header.
pub open spec fn all_fit(rs: Seq<RecordView>) -> bool {
    forall|i: int| 0 <= i < rs.len() ==> #[trigger] record_fits(rs[i])
}

/// The record at the front of `b` and the number of bytes it takes, if `b`
/// starts with a well-formed record.
#[verifier::opaque]
pub open spec fn decode_first(b: Seq<u8>) -> Option<(RecordView, int)> {
    if b.len() < 16 {
        None
    } else {
        let l0 = read_u32_le(b, 0) as int;
        let l1 = read_u32_le(b, 4) as int;
        let l2 = read_u32_le(b, 8) as int;
        let l3 = read_u32_le(b, 12) as int;
        let e0 = 16 + l0;
        let e1 = e0 + l1;
        let e2 = e1 + l2;
        let e3 = e2 + l3;
        if e3 > b.len() {
            None
        } else {
            let f0 = b.subrange(16, e0);
            let f1 = b.subrange(e0, e1);
            let f2 = b.subrange(e1, e2);
            let f3 = b.subrange(e2, e3);
            if valid_utf8(f0) && valid_utf8(f1) && valid_utf8(f2) && valid_utf8(f3) {
                Some(
                    (
                        RecordView {
                            site: decode_utf8(f0),
                            username: decode_utf8(f1),
                            password: decode_utf8(f2),
                            note: decode_utf8(f3),
                        },
                        e3,
                    ),
                )
            } else {
                None
            }
        }
    }
}

/// The records of a byte stream, read front to back until it is used up;
/// `None` where the stream is malformed.
pub open spec fn decode_records(b: Seq<u8>) -> Option<Seq<RecordView>>
    decreases b.len(),
{
    match decode_first(b) {
        None => if b.len() == 0 {
            Some(seq![])
        } else {
            None
        },
        Some((r, n)) => if 16 <= n <= b.len() {
            match decode_records(b.subrange(n, b.len() as int)) {
                Some(rest) => Some(seq![r] + rest),
                None => None,
            }
        } else {
            None
        },
    }
}

proof fn lemma_u32_le_round_trip(b: Seq<u8>, at: int, n: nat)
    requires
        n <= MAX_FIELD_LEN,
        0 <= at,
        at + 4 <= b.len(),
        b.subrange(at, at + 4) == u32_le(n),
    ensures
        read_u32_le(b, at) == n,
{
    reveal(read_u32_le);
    assert(b[at] == b.subrange(at, at + 4)[0]);
    assert(b[at + 1] == b.subrange(at, at + 4)[1]);
    assert(b[at + 2] == b.subrange(at, at + 4)[2]);
    assert(b[at + 3] == b.subrange(at, at + 4)[3]);
    assert(b[at] as nat == n % 256);
    assert(b[at + 1] as nat == (n / 256) % 256);
    assert(b[at + 2] as nat == (n / 65536) % 256);
    assert(b[at + 3] as nat == (n / 16777216) % 256);
    assert((n % 256) + ((n / 256) % 256) * 256 + ((n / 65536) % 256) * 65536 + ((n / 16777216)
        % 256) * 16777216 == n) by (nonlinear_arith)
        requires
            n <= MAX_FIELD_LEN,
    ;
}

pub(crate) proof fn lemma_encode_records_push(rs: Seq<RecordView>, r: RecordView)
    ensures
        encode_records(rs.push(r)) == encode_records(rs) + encode_record(r),
    decreases rs.len(),
{
    if rs.len() == 0 {
        assert(rs.push(r).drop_first() =~= seq![]);
        assert(encode_records(seq![]) =~= seq![]);
        assert(encode_records(rs.push(r)) =~= encode_record(r) + seq![]);
        assert(encode_records(rs) =~= seq![]);
        assert(encode_records(rs.push(r)) =~= encode_records(rs) + encode_record(r));
    } else {
        assert(rs.push(r).drop_first() =~= rs.drop_first().push(r));
        lemma_encode_records_push(rs.drop_first(), r);
        assert(encode_records(rs.push(r)) =~= encode_records(rs) + encode_record(r));
    }
}

pub(crate) proof fn lemma_encode_records_append(a: Seq<RecordView>, b: Seq<RecordView>)
    ensures
        encode_records(a + b) == encode_records(a) + encode_records(b),
    decreases a.len(),
{
    if a.len() == 0 {
        assert(a + b =~= b);
        assert(encode_records(a) + encode_records(b) =~= encode_records(b));
    } else {
        assert((a + b).drop_first() =~= a.drop_first() + b);
        lemma_encode_records_append(a.drop_first(), b);
        assert(encode_records(a + b) =~= encode_records(a) + encode_records(b));
    }
}

proof fn lemma_middle(a: Seq<u8>, x: Seq<u8>, c: Seq<u8>)
    ensures
        (a + x + c).subrange(a.len() as int, (a.len() + x.len()) as int) =~= x,
{
}

#[verifier::rlimit(40)]
proof fn lemma_header_reads(r: RecordView, rest: Seq<u8>)
    requires
        record_fits(r),
    ensures
        encode_record(r).len() == 16 + field_bytes(r.site).len() + field_bytes(r.username).len()
            + field_bytes(r.password).len() + field_bytes(r.note).len(),
        read_u32_le(encode_record(r) + rest, 0) == field_bytes(r.site).len(),
        read_u32_le(encode_record(r) + rest, 4) == field_bytes(r.username).len(),
        read_u32_le(encode_record(r) + rest, 8) == field_bytes(r.password).len(),
        read_u32_le(encode_record(r) + rest, 12) == field_bytes(r.note).len(),
{
    let b = encode_record(r) + rest;
    let h0 = u32_le(field_bytes(r.site).len());
    let h1 = u32_le(field_bytes(r.username).len());
    let h2 = u32_le(field_bytes(r.password).len());
    let h3 = u32_le(field_bytes(r.note).len());
    let tail = field_bytes(r.site) + field_bytes(r.username) + field_bytes(r.password)
        + field_bytes(r.note) + rest;
    assert(b =~= h0 + h1 + h2 + h3 + tail);
    lemma_middle(seq![], h0, h1 + h2 + h3 + tail);
    assert(b =~= seq![] + h0 + (h1 + h2 + h3 + tail));
    lemma_middle(h0, h1, h2 + h3 + tail);
    assert(b =~= h0 + h1 + (h2 + h3 + tail));
    lemma_middle(h0 + h1, h2, h3 + tail);
    assert(b =~= h0 + h1 + h2 + (h3 + tail));
    lemma_middle(h0 + h1 + h2, h3, tail);
    lemma_u32_le_round_trip(b, 0, field_bytes(r.site).len());
    lemma_u32_le_round_trip(b, 4, field_bytes(r.username).len());
    lemma_u32_le_round_trip(b, 8, field_bytes(r.password).len());
    lemma_u32_le_round_trip(b, 12, field_bytes(r.note).len());
}

proof fn lemma_field_slices(h: Seq<u8>, s0: Seq<u8>, s1: Seq<u8>, s2: Seq<u8>, s3: Seq<u8>, rest: Seq<u8>)
    ensures
        ({
            let b = h + s0 + s1 + s2 + s3 + rest;
            let e0 = h.len() + s0.len();
            let e1 = e0 + s1.len();
            let e2 = e1 + s2.len();
            let e3 = e2 + s3.len();
            &&& b.subrange(h.len() as int, e0 as int) == s0
            &&& b.subrange(e0 as int, e1 as int) == s1
            &&& b.subrange(e1 as int, e2 as int) == s2
            &&& b.subrange(e2 as int, e3 as int) == s3
        }),
{
    let b = h + s0 + s1 + s2 + s3 + rest;
    lemma_middle(h, s0, s1 + s2 + s3 + rest);
    assert(b =~= h + s0 + (s1 + s2 + s3 + rest));
    lemma_middle(h + s0, s1, s2 + s3 + rest);
    assert(b =~= h + s0 + s1 + (s2 + s3 + rest));
    lemma_middle(h + s0 + s1, s2, s3 + rest);
    assert(b =~= h + s0 + s1 + s2 + (s3 + rest));
    lemma_middle(h + s0 + s1 + s2, s3, rest);
}

proof fn lemma_decode_first_record(r: RecordView, rest: Seq<u8>)
    requires
        record_fits(r),
    ensures
        decode_first(encode_record(r) + rest) == Some((r, encode_record(r).len() as int)),
{
    reveal(decode_first);
    lemma_header_reads(r, rest);
    lemma_field_slices(
        header_of(r),
        field_bytes(r.site),
        field_bytes(r.username),
        field_bytes(r.password),
        field_bytes(r.note),
        rest,
    );
}

proof fn lemma_decode_encode(rs: Seq<RecordView>)
    requires
        forall|i: int| 0 <= i < rs.len() ==> #[trigger] record_fits(rs[i]),
    ensures
        decode_records(encode_records(rs)) == Some(rs),
    decreases rs.len(),
{
    if rs.len() == 0 {
        reveal(decode_first);
        assert(decode_first(seq![]) is None);
    } else {
        let r = rs[0];
        let tail = rs.drop_first();
        assert(record_fits(rs[0]));
        assert forall|i: int| 0 <= i < tail.len() implies #[trigger] record_fits(tail[i]) by {
            assert(tail[i] == rs[i + 1]);
        }
        let b = encode_records(rs);
        let n = encode_record(r).len() as int;
        lemma_decode_first_record(r, encode_records(tail));
        assert(b.subrange(n, b.len() as int) =~= encode_records(tail));
        lemma_decode_encode(tail);
        assert(seq![r] + tail =~= rs);
    }
}

/// Decoding the encoding of a collection gives the collection back, field for
/// field and in order, wherever every field fits its length header.
pub proof fn lemma_codec_round_trip(rs: Seq<RecordView>)
    requires
        all_fit(rs),
    ensures
        decode_records(encode_records(rs)) == Some(rs),
{
    lemma_decode_encode(rs);
}

/// Relies on `String::from_utf8`: it succeeds exactly when the bytes are
/// valid UTF-8, and the string then holds the characters they encode.
#[verifier::external_body]
pub(crate) fn string_from_utf8(bytes: Vec<u8>) -> (r: Option<String>)
    ensures
        r is Some <==> valid_utf8(bytes@),
        r matches Some(s) ==> s@ == decode_utf8(bytes@),
{
    String::from_utf8(bytes).ok()
}

fn push_u32_le(buf: &mut Vec<u8>, n: u32)
    ensures
        final(buf)@ == old(buf)@ + u32_le(n as nat),
{
    buf.push((n % 256) as u8);
    buf.push(((n / 256) % 256) as u8);
    buf.push(((n / 65536) % 256) as u8);
    buf.push(((n / 16777216) % 256) as u8);
    assert(final(buf)@ =~= old(buf)@ + u32_le(n as nat));
}

fn push_bytes(buf: &mut Vec<u8>, bytes: &[u8])
    ensures
        final(buf)@ == old(buf)@ + bytes@,
{
    let ghost start = buf@;
    let mut i: usize = 0;
    while i < bytes.len()
        invariant
            i <= bytes@.len(),
            buf@ == start + bytes@.take(i as int),
        decreases bytes@.len() - i,
    {
        buf.push(bytes[i]);
        i = i + 1;
        assert(buf@ =~= start + bytes@.take(i as int));
    }
    assert(bytes@.take(i as int) =~= bytes@);
}

fn copy_range(bytes: &[u8], from: usize, to: usize) -> (r: Vec<u8>)
    requires
        from <= to <= bytes@.len(),
    ensures
        r@ == bytes@.subrange(from as int, to as int),
{
    let mut out: Vec<u8> = Vec::new();
    let mut i: usize = from;
    while i < to
        invariant
            from <= i <= to <= bytes@.len(),
            out@ == bytes@.subrange(from as int, i as int),
        decreases to - i,
    {
        out.push(bytes[i]);
        i = i + 1;
        assert(out@ =~= bytes@.subrange(from as int, i as int));
    }
    out
}

fn encode_one(buf: &mut Vec<u8>, r: &Record)
    requires
        record_fits(r@),
    ensures
        final(buf)@ == old(buf)@ + encode_record(r@),
{
    let site = r.site.as_str().as_bytes();
    let username = r.username.as_str().as_bytes();
    let password = r.password.as_str().as_bytes();
    let note = r.note.as_str().as_bytes();
    push_u32_le(buf, site.len() as u32);
    push_u32_le(buf, username.len() as u32);
    push_u32_le(buf, password.len() as u32);
    push_u32_le(buf, note.len() as u32);
    push_bytes(buf, site);
    push_bytes(buf, username);
    push_bytes(buf, password);
    push_bytes(buf, note);
    assert(final(buf)@ =~= old(buf)@ + encode_record(r@));
}

/// The wire bytes of a record collection.
pub fn encode(records: &Vec<Record>) -> (r: Vec<u8>)
    requires
        all_fit(records_view(records@)),
    ensures
        r@ == encode_records(records_view(records@)),
{
    let ghost rv = records_view(records@);
    let mut buf: Vec<u8> = Vec::new();
    let mut i: usize = 0;
    assert(rv.take(0) =~= seq![]);
    while i < records.len()
        invariant
            i <= records@.len(),
            rv == records_view(records@),
            all_fit(rv),
            buf@ == encode_records(rv.take(i as int)),
        decreases records@.len() - i,
    {
        assert(record_fits(rv[i as int]));
        encode_one(&mut buf, &records[i]);
        proof {
            assert(rv.take(i + 1) =~= rv.take(i as int).push(rv[i as int]));
            lemma_encode_records_push(rv.take(i as int), rv[i as int]);
        }
        i = i + 1;
    }
    assert(rv.take(i as int) =~= rv);
    buf
}

/// `front` put before what `rest` decodes to, if it decodes.
pub open spec fn prepend(front: Seq<RecordView>, rest: Option<Seq<RecordView>>) -> Option<
    Seq<RecordView>,
> {
    match rest {
        Some(t) => Some(front + t),
        None => None,
    }
}

fn read_len(b: &[u8], at: usize) -> (r: u64)
    requires
        at + 4 <= b@.len(),
    ensures
        r as nat == read_u32_le(b@, at as int),
        r <= MAX_FIELD_LEN,
{
    reveal(read_u32_le);
    (b[at] as u64) + (b[at + 1] as u64) * 256 + (b[at + 2] as u64) * 65536 + (b[at + 3] as u64)
        * 16777216
}

proof fn lemma_read_shift(b: Seq<u8>, pos: int, k: int)
    requires
        0 <= pos,
        0 <= k,
        pos + k + 4 <= b.len(),
    ensures
        read_u32_le(b.subrange(pos, b.len() as int), k) == read_u32_le(b, pos + k),
{
    reveal(read_u32_le);
}

/// The record that starts at `pos` and the position just past it.
fn decode_one(bytes: &[u8], pos: usize) -> (r: Option<(Record, usize)>)
    requires
        pos <= bytes@.len(),
    ensures
        ({
            let sub = bytes@.subrange(pos as int, bytes@.len() as int);
            match r {
                Some((rec, end)) => decode_first(sub) == Some((rec@, end - pos)) && pos + 16 <= end
                    <= bytes@.len(),
                None => decode_first(sub) is None,
            }
        }),
{
    reveal(decode_first);
    let n = bytes.len();
    let ghost sub = bytes@.subrange(pos as int, n as int);
    if n - pos < 16 {
        return None;
    }
    let l0 = read_len(bytes, pos);
    let l1 = read_len(bytes, pos + 4);
    let l2 = read_len(bytes, pos + 8);
    let l3 = read_len(bytes, pos + 12);
    proof {
        lemma_read_shift(bytes@, pos as int, 0);
        lemma_read_shift(bytes@, pos as int, 4);
        lemma_read_shift(bytes@, pos as int, 8);
        lemma_read_shift(bytes@, pos as int, 12);
    }
    let remaining = (n - pos) as u64;
    if 16 + l0 + l1 + l2 + l3 > remaining {
        return None;
    }
    let s0 = pos + 16;
    let e0 = s0 + l0 as usize;
    let e1 = e0 + l1 as usize;
    let e2 = e1 + l2 as usize;
    let e3 = e2 + l3 as usize;
    let f0 = copy_range(bytes, s0, e0);
    let f1 = copy_range(bytes, e0, e1);
    let f2 = copy_range(bytes, e1, e2);
    let f3 = copy_range(bytes, e2, e3);
    proof {
        assert(f0@ =~= sub.subrange(16, e0 - pos));
        assert(f1@ =~= sub.subrange(e0 - pos, e1 - pos));
        assert(f2@ =~= sub.subrange(e1 - pos, e2 - pos));
        assert(f3@ =~= sub.subrange(e2 - pos, e3 - pos));
    }
    let site = string_from_utf8(f0);
    let username = string_from_utf8(f1);
    let password = string_from_utf8(f2);
    let note = string_from_utf8(f3);
    match (site, username, password, note) {
        (Some(site), Some(username), Some(password), Some(note)) => {
            Some((Record::new(site, username, password, note), e3))
        },
        _ => None,
    }
}

/// Reads the record collection back from its wire bytes.
pub fn decode(bytes: &[u8]) -> (r: Result<Vec<Record>, StoreError>)
    ensures
        match r {
            Ok(rs) => decode_records(bytes@) == Some(records_view(rs@)),
            Err(e) => decode_records(bytes@) is None && e == StoreError::MalformedRecordData,
        },
{
    let n = bytes.len();
    let mut out: Vec<Record> = Vec::new();
    let mut pos: usize = 0;
    assert(bytes@.subrange(0, n as int) =~= bytes@);
    assert(records_view(out@) =~= seq![]);
    while pos < n
        invariant
            n == bytes@.len(),
            pos <= n,
            decode_records(bytes@) == prepend(
                records_view(out@),
                decode_records(bytes@.subrange(pos as int, n as int)),
            ),
        decreases n - pos,
    {
        let ghost sub = bytes@.subrange(pos as int, n as int);
        match decode_one(bytes, pos) {
            Some((rec, end)) => {
                let ghost before = out@;
                out.push(rec);
                proof {
                    assert(sub.subrange(end - pos, sub.len() as int) =~= bytes@.subrange(
                        end as int,
                        n as int,
                    ));
                    assert(records_view(out@) =~= records_view(before) + seq![rec@]);
                    match decode_records(bytes@.subrange(end as int, n as int)) {
                        Some(t) => {
                            assert(records_view(before) + (seq![rec@] + t) =~= records_view(out@)
                                + t);
                        },
                        None => {},
                    }
                }
                pos = end;
            },
            None => {
                return Err(StoreError::MalformedRecordData);
            },
        }
    }
    proof {
        reveal(decode_first);
        assert(bytes@.subrange(pos as int, n as int) =~= seq![]);
        assert(decode_first(seq![]) is None);
        assert(records_view(out@) + seq![] =~= records_view(out@));
    }
    Ok(out)
}

} // verus!
