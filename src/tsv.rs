//! The plain-text interchange format: a header line
//! `site<TAB>username<TAB>password<TAB>note`, then one record per line with
//! its fields joined by tabs, with no escaping.
use crate::codec::string_from_utf8;
use crate::error::StoreError;
use crate::record::{Record, RecordView, records_view};
use vstd::prelude::*;
use vstd::string::StringExecFns;
use vstd::utf8::*;

verus! {

/// The pieces of `b` before the first `n` bytes that are already closed by
/// `sep`, and the piece still open after them.
pub open spec fn split_prefix(b: Seq<u8>, sep: u8, n: int) -> (Seq<Seq<u8>>, Seq<u8>)
    decreases n,
{
    if n <= 0 {
        (seq![], seq![])
    } else {
        let (done, open) = split_prefix(b, sep, n - 1);
        if b[n - 1] == sep {
            (done.push(open), seq![])
        } else {
            (done, open.push(b[n - 1]))
        }
    }
}

/// `b` cut at every `sep` byte: one more piece than there are separators.
pub open spec fn split_on(b: Seq<u8>, sep: u8) -> Seq<Seq<u8>> {
    let (done, open) = split_prefix(b, sep, b.len() as int);
    done.push(open)
}

/// A line without a final carriage return.
pub open spec fn strip_cr(l: Seq<u8>) -> Seq<u8> {
    if l.len() > 0 && l.last() == 13 {
        l.drop_last()
    } else {
        l
    }
}

/// The lines of a text: cut at line feeds, a final line feed ending the last
/// line rather than starting an empty one, each line without a final
/// carriage return.
pub open spec fn text_lines(b: Seq<u8>) -> Seq<Seq<u8>> {
    let parts = split_on(b, 10);
    let lines = if parts.last().len() == 0 {
        parts.drop_last()
    } else {
        parts
    };
    lines.map_values(|l: Seq<u8>| strip_cr(l))
}

/// The record of one data line: its first four tab-separated fields, when
/// there are at least four.
pub open spec fn line_record(line: Seq<u8>) -> Option<RecordView> {
    let f = split_on(line, 9);
    if f.len() >= 4 && valid_utf8(f[0]) && valid_utf8(f[1]) && valid_utf8(f[2]) && valid_utf8(
        f[3],
    ) {
        Some(
            RecordView {
                site: decode_utf8(f[0]),
                username: decode_utf8(f[1]),
                password: decode_utf8(f[2]),
                note: decode_utf8(f[3]),
            },
        )
    } else {
        None
    }
}

/// Every line after the header makes a record.
pub open spec fn all_lines_parse(lines: Seq<Seq<u8>>) -> bool {
    forall|i: int| 1 <= i < lines.len() ==> #[trigger] line_record(lines[i]) is Some
}

/// The records of a text, one per line after the header.
pub open spec fn tsv_records(lines: Seq<Seq<u8>>) -> Seq<RecordView> {
    Seq::new(
        if lines.len() > 0 {
            (lines.len() - 1) as nat
        } else {
            0
        },
        |i: int| line_record(lines[i + 1])->0,
    )
}

/// The header line.
pub open spec fn tsv_header() -> Seq<char> {
    "site\tusername\tpassword\tnote\n"@
}

/// One record as a line.
pub open spec fn tsv_row(r: RecordView) -> Seq<char> {
    r.site + seq!['\t'] + r.username + seq!['\t'] + r.password + seq!['\t'] + r.note + seq!['\n']
}

/// The rows of the first `n` records.
pub open spec fn tsv_rows(rs: Seq<RecordView>, n: int) -> Seq<char>
    decreases n,
{
    if n <= 0 {
        seq![]
    } else {
        tsv_rows(rs, n - 1) + tsv_row(rs[n - 1])
    }
}

/// Cuts `b` at every `sep` byte.
pub fn split_bytes(b: &[u8], sep: u8) -> (r: Vec<Vec<u8>>)
    ensures
        r@.map_values(|p: Vec<u8>| p@) == split_on(b@, sep),
{
    let mut done: Vec<Vec<u8>> = Vec::new();
    let mut open: Vec<u8> = Vec::new();
    let mut i: usize = 0;
    while i < b.len()
        invariant
            i <= b@.len(),
            split_prefix(b@, sep, i as int) == (done@.map_values(|p: Vec<u8>| p@), open@),
        decreases b@.len() - i,
    {
        let ghost before = done@;
        if b[i] == sep {
            let piece = open;
            open = Vec::new();
            done.push(piece);
            assert(done@.map_values(|p: Vec<u8>| p@) =~= before.map_values(|p: Vec<u8>| p@).push(
                piece@,
            ));
        } else {
            open.push(b[i]);
        }
        i = i + 1;
    }
    let ghost before = done@;
    done.push(open);
    assert(done@.map_values(|p: Vec<u8>| p@) =~= before.map_values(|p: Vec<u8>| p@).push(
        open@,
    ));
    done
}

fn field_string(f: Vec<u8>) -> (r: Result<String, StoreError>)
    ensures
        match r {
            Ok(s) => valid_utf8(f@) && s@ == decode_utf8(f@),
            Err(e) => !valid_utf8(f@) && e == StoreError::MalformedRecordData,
        },
{
    match string_from_utf8(f) {
        Some(s) => Ok(s),
        None => Err(StoreError::MalformedRecordData),
    }
}

/// The record of one data line.
fn parse_line(line: &[u8]) -> (r: Result<Record, StoreError>)
    ensures
        match r {
            Ok(rec) => line_record(line@) == Some(rec@),
            Err(e) => line_record(line@) is None && e == StoreError::MalformedRecordData,
        },
{
    let mut f = split_bytes(line, 9);
    let ghost fv = f@.map_values(|p: Vec<u8>| p@);
    if f.len() < 4 {
        return Err(StoreError::MalformedRecordData);
    }
    f.truncate(4);
    let note = f.pop().unwrap();
    let password = f.pop().unwrap();
    let username = f.pop().unwrap();
    let site = f.pop().unwrap();
    assert(site@ == fv[0] && username@ == fv[1] && password@ == fv[2] && note@ == fv[3]);
    let site = field_string(site)?;
    let username = field_string(username)?;
    let password = field_string(password)?;
    let note = field_string(note)?;
    Ok(Record::new(site, username, password, note))
}

/// Reads the records of an interchange text; fails where a data line has
/// fewer than four fields.
pub fn parse_tsv(text: &str) -> (r: Result<Vec<Record>, StoreError>)
    ensures
        match r {
            Ok(rs) => all_lines_parse(text_lines(encode_utf8(text@)))
                && records_view(rs@) == tsv_records(text_lines(encode_utf8(text@))),
            Err(e) => !all_lines_parse(text_lines(encode_utf8(text@)))
                && e == StoreError::MalformedRecordData,
        },
{
    let bytes = text.as_bytes();
    assert(bytes@ == encode_utf8(text@));
    let mut parts = split_bytes(bytes, 10);
    let ghost pv = parts@.map_values(|p: Vec<u8>| p@);
    assert(pv == split_on(bytes@, 10));
    assert(pv.len() == split_prefix(bytes@, 10, bytes@.len() as int).0.len() + 1);
    let n = parts.len();
    if parts[n - 1].len() == 0 {
        parts.pop();
    }
    let ghost lines = text_lines(bytes@);
    let m = parts.len();
    proof {
        let kept = if pv.last().len() == 0 {
            pv.drop_last()
        } else {
            pv
        };
        assert(lines == kept.map_values(|l: Seq<u8>| strip_cr(l)));
        assert(kept.len() == m);
        assert forall|k: int| 0 <= k < m implies #[trigger] parts@[k]@ == pv[k] by {}
        assert forall|k: int| 0 <= k < m implies #[trigger] lines[k] == strip_cr(pv[k]) by {
            assert(kept[k] == pv[k]);
        }
    }
    let mut out: Vec<Record> = Vec::new();
    let mut i: usize = 1;
    while i < m
        invariant
            1 <= i,
            m == parts@.len(),
            m <= n,
            n == pv.len(),
            forall|k: int| 0 <= k < m ==> #[trigger] parts@[k]@ == pv[k],
            lines.len() == m,
            forall|k: int| 0 <= k < m ==> #[trigger] lines[k] == strip_cr(pv[k]),
            i <= m || i == 1,
            lines == text_lines(encode_utf8(text@)),
            out@.len() == i - 1,
            forall|k: int| 1 <= k < i ==> #[trigger] line_record(lines[k]) is Some,
            forall|k: int|
                0 <= k < out@.len() ==> Some(#[trigger] out@[k]@) == line_record(lines[k + 1]),
        decreases m - i,
    {
        let line = &parts[i];
        let len = line.len();
        let end = if len > 0 && line[len - 1] == 13 { len - 1 } else { len };
        let slice = vstd::slice::slice_subrange(line.as_slice(), 0, end);
        assert(slice@ =~= lines[i as int]);
        match parse_line(slice) {
            Ok(rec) => {
                out.push(rec);
            },
            Err(e) => {
                assert(line_record(lines[i as int]) is None);
                assert(!all_lines_parse(lines));
                return Err(e);
            },
        }
        i = i + 1;
    }
    proof {
        assert(records_view(out@).len() == tsv_records(lines).len());
        assert forall|k: int| 0 <= k < out@.len() implies records_view(out@)[k] == #[trigger] tsv_records(lines)[k] by {
            assert(Some(out@[k]@) == line_record(lines[k + 1]));
        }
        assert(records_view(out@) =~= tsv_records(lines));
    }
    Ok(out)
}

/// The interchange text of a record collection: the header, then one line
/// per record.
pub fn format_tsv(records: &Vec<Record>) -> (r: String)
    ensures
        r@ == tsv_header() + tsv_rows(records_view(records@), records@.len() as int),
{
    let ghost rv = records_view(records@);
    let mut out = String::from_str("site\tusername\tpassword\tnote\n");
    let mut i: usize = 0;
    proof {
        reveal_strlit("\t");
        reveal_strlit("\n");
    }
    while i < records.len()
        invariant
            i <= records@.len(),
            rv == records_view(records@),
            "\t"@ == seq!['\t'],
            "\n"@ == seq!['\n'],
            out@ == tsv_header() + tsv_rows(rv, i as int),
        decreases records@.len() - i,
    {
        let r = &records[i];
        out.append(r.site.as_str());
        out.append("\t");
        out.append(r.username.as_str());
        out.append("\t");
        out.append(r.password.as_str());
        out.append("\t");
        out.append(r.note.as_str());
        out.append("\n");
        assert(out@ =~= tsv_header() + tsv_rows(rv, i + 1));
        i = i + 1;
    }
    out
}

} // verus!
