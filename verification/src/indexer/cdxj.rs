//! The CDXJ projection of the index.
//!
//! Each retained record becomes one line `{surt} {timestamp14} {json}`;
//! records whose URL has no SURT key (one not under the `http` or
//! `https` scheme, a `urn:` in particular) are dropped.  The lines are
//! joined with line feeds and the final newline is trimmed.

use vstd::prelude::*;

use crate::bytes_util::{
    append_bytes, append_json_escaped, append_lit, dec_digits, json_escaped,
    lemma_json_escaped_no_lf, lit_bytes, no_lf, push_decimal,
};
use crate::errors::IndexingError;
use crate::indexer::record::{IndexRecord, RecordData};
use crate::indexer::records_view;
use crate::indexer::surt::{create_surt, lemma_surt_no_lf, surt_spec};
use crate::timefmt::{lemma_ts_utc14_digits, timestamp14, utc14_spec};

verus! {

/// The JSON object of one CDXJ line, its keys in index order.
pub open spec fn cdxj_json(r: RecordData) -> Seq<u8> {
    lit_bytes("{\"url\":\""@) + json_escaped(r.url) + lit_bytes("\",\"digest\":\""@)
        + json_escaped(r.digest) + lit_bytes("\",\"mime\":\""@) + json_escaped(r.mime_type)
        + lit_bytes("\",\"offset\":"@) + dec_digits(r.offset as nat) + lit_bytes(",\"length\":"@)
        + dec_digits(r.length as nat) + lit_bytes(",\"status\":"@) + dec_digits(
        r.http_status_code as nat,
    ) + lit_bytes(",\"filename\":\""@) + json_escaped(r.file_name) + lit_bytes("\"}"@)
}

/// One CDXJ line: the SURT key, the 14-digit UTC timestamp, and the
/// JSON object, separated by single spaces.
pub open spec fn cdxj_line(key: Seq<u8>, t14: Seq<u8>, r: RecordData) -> Seq<u8> {
    key + seq![32u8] + t14 + seq![32u8] + cdxj_json(r)
}

/// The CDXJ lines of the records from index `i` on.  A record without
/// a SURT key yields no line; a timestamp that does not parse as
/// RFC 3339 stops the projection.
pub open spec fn cdxj_lines_from(rs: Seq<RecordData>, i: int) -> Result<
    Seq<Seq<u8>>,
    IndexingError,
>
    decreases rs.len() - i,
{
    if i < 0 || i >= rs.len() {
        Ok(Seq::empty())
    } else {
        let r = rs[i];
        match surt_spec(r.url) {
            None => cdxj_lines_from(rs, i + 1),
            Some(key) => match utc14_spec(r.timestamp) {
                None => Err(IndexingError::BadTimestamp),
                Some(t14) => match cdxj_lines_from(rs, i + 1) {
                    Err(e) => Err(e),
                    Ok(rest) => Ok(seq![cdxj_line(key, t14, r)] + rest),
                },
            },
        }
    }
}

/// How many of the records from index `i` on have a SURT key.
pub open spec fn surtable_from(rs: Seq<RecordData>, i: int) -> int
    decreases rs.len() - i,
{
    if i < 0 || i >= rs.len() {
        0
    } else {
        (if surt_spec(rs[i].url) is Some {
            1int
        } else {
            0int
        }) + surtable_from(rs, i + 1)
    }
}

/// Lines joined with line feeds, without a trailing one.
pub open spec fn join_lf(lines: Seq<Seq<u8>>) -> Seq<u8>
    decreases lines.len(),
{
    if lines.len() == 0 {
        Seq::empty()
    } else if lines.len() == 1 {
        lines[0]
    } else {
        join_lf(lines.drop_last()) + seq![10u8] + lines.last()
    }
}

/// Lines each followed by a line feed.
pub open spec fn concat_nl(lines: Seq<Seq<u8>>) -> Seq<u8>
    decreases lines.len(),
{
    if lines.len() == 0 {
        Seq::empty()
    } else {
        concat_nl(lines.drop_last()) + lines.last() + seq![10u8]
    }
}

pub proof fn lemma_concat_nl_join(lines: Seq<Seq<u8>>)
    requires
        lines.len() > 0,
    ensures
        concat_nl(lines) == join_lf(lines) + seq![10u8],
    decreases lines.len(),
{
    if lines.len() == 1 {
        assert(concat_nl(lines.drop_last()) =~= Seq::<u8>::empty());
        assert(concat_nl(lines) =~= join_lf(lines) + seq![10u8]);
    } else {
        lemma_concat_nl_join(lines.drop_last());
        assert((join_lf(lines.drop_last()) + seq![10u8]) + lines.last() + seq![10u8] =~= (join_lf(
            lines.drop_last(),
        ) + seq![10u8] + lines.last()) + seq![10u8]);
    }
}

/// How many line feeds `s` holds.
pub open spec fn count_lf(s: Seq<u8>) -> int
    decreases s.len(),
{
    if s.len() == 0 {
        0
    } else {
        (if s[0] == 10 {
            1int
        } else {
            0int
        }) + count_lf(s.drop_first())
    }
}

/// How many lines `s` holds: none when empty, one more than its line
/// feeds otherwise.
pub open spec fn line_count(s: Seq<u8>) -> int {
    if s.len() == 0 {
        0
    } else {
        count_lf(s) + 1
    }
}

pub proof fn lemma_count_lf_concat(a: Seq<u8>, b: Seq<u8>)
    ensures
        count_lf(a + b) == count_lf(a) + count_lf(b),
    decreases a.len(),
{
    if a.len() == 0 {
        assert(a + b =~= b);
    } else {
        lemma_count_lf_concat(a.drop_first(), b);
        assert((a + b).drop_first() =~= a.drop_first() + b);
        assert((a + b)[0] == a[0]);
    }
}

pub proof fn lemma_count_lf_zero(s: Seq<u8>)
    requires
        no_lf(s),
    ensures
        count_lf(s) == 0,
    decreases s.len(),
{
    if s.len() > 0 {
        lemma_count_lf_zero(s.drop_first());
    }
}

/// A text joined from non-empty lines free of line feeds holds exactly
/// those lines.
pub proof fn lemma_join_lf_line_count(lines: Seq<Seq<u8>>)
    requires
        forall|k: int| 0 <= k < lines.len() ==> no_lf(#[trigger] lines[k]),
        forall|k: int| 0 <= k < lines.len() ==> (#[trigger] lines[k]).len() > 0,
    ensures
        line_count(join_lf(lines)) == lines.len(),
        lines.len() > 0 ==> join_lf(lines).len() > 0,
    decreases lines.len(),
{
    if lines.len() == 1 {
        lemma_count_lf_zero(lines[0]);
    } else if lines.len() > 1 {
        lemma_join_lf_line_count(lines.drop_last());
        lemma_count_lf_concat(join_lf(lines.drop_last()) + seq![10u8], lines.last());
        lemma_count_lf_concat(join_lf(lines.drop_last()), seq![10u8]);
        lemma_count_lf_zero(lines.last());
        assert(count_lf(seq![10u8]) == 1) by {
            let s1 = seq![10u8];
            assert(s1.len() == 1 && s1[0] == 10);
            assert(s1.drop_first() =~= Seq::<u8>::empty());
            assert(count_lf(s1.drop_first()) == 0);
        }
    }
}

proof fn lemma_cdxj_json_no_lf(r: RecordData)
    ensures
        no_lf(cdxj_json(r)),
{
    reveal_strlit("{\"url\":\"");
    reveal_strlit("\",\"digest\":\"");
    reveal_strlit("\",\"mime\":\"");
    reveal_strlit("\",\"offset\":");
    reveal_strlit(",\"length\":");
    reveal_strlit(",\"status\":");
    reveal_strlit(",\"filename\":\"");
    reveal_strlit("\"}");
    lemma_json_escaped_no_lf(r.url);
    lemma_json_escaped_no_lf(r.digest);
    lemma_json_escaped_no_lf(r.mime_type);
    lemma_json_escaped_no_lf(r.file_name);
    crate::bytes_util::lemma_dec_digits_no_lf(r.offset as nat);
    crate::bytes_util::lemma_dec_digits_no_lf(r.length as nat);
    crate::bytes_util::lemma_dec_digits_no_lf(r.http_status_code as nat);
}

/// The CDXJ lines are one per record with a SURT key, and with URLs
/// free of line feeds each line is non-empty and free of them too.
pub proof fn lemma_cdxj_lines_shape(rs: Seq<RecordData>, i: int)
    ensures
        cdxj_lines_from(rs, i) matches Ok(ls) ==> ls.len() == surtable_from(rs, i),
        (forall|k: int| 0 <= k < rs.len() ==> no_lf(#[trigger] rs[k].url)) ==> (cdxj_lines_from(
            rs,
            i,
        ) matches Ok(ls) ==> forall|k: int|
            0 <= k < ls.len() ==> no_lf(#[trigger] ls[k]) && ls[k].len() > 0),
    decreases rs.len() - i,
{
    if 0 <= i && i < rs.len() {
        lemma_cdxj_lines_shape(rs, i + 1);
        let r = rs[i];
        match surt_spec(r.url) {
            None => {},
            Some(key) => match utc14_spec(r.timestamp) {
                None => {},
                Some(t14) => match cdxj_lines_from(rs, i + 1) {
                    Err(_) => {},
                    Ok(rest) => {
                        let ls = seq![cdxj_line(key, t14, r)] + rest;
                        if forall|k: int| 0 <= k < rs.len() ==> no_lf(#[trigger] rs[k].url) {
                            lemma_surt_no_lf(r.url);
                            match crate::timefmt::rfc3339_utc_of(r.timestamp) {
                                None => {},
                                Some(p) => {
                                    lemma_ts_utc14_digits(p);
                                },
                            }
                            lemma_cdxj_json_no_lf(r);
                            assert(no_lf(cdxj_line(key, t14, r)));
                            assert forall|k: int| 0 <= k < ls.len() implies no_lf(
                                #[trigger] ls[k]) && ls[k].len() > 0 by {
                                if k > 0 {
                                    assert(ls[k] == rest[k - 1]);
                                }
                            };
                        }
                    },
                },
            },
        }
    }
}

/// An accumulator of already-built lines in front of the lines still to
/// come.
pub open spec fn prepend_lines(
    acc: Seq<Seq<u8>>,
    r: Result<Seq<Seq<u8>>, IndexingError>,
) -> Result<Seq<Seq<u8>>, IndexingError> {
    match r {
        Ok(rest) => Ok(acc + rest),
        Err(e) => Err(e),
    }
}

/// Build the JSON object of one CDXJ line.
#[verifier::rlimit(60)]
fn build_cdxj_json(rec: &IndexRecord) -> (r: Vec<u8>)
    ensures
        r@ == cdxj_json(rec@),
{
    proof {
        reveal_strlit("{\"url\":\"");
        reveal_strlit("\",\"digest\":\"");
        reveal_strlit("\",\"mime\":\"");
        reveal_strlit("\",\"offset\":");
        reveal_strlit(",\"length\":");
        reveal_strlit(",\"status\":");
        reveal_strlit(",\"filename\":\"");
        reveal_strlit("\"}");
    }
    let mut obj: Vec<u8> = Vec::new();
    append_lit(&mut obj, "{\"url\":\"");
    append_json_escaped(&mut obj, rec.url.as_slice());
    append_lit(&mut obj, "\",\"digest\":\"");
    append_json_escaped(&mut obj, rec.digest.as_slice());
    append_lit(&mut obj, "\",\"mime\":\"");
    append_json_escaped(&mut obj, rec.mime_type.as_slice());
    append_lit(&mut obj, "\",\"offset\":");
    push_decimal(&mut obj, rec.offset);
    append_lit(&mut obj, ",\"length\":");
    push_decimal(&mut obj, rec.length);
    append_lit(&mut obj, ",\"status\":");
    push_decimal(&mut obj, rec.http_status_code);
    append_lit(&mut obj, ",\"filename\":\"");
    append_json_escaped(&mut obj, rec.file_name.as_slice());
    append_lit(&mut obj, "\"}");
    proof {
        assert(obj@ =~= cdxj_json(rec@));
    }
    obj
}

/// Build one CDXJ line from the SURT key, the rendered timestamp and
/// the record.
fn build_cdxj_line(key: &[u8], t14: &[u8], rec: &IndexRecord) -> (r: Vec<u8>)
    ensures
        r@ == cdxj_line(key@, t14@, rec@),
{
    let mut line: Vec<u8> = Vec::new();
    append_bytes(&mut line, key);
    line.push(32);
    append_bytes(&mut line, t14);
    line.push(32);
    let obj = build_cdxj_json(rec);
    append_bytes(&mut line, obj.as_slice());
    proof {
        assert(line@ =~= cdxj_line(key@, t14@, rec@));
    }
    line
}

/// Project the index into the CDXJ text: one line per record with a
/// SURT key, in order, joined with line feeds, no trailing newline.
///
/// Success is owed exactly when every record with a SURT key carries a
/// timestamp that parses as RFC 3339; the first one that does not stops
/// the projection with `BadTimestamp`.  When every record's URL is free
/// of line feeds, the text holds exactly one line per record with a
/// SURT key.
#[verifier::loop_isolation(false)]
pub fn to_cdxj_string(index: &[IndexRecord]) -> (r: Result<Vec<u8>, IndexingError>)
    ensures
        match r {
            Ok(out) => {
                &&& cdxj_lines_from(records_view(index@), 0) matches Ok(ls) && out@ == join_lf(ls)
                &&& (forall|k: int|
                    0 <= k < index@.len() ==> no_lf(#[trigger] records_view(index@)[k].url))
                    ==> line_count(out@) == surtable_from(records_view(index@), 0)
            },
            Err(e) => cdxj_lines_from(records_view(index@), 0) == Err::<
                Seq<Seq<u8>>,
                IndexingError,
            >(e),
        },
{
    let ghost rs = records_view(index@);
    let mut out: Vec<u8> = Vec::new();
    let ghost mut acc: Seq<Seq<u8>> = Seq::empty();
    let mut i: usize = 0;
    while i < index.len()
        invariant
            i <= index@.len(),
            cdxj_lines_from(rs, 0) == prepend_lines(acc, cdxj_lines_from(rs, i as int)),
            out@ == concat_nl(acc),
        decreases index@.len() - i,
    {
        let ghost acc0 = acc;
        let rec = &index[i];
        match create_surt(rec.url.as_slice()) {
            None => {},
            Some(key) => {
                let t14 = match timestamp14(rec.timestamp.as_slice()) {
                    Some(t14) => t14,
                    None => {
                        return Err(IndexingError::BadTimestamp);
                    },
                };
                let line = build_cdxj_line(key.as_slice(), t14.as_slice(), rec);
                proof {
                    assert(line@ == cdxj_line(key@, t14@, rs[i as int]));
                }
                append_bytes(&mut out, line.as_slice());
                out.push(10);
                proof {
                    acc = acc0.push(line@);
                    assert(acc.drop_last() =~= acc0);
                    assert(out@ =~= concat_nl(acc));
                }
            },
        }
        proof {
            let step = cdxj_lines_from(rs, i as int);
            let next = cdxj_lines_from(rs, i + 1);
            match next {
                Err(_) => {},
                Ok(rest) => {
                    match surt_spec(rs[i as int].url) {
                        None => {
                            assert(acc + rest =~= acc0 + rest);
                        },
                        Some(key) => {
                            let t14 = utc14_spec(rs[i as int].timestamp)->Some_0;
                            assert(acc0 + (seq![cdxj_line(key, t14, rs[i as int])] + rest) =~= (
                            acc0 + seq![cdxj_line(key, t14, rs[i as int])]) + rest);
                            assert(acc =~= acc0 + seq![cdxj_line(key, t14, rs[i as int])]);
                        },
                    }
                },
            }
            assert(prepend_lines(acc0, step) == prepend_lines(acc, next));
        }
        i = i + 1;
    }
    proof {
        assert(cdxj_lines_from(rs, i as int) == Ok::<Seq<Seq<u8>>, IndexingError>(Seq::empty()));
        assert(acc + Seq::<Seq<u8>>::empty() =~= acc);
        assert(cdxj_lines_from(rs, 0) == Ok::<Seq<Seq<u8>>, IndexingError>(acc));
    }
    if out.len() > 0 {
        proof {
            assert(acc.len() > 0);
            lemma_concat_nl_join(acc);
        }
        let _ = out.pop();
        proof {
            assert((join_lf(acc) + seq![10u8]).drop_last() =~= join_lf(acc));
        }
    } else {
        proof {
            if acc.len() > 0 {
                lemma_concat_nl_join(acc);
                assert(out@.len() > 0);
            }
            assert(out@ =~= join_lf(acc));
        }
    }
    proof {
        lemma_cdxj_lines_shape(rs, 0);
        if forall|k: int| 0 <= k < rs.len() ==> no_lf(#[trigger] rs[k].url) {
            lemma_join_lf_line_count(acc);
        }
    }
    Ok(out)
}

/// When every record's URL has a SURT key, the CDXJ text holds exactly
/// one line per record: together with [`to_cdxj_string`]'s contract,
/// the index projects to as many lines as it holds retained records.
pub proof fn lemma_all_surtable_counts_records(rs: Seq<RecordData>, i: int)
    requires
        0 <= i <= rs.len(),
        forall|k: int| 0 <= k < rs.len() ==> surt_spec(#[trigger] rs[k].url) is Some,
    ensures
        surtable_from(rs, i) == rs.len() - i,
    decreases rs.len() - i,
{
    if i < rs.len() {
        lemma_all_surtable_counts_records(rs, i + 1);
    }
}

} // verus!
