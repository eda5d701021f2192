//! The pages JSONL projection of the index.
//!
//! A fixed header line comes first; then one line per page record, in
//! order, carrying the record's position in the retained sequence, its
//! URL and its original timestamp.  The final newline is trimmed.

use vstd::prelude::*;

use crate::bytes_util::{
    append_bytes, append_json_escaped, append_lit, dec_digits, json_escaped,
    lemma_json_escaped_no_lf, lit_bytes, no_lf, push_decimal,
};
use crate::indexer::cdxj::{
    concat_nl, join_lf, lemma_concat_nl_join, lemma_join_lf_line_count, line_count,
};
use crate::indexer::record::{IndexRecord, RecordData};
use crate::indexer::records_view;

verus! {

/// The fixed first line of every pages file.
pub open spec fn pages_header() -> Seq<u8> {
    lit_bytes("{\"format\":\"json-pages-1.0\",\"id\":\"pages\",\"title\":\"All Pages\"}"@)
}

/// The pages line of the record at position `i` of the retained
/// sequence.
pub open spec fn pages_line(i: int, r: RecordData) -> Seq<u8> {
    lit_bytes("{\"id\":\""@) + dec_digits(i as nat) + lit_bytes("\",\"url\":\""@) + json_escaped(
        r.url,
    ) + lit_bytes("\",\"ts\":\""@) + json_escaped(r.timestamp) + lit_bytes("\"}"@)
}

/// The pages lines of the records from index `i` on: one line per
/// record whose `is_page` holds, numbered by its position in the whole
/// sequence.
pub open spec fn pages_lines_from(rs: Seq<RecordData>, i: int) -> Seq<Seq<u8>>
    decreases rs.len() - i,
{
    if i < 0 || i >= rs.len() {
        Seq::empty()
    } else {
        (if rs[i].is_page {
            seq![pages_line(i, rs[i])]
        } else {
            Seq::empty()
        }) + pages_lines_from(rs, i + 1)
    }
}

/// How many of the records from index `i` on are pages.
pub open spec fn page_count_from(rs: Seq<RecordData>, i: int) -> int
    decreases rs.len() - i,
{
    if i < 0 || i >= rs.len() {
        0
    } else {
        (if rs[i].is_page {
            1int
        } else {
            0int
        }) + page_count_from(rs, i + 1)
    }
}

/// All the lines of the pages file: the header, then the page lines.
pub open spec fn pages_lines(rs: Seq<RecordData>) -> Seq<Seq<u8>> {
    seq![pages_header()] + pages_lines_from(rs, 0)
}

proof fn lemma_pages_line_shape(i: int, r: RecordData)
    ensures
        no_lf(pages_line(i, r)),
        pages_line(i, r).len() > 0,
{
    reveal_strlit("{\"id\":\"");
    reveal_strlit("\",\"url\":\"");
    reveal_strlit("\",\"ts\":\"");
    reveal_strlit("\"}");
    lemma_json_escaped_no_lf(r.url);
    lemma_json_escaped_no_lf(r.timestamp);
    crate::bytes_util::lemma_dec_digits_no_lf(i as nat);
}

proof fn lemma_pages_lines_shape(rs: Seq<RecordData>, i: int)
    ensures
        pages_lines_from(rs, i).len() == page_count_from(rs, i),
        forall|k: int|
            0 <= k < pages_lines_from(rs, i).len() ==> no_lf(#[trigger] pages_lines_from(rs, i)[k])
                && pages_lines_from(rs, i)[k].len() > 0,
    decreases rs.len() - i,
{
    if 0 <= i && i < rs.len() {
        lemma_pages_lines_shape(rs, i + 1);
        let ls = pages_lines_from(rs, i);
        let rest = pages_lines_from(rs, i + 1);
        if rs[i].is_page {
            lemma_pages_line_shape(i, rs[i]);
            assert forall|k: int| 0 <= k < ls.len() implies no_lf(#[trigger] ls[k]) && ls[k].len()
                > 0 by {
                if k > 0 {
                    assert(ls[k] == rest[k - 1]);
                } else {
                    assert(ls[0] == pages_line(i, rs[i]));
                }
            };
        } else {
            assert(ls =~= rest);
        }
    }
}

/// Build one pages line.
fn build_pages_line(i: usize, rec: &IndexRecord) -> (r: Vec<u8>)
    ensures
        r@ == pages_line(i as int, rec@),
{
    proof {
        reveal_strlit("{\"id\":\"");
        reveal_strlit("\",\"url\":\"");
        reveal_strlit("\",\"ts\":\"");
        reveal_strlit("\"}");
    }
    let mut line: Vec<u8> = Vec::new();
    append_lit(&mut line, "{\"id\":\"");
    push_decimal(&mut line, i);
    append_lit(&mut line, "\",\"url\":\"");
    append_json_escaped(&mut line, rec.url.as_slice());
    append_lit(&mut line, "\",\"ts\":\"");
    append_json_escaped(&mut line, rec.timestamp.as_slice());
    append_lit(&mut line, "\"}");
    proof {
        assert(line@ =~= pages_line(i as int, rec@));
    }
    line
}

/// Project the index into the pages JSONL text: the header line, then
/// one line per page record in order, joined with line feeds, no
/// trailing newline.  The text holds exactly one line more than the
/// index holds pages.
#[verifier::loop_isolation(false)]
pub fn to_pages_json_string(index: &[IndexRecord]) -> (out: Vec<u8>)
    ensures
        out@ == join_lf(pages_lines(records_view(index@))),
        line_count(out@) == 1 + page_count_from(records_view(index@), 0),
{
    proof {
        reveal_strlit("{\"format\":\"json-pages-1.0\",\"id\":\"pages\",\"title\":\"All Pages\"}");
    }
    let ghost rs = records_view(index@);
    let mut out: Vec<u8> = Vec::new();
    append_lit(
        &mut out,
        "{\"format\":\"json-pages-1.0\",\"id\":\"pages\",\"title\":\"All Pages\"}",
    );
    out.push(10);
    let ghost mut acc: Seq<Seq<u8>> = seq![pages_header()];
    proof {
        assert(acc.drop_last() =~= Seq::<Seq<u8>>::empty());
        assert(concat_nl(acc.drop_last()) == Seq::<u8>::empty());
        assert(acc.last() == pages_header());
        assert(concat_nl(acc) =~= pages_header() + seq![10u8]);
        assert(out@ =~= pages_header() + seq![10u8]);
    }
    let mut i: usize = 0;
    while i < index.len()
        invariant
            i <= index@.len(),
            acc.len() >= 1,
            acc[0] == pages_header(),
            pages_lines_from(rs, 0) == acc.drop_first() + pages_lines_from(rs, i as int),
            out@ == concat_nl(acc),
        decreases index@.len() - i,
    {
        let ghost acc0 = acc;
        let rec = &index[i];
        if rec.is_page {
            let line = build_pages_line(i, rec);
            append_bytes(&mut out, line.as_slice());
            out.push(10);
            proof {
                acc = acc0.push(line@);
                assert(acc.drop_last() =~= acc0);
                assert(out@ =~= concat_nl(acc));
            }
        }
        proof {
            let rest = pages_lines_from(rs, i + 1);
            if rs[i as int].is_page {
                assert(acc0.drop_first() + (seq![pages_line(i as int, rs[i as int])] + rest) =~= (
                acc0.drop_first() + seq![pages_line(i as int, rs[i as int])]) + rest);
                assert(acc.drop_first() =~= acc0.drop_first() + seq![
                    pages_line(i as int, rs[i as int]),
                ]);
            }
            assert(acc0.drop_first() + pages_lines_from(rs, i as int) == acc.drop_first() + rest);
        }
        i = i + 1;
    }
    proof {
        assert(pages_lines_from(rs, i as int) =~= Seq::<Seq<u8>>::empty());
        assert(acc.drop_first() + Seq::<Seq<u8>>::empty() =~= acc.drop_first());
        assert(acc =~= pages_lines(rs));
    }
    let _ = out.pop();
    proof {
        lemma_concat_nl_join(acc);
        assert((join_lf(acc) + seq![10u8]).drop_last() =~= join_lf(acc));
        lemma_pages_lines_shape(rs, 0);
        assert forall|k: int| 0 <= k < acc.len() implies no_lf(#[trigger] acc[k]) && acc[k].len()
            > 0 by {
            if k == 0 {
                assert(acc[0] == pages_header());
                assert(no_lf(pages_header())) by {
                    reveal_strlit(
                        "{\"format\":\"json-pages-1.0\",\"id\":\"pages\",\"title\":\"All Pages\"}",
                    );
                }
            } else {
                assert(acc[k] == pages_lines_from(rs, 0)[k - 1]);
            }
        };
        lemma_join_lf_line_count(acc);
    }
    out
}

} // verus!
