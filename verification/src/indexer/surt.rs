//! Sort-friendly URI Reordering Transform (SURT).
//!
//! The SURT key of a URL is the first field of each CDXJ line: the scheme is
//! stripped, the host labels are reversed and joined with commas, and the
//! path follows after a `)` separator.  The whole key is lowercased.

use vstd::prelude::*;

use crate::bytes_util::{
    ascii_bytes, ascii_lower, find_byte_from, find_from, has_prefix, lit_bytes, lower_bytes,
    starts_with_bytes, subvec,
};

verus! {

/// The host labels of `s`, split at every dot.
pub open spec fn split_dots(s: Seq<u8>) -> Seq<Seq<u8>>
    decreases s.len(),
    via split_dots_decreases
{
    let d = find_from(s, 0, 46);
    if d == s.len() {
        seq![s]
    } else {
        seq![s.subrange(0, d)] + split_dots(s.subrange(d + 1, s.len() as int))
    }
}

#[via_fn]
proof fn split_dots_decreases(s: Seq<u8>) {
    crate::bytes_util::lemma_find_from(s, 0, 46);
}

/// The parts in reverse order, joined with commas.
pub open spec fn rev_join(parts: Seq<Seq<u8>>) -> Seq<u8>
    decreases parts.len(),
{
    if parts.len() == 0 {
        Seq::empty()
    } else if parts.len() == 1 {
        parts[0]
    } else {
        rev_join(parts.drop_first()) + seq![44u8] + parts[0]
    }
}

/// The SURT key of the scheme-stripped remainder `rem`: the host runs
/// up to the first `/`, its labels are reversed and comma-joined, and
/// `)/` and the rest follow.  When `rem` holds no `/` the whole
/// remainder is the host and the rest is empty.
pub open spec fn surt_of_remainder(rem: Seq<u8>) -> Seq<u8> {
    let sl = find_from(rem, 0, 47);
    let host = rem.subrange(0, sl);
    let rest = if sl == rem.len() {
        Seq::<u8>::empty()
    } else {
        rem.subrange(sl + 1, rem.len() as int)
    };
    ascii_lower(rev_join(split_dots(host)) + seq![41u8, 47] + rest)
}

/// The SURT key of `url`: `None` for a URL that does not begin with the
/// literal `http://` or `https://` (`urn:` URLs in particular).
pub open spec fn surt_spec(url: Seq<u8>) -> Option<Seq<u8>> {
    if has_prefix(url, lit_bytes("https://"@)) {
        Some(surt_of_remainder(url.subrange(8, url.len() as int)))
    } else if has_prefix(url, lit_bytes("http://"@)) {
        Some(surt_of_remainder(url.subrange(7, url.len() as int)))
    } else {
        None
    }
}

/// Build the SURT key of `url`, as [`surt_spec`] describes it.
pub fn create_surt(url: &[u8]) -> (r: Option<Vec<u8>>)
    ensures
        match r {
            Some(v) => surt_spec(url@) == Some(v@),
            None => surt_spec(url@) is None,
        },
{
    proof {
        reveal_strlit("https://");
        reveal_strlit("http://");
    }
    let https = ascii_bytes("https://");
    let http = ascii_bytes("http://");
    let off: usize = if starts_with_bytes(url, https.as_slice()) {
        8
    } else if starts_with_bytes(url, http.as_slice()) {
        7
    } else {
        return None;
    };
    let rem = subvec(url, off, url.len());
    let sl = find_byte_from(rem.as_slice(), 0, 47);
    proof {
        crate::bytes_util::lemma_find_from(rem@, 0, 47);
    }
    let host = subvec(rem.as_slice(), 0, sl);
    let rest = if sl == rem.len() {
        Vec::new()
    } else {
        subvec(rem.as_slice(), sl + 1, rem.len())
    };

    let ghost dhost = host@;
    let mut segs: Vec<Vec<u8>> = Vec::new();
    let mut cur: Vec<u8> = host;
    loop
        invariant_except_break
            split_dots(dhost) == segs@.map_values(|v: Vec<u8>| v@) + split_dots(cur@),
        ensures
            split_dots(dhost) == segs@.map_values(|v: Vec<u8>| v@),
        decreases cur@.len(),
    {
        let d = find_byte_from(cur.as_slice(), 0, 46);
        proof {
            crate::bytes_util::lemma_find_from(cur@, 0, 46);
        }
        if d == cur.len() {
            proof {
                assert(split_dots(cur@) =~= seq![cur@]);
            }
            segs.push(cur);
            proof {
                assert(segs@.map_values(|v: Vec<u8>| v@) =~= segs@.drop_last().map_values(
                    |v: Vec<u8>| v@,
                ).push(segs@.last()@));
                assert(segs@.map_values(|v: Vec<u8>| v@) =~= split_dots(dhost));
            }
            break;
        }
        let seg = subvec(cur.as_slice(), 0, d);
        let next = subvec(cur.as_slice(), d + 1, cur.len());
        segs.push(seg);
        proof {
            assert(segs@.map_values(|v: Vec<u8>| v@) =~= segs@.drop_last().map_values(
                |v: Vec<u8>| v@,
            ).push(segs@.last()@));
            assert(segs@.map_values(|v: Vec<u8>| v@) + split_dots(next@) =~= segs@.drop_last(
            ).map_values(|v: Vec<u8>| v@) + (seq![segs@.last()@] + split_dots(next@)));
        }
        cur = next;
    }
    let ghost dsegs = segs@.map_values(|v: Vec<u8>| v@);

    let mut key: Vec<u8> = Vec::new();
    let mut i: usize = segs.len();
    proof {
        assert(dsegs.subrange(i as int, dsegs.len() as int) =~= Seq::<Seq<u8>>::empty());
    }
    while i > 0
        invariant
            i <= segs@.len(),
            dsegs == segs@.map_values(|v: Vec<u8>| v@),
            key@ == rev_join(dsegs.subrange(i as int, dsegs.len() as int)),
        decreases i,
    {
        if i < segs.len() {
            key.push(44);
        }
        let seg = &segs[i - 1];
        crate::bytes_util::append_bytes(&mut key, seg.as_slice());
        proof {
            let tail = dsegs.subrange(i - 1, dsegs.len() as int);
            assert(tail.drop_first() =~= dsegs.subrange(i as int, dsegs.len() as int));
            assert(tail[0] == dsegs[i - 1]);
            if i < segs@.len() {
                assert(key@ =~= rev_join(tail.drop_first()) + seq![44u8] + tail[0]);
            } else {
                assert(rev_join(dsegs.subrange(i as int, dsegs.len() as int)) =~= Seq::<
                    u8,
                >::empty());
                assert(key@ =~= tail[0]);
            }
        }
        i = i - 1;
    }
    proof {
        assert(dsegs.subrange(0, dsegs.len() as int) =~= dsegs);
    }
    key.push(41);
    key.push(47);
    crate::bytes_util::append_bytes(&mut key, rest.as_slice());
    proof {
        assert(key@ =~= rev_join(dsegs) + seq![41u8, 47] + rest@);
    }
    Some(lower_bytes(key.as_slice()))
}

/// SURT round trip: a URL written as scheme, dotted host, `/` and path
/// maps to the key whose first part is the reversed, comma-joined host,
/// followed by `)/` and the path, the whole key lowercased.
pub proof fn lemma_surt_round_trip(scheme_len: int, url: Seq<u8>, host: Seq<u8>, rest: Seq<u8>)
    requires
        scheme_len == 7 ==> url == lit_bytes("http://"@) + host + seq![47u8] + rest,
        scheme_len == 8 ==> url == lit_bytes("https://"@) + host + seq![47u8] + rest,
        scheme_len == 7 || scheme_len == 8,
        forall|k: int| 0 <= k < host.len() ==> host[k] != 47,
    ensures
        surt_spec(url) == Some(ascii_lower(rev_join(split_dots(host)) + seq![41u8, 47] + rest)),
{
    reveal_strlit("http://");
    reveal_strlit("https://");
    let rem = host + seq![47u8] + rest;
    if scheme_len == 7 {
        assert(has_prefix(url, lit_bytes("http://"@))) by {
            assert(url.subrange(0, 7) =~= lit_bytes("http://"@));
        }
    } else {
        assert(has_prefix(url, lit_bytes("https://"@))) by {
            assert(url.subrange(0, 8) =~= lit_bytes("https://"@));
        }
    }
    lemma_scheme_prefix(scheme_len, url);
    if scheme_len == 7 {
        assert(url.subrange(7, url.len() as int) =~= rem);
    } else {
        assert(url.subrange(8, url.len() as int) =~= rem);
    }
    lemma_find_slash_after_host(rem, host.len() as int);
    assert(rem.subrange(0, host.len() as int) =~= host);
    assert(rem.subrange(host.len() as int + 1, rem.len() as int) =~= rest);
}

/// SURT of a host-only URL: with no `/` after the host the rest is
/// empty and the key is the reversed, comma-joined host followed by
/// `)/`, lowercased.
pub proof fn lemma_surt_host_only(scheme_len: int, url: Seq<u8>, host: Seq<u8>)
    requires
        scheme_len == 7 ==> url == lit_bytes("http://"@) + host,
        scheme_len == 8 ==> url == lit_bytes("https://"@) + host,
        scheme_len == 7 || scheme_len == 8,
        forall|k: int| 0 <= k < host.len() ==> host[k] != 47,
    ensures
        surt_spec(url) == Some(ascii_lower(rev_join(split_dots(host)) + seq![41u8, 47])),
{
    reveal_strlit("http://");
    reveal_strlit("https://");
    if scheme_len == 7 {
        assert(has_prefix(url, lit_bytes("http://"@))) by {
            assert(url.subrange(0, 7) =~= lit_bytes("http://"@));
        }
    } else {
        assert(has_prefix(url, lit_bytes("https://"@))) by {
            assert(url.subrange(0, 8) =~= lit_bytes("https://"@));
        }
    }
    lemma_scheme_prefix(scheme_len, url);
    let rem = url.subrange(scheme_len, url.len() as int);
    assert(rem =~= host);
    crate::bytes_util::lemma_find_from(rem, 0, 47);
    let sl = find_from(rem, 0, 47);
    assert(sl == rem.len()) by {
        if sl < rem.len() {
            assert(rem[sl] == 47);
        }
    }
    assert(rem.subrange(0, sl) =~= host);
    assert(rev_join(split_dots(host)) + seq![41u8, 47] + Seq::<u8>::empty() =~= rev_join(
        split_dots(host),
    ) + seq![41u8, 47]);
}

/// The two scheme prefixes exclude one another: a URL assembled behind
/// `http://` never matches `https://`, and the other way round.
proof fn lemma_scheme_prefix(scheme_len: int, url: Seq<u8>)
    requires
        scheme_len == 7 ==> has_prefix(url, lit_bytes("http://"@)) && url.len() >= 7,
        scheme_len == 8 ==> has_prefix(url, lit_bytes("https://"@)),
        scheme_len == 7 || scheme_len == 8,
    ensures
        scheme_len == 7 ==> !has_prefix(url, lit_bytes("https://"@)) && has_prefix(
            url,
            lit_bytes("http://"@),
        ),
        scheme_len == 8 ==> has_prefix(url, lit_bytes("https://"@)),
{
    reveal_strlit("http://");
    reveal_strlit("https://");
    if scheme_len == 7 {
        assert(!has_prefix(url, lit_bytes("https://"@))) by {
            if has_prefix(url, lit_bytes("https://"@)) {
                assert(url.subrange(0, 8)[4] == lit_bytes("https://"@)[4]);
                assert(url[4] == 's' as u8);
                assert(url.subrange(0, 7)[4] == lit_bytes("http://"@)[4]);
                assert(url[4] == ':' as u8);
            }
        }
    }
}

proof fn lemma_find_slash_after_host(rem: Seq<u8>, hl: int)
    requires
        0 <= hl < rem.len(),
        rem[hl] == 47,
        forall|k: int| 0 <= k < hl ==> rem[k] != 47,
    ensures
        find_from(rem, 0, 47) == hl,
{
    crate::bytes_util::lemma_find_from(rem, 0, 47);
    let f = find_from(rem, 0, 47);
    if f < hl {
        assert(rem[f] != 47);
    }
    if f > hl {
        assert(rem[hl] != 47);
    }
}

/// Splitting a host free of line feeds yields segments free of them.
proof fn lemma_split_dots_no_lf(h: Seq<u8>)
    requires
        crate::bytes_util::no_lf(h),
    ensures
        forall|k: int|
            0 <= k < split_dots(h).len() ==> crate::bytes_util::no_lf(#[trigger] split_dots(h)[k]),
    decreases h.len(),
{
    crate::bytes_util::lemma_find_from(h, 0, 46);
    let d = find_from(h, 0, 46);
    if d == h.len() {
    } else {
        let tail = h.subrange(d + 1, h.len() as int);
        assert(crate::bytes_util::no_lf(tail));
        lemma_split_dots_no_lf(tail);
        assert forall|k: int|
            0 <= k < split_dots(h).len() implies crate::bytes_util::no_lf(
            #[trigger] split_dots(h)[k]) by {
            if k > 0 {
                assert(split_dots(h)[k] == split_dots(tail)[k - 1]);
            }
        };
    }
}

/// Joining line-feed-free segments yields a line-feed-free key part.
proof fn lemma_rev_join_no_lf(parts: Seq<Seq<u8>>)
    requires
        forall|k: int| 0 <= k < parts.len() ==> crate::bytes_util::no_lf(#[trigger] parts[k]),
    ensures
        crate::bytes_util::no_lf(rev_join(parts)),
    decreases parts.len(),
{
    if parts.len() > 1 {
        lemma_rev_join_no_lf(parts.drop_first());
    }
}

/// A SURT key built from a URL free of line feeds is itself free of
/// line feeds.
pub proof fn lemma_surt_no_lf(url: Seq<u8>)
    requires
        crate::bytes_util::no_lf(url),
    ensures
        surt_spec(url) matches Some(k) ==> crate::bytes_util::no_lf(k),
{
    reveal_strlit("http://");
    reveal_strlit("https://");
    if surt_spec(url) is Some {
        let off: int = if has_prefix(url, lit_bytes("https://"@)) {
            8
        } else {
            7
        };
        let rem = url.subrange(off, url.len() as int);
        crate::bytes_util::lemma_find_from(rem, 0, 47);
        let sl = find_from(rem, 0, 47);
        let host = rem.subrange(0, sl);
        let rest = if sl == rem.len() {
            Seq::<u8>::empty()
        } else {
            rem.subrange(sl + 1, rem.len() as int)
        };
        assert(crate::bytes_util::no_lf(host));
        assert(crate::bytes_util::no_lf(rest));
        lemma_split_dots_no_lf(host);
        lemma_rev_join_no_lf(split_dots(host));
        let raw = rev_join(split_dots(host)) + seq![41u8, 47] + rest;
        assert(crate::bytes_util::no_lf(raw));
        assert forall|i: int| 0 <= i < ascii_lower(raw).len() implies ascii_lower(raw)[i]
            != 10 by {
            assert(ascii_lower(raw)[i] == crate::bytes_util::lower_byte(raw[i]));
        };
    }
}

} // verus!
