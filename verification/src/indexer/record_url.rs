//! A record's target URL, parsed and reduced to the parts the index
//! reads: the normalized URL text, its host, and everything from the
//! path on.

use vstd::prelude::*;

use crate::bytes_util::ascii_lower;
use crate::errors::IndexingError;
use crate::indexer::surt::{rev_join, split_dots};

verus! {

/// What parsing `s` as a URL yields: the normalized URL text, the host
/// when the URL exposes one, and the text from the path on.  `None`
/// when `s` does not parse as an absolute URL.
pub uninterp spec fn url_parts_of(s: Seq<u8>) -> Option<(Seq<u8>, Option<Seq<u8>>, Seq<u8>)>;

/// Parse `s` as a URL and reduce it to its parts.
///
/// Relies on the url crate's `Url::parse`, with `as_str`, `host_str`
/// and the `Position::BeforePath` slice reading the parts of the one
/// parsed value: the outcome is a function of the input bytes alone.
#[verifier::external_body]
fn parse_url_parts(s: &[u8]) -> (r: Option<(Vec<u8>, Option<Vec<u8>>, Vec<u8>)>)
    ensures
        match r {
            Some(p) => url_parts_of(s@) == Some(
                (
                    p.0@,
                    match p.1 {
                        Some(h) => Some(h@),
                        None => None,
                    },
                    p.2@,
                ),
            ),
            None => url_parts_of(s@) is None,
        },
{
    let t = match core::str::from_utf8(s) {
        Ok(t) => t,
        Err(_) => return None,
    };
    let u = match url::Url::parse(t) {
        Ok(u) => u,
        Err(_) => return None,
    };
    let host = u.host_str().map(|h| h.as_bytes().to_vec());
    let from_path = u[url::Position::BeforePath..].as_bytes().to_vec();
    Some((u.as_str().as_bytes().to_vec(), host, from_path))
}

/// The mathematical content of a [`RecordUrl`].
#[verifier::ext_equal]
pub ghost struct RecordUrlData {
    pub url: Seq<u8>,
    pub host: Option<Seq<u8>>,
    pub from_path: Seq<u8>,
}

/// A record's target URL: the normalized text, the host when there is
/// one, and the path-and-after portion.
#[derive(Debug, Clone)]
pub struct RecordUrl {
    pub url: Vec<u8>,
    pub host: Option<Vec<u8>>,
    pub from_path: Vec<u8>,
}

impl View for RecordUrl {
    type V = RecordUrlData;

    open spec fn view(&self) -> RecordUrlData {
        RecordUrlData {
            url: self.url@,
            host: match self.host {
                Some(h) => Some(h@),
                None => None,
            },
            from_path: self.from_path@,
        }
    }
}

/// The searchable key of parsed URL parts: the host labels reversed and
/// comma-joined, a `)`, and the path and after, or `None` without a
/// host.
pub open spec fn searchable_of(d: RecordUrlData) -> Option<Seq<u8>> {
    match d.host {
        None => None,
        Some(h) => Some(rev_join(split_dots(h)) + seq![41u8] + d.from_path),
    }
}

impl RecordUrl {
    /// Parse a record's `WARC-Target-URI` value.  Returns `BadUrl`
    /// exactly when the value does not parse as an absolute URL.
    pub fn new(target_uri: &[u8]) -> (r: Result<Self, IndexingError>)
        ensures
            match r {
                Ok(ru) => url_parts_of(target_uri@) == Some(
                    (ru@.url, ru@.host, ru@.from_path),
                ),
                Err(e) => url_parts_of(target_uri@) is None && e == IndexingError::BadUrl,
            },
    {
        match parse_url_parts(target_uri) {
            Some((url, host, from_path)) => Ok(RecordUrl { url, host, from_path }),
            None => Err(IndexingError::BadUrl),
        }
    }

    /// Compose the Sort-friendly URI Reordering Transform of this URL:
    /// the host labels reversed and comma-joined, a `)` separator, and
    /// the rest of the URL.  Returns `BadUrl` exactly when the URL
    /// exposes no host.
    pub fn as_searchable_string(&self) -> (r: Result<Vec<u8>, IndexingError>)
        ensures
            match r {
                Ok(v) => searchable_of(self@) == Some(v@),
                Err(e) => searchable_of(self@) is None && e == IndexingError::BadUrl,
            },
    {
        let host = match &self.host {
            Some(h) => h,
            None => {
                return Err(IndexingError::BadUrl);
            },
        };
        let ghost dhost = host@;
        let mut segs: Vec<Vec<u8>> = Vec::new();
        let mut cur: Vec<u8> = crate::bytes_util::subvec(host.as_slice(), 0, host.len());
        proof {
            assert(cur@ =~= dhost);
        }
        loop
            invariant_except_break
                split_dots(dhost) == segs@.map_values(|v: Vec<u8>| v@) + split_dots(cur@),
            ensures
                split_dots(dhost) == segs@.map_values(|v: Vec<u8>| v@),
            decreases cur@.len(),
        {
            let d = crate::bytes_util::find_byte_from(cur.as_slice(), 0, 46);
            proof {
                crate::bytes_util::lemma_find_from(cur@, 0, 46);
            }
            if d == cur.len() {
                proof {
                    assert(split_dots(cur@) =~= seq![cur@]);
                }
                segs.push(cur);
                proof {
                    assert(segs@.map_values(|v: Vec<u8>| v@) =~= segs@.drop_last().map_values(
                        |v: Vec<u8>| v@,
                    ).push(segs@.last()@));
                    assert(segs@.map_values(|v: Vec<u8>| v@) =~= split_dots(dhost));
                }
                break;
            }
            let seg = crate::bytes_util::subvec(cur.as_slice(), 0, d);
            let next = crate::bytes_util::subvec(cur.as_slice(), d + 1, cur.len());
            segs.push(seg);
            proof {
                assert(segs@.map_values(|v: Vec<u8>| v@) =~= segs@.drop_last().map_values(
                    |v: Vec<u8>| v@,
                ).push(segs@.last()@));
                assert(segs@.map_values(|v: Vec<u8>| v@) + split_dots(next@) =~= segs@.drop_last(
                ).map_values(|v: Vec<u8>| v@) + (seq![segs@.last()@] + split_dots(next@)));
            }
            cur = next;
        }
        let ghost dsegs = segs@.map_values(|v: Vec<u8>| v@);
        let mut key: Vec<u8> = Vec::new();
        let mut i: usize = segs.len();
        proof {
            assert(dsegs.subrange(i as int, dsegs.len() as int) =~= Seq::<Seq<u8>>::empty());
        }
        while i > 0
            invariant
                i <= segs@.len(),
                dsegs == segs@.map_values(|v: Vec<u8>| v@),
                key@ == rev_join(dsegs.subrange(i as int, dsegs.len() as int)),
            decreases i,
        {
            if i < segs.len() {
                key.push(44);
            }
            let seg = &segs[i - 1];
            crate::bytes_util::append_bytes(&mut key, seg.as_slice());
            proof {
                let tail = dsegs.subrange(i - 1, dsegs.len() as int);
                assert(tail.drop_first() =~= dsegs.subrange(i as int, dsegs.len() as int));
                assert(tail[0] == dsegs[i - 1]);
                if i < segs@.len() {
                    assert(key@ =~= rev_join(tail.drop_first()) + seq![44u8] + tail[0]);
                } else {
                    assert(rev_join(dsegs.subrange(i as int, dsegs.len() as int)) =~= Seq::<
                        u8,
                    >::empty());
                    assert(key@ =~= tail[0]);
                }
            }
            i = i - 1;
        }
        proof {
            assert(dsegs.subrange(0, dsegs.len() as int) =~= dsegs);
        }
        key.push(41);
        crate::bytes_util::append_bytes(&mut key, self.from_path.as_slice());
        proof {
            assert(key@ =~= rev_join(dsegs) + seq![41u8] + self@.from_path);
        }
        Ok(key)
    }

    /// The URL's text, lowercased in its ASCII letters.
    pub fn to_lowercase_string(&self) -> (r: Vec<u8>)
        ensures
            r@ == ascii_lower(self@.url),
    {
        crate::bytes_util::lower_bytes(self.url.as_slice())
    }
}

} // verus!
