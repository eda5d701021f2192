//! RFC 3339 timestamps and their 14-digit CDXJ rendering.
//!
//! A WARC record's `WARC-Date` is an RFC 3339 instant with an offset.
//! The CDXJ index renders it in UTC as the 14 digits `YYYYMMDDhhmmss`.
//! Parsing and UTC conversion come from chrono behind a trusted wrapper;
//! the rendering from the parts is verified here.

use vstd::prelude::*;

use crate::bytes_util::no_lf;

verus! {

/// What parsing `s` as an RFC 3339 timestamp yields, as UTC parts:
/// year, month, day, hour, minute and second, or `None` when `s` does
/// not parse.
pub uninterp spec fn rfc3339_utc_of(s: Seq<u8>) -> Option<(int, int, int, int, int, int)>;

/// Parse `s` as an RFC 3339 timestamp and reduce it to its UTC parts.
///
/// Relies on chrono's `DateTime::parse_from_rfc3339` and `naive_utc`,
/// with the `Datelike` and `Timelike` accessors reading the parts of
/// the one parsed value: the outcome is a function of the input bytes
/// alone.
#[verifier::external_body]
fn parse_rfc3339_utc(s: &[u8]) -> (r: Option<(i32, u32, u32, u32, u32, u32)>)
    ensures
        match r {
            Some(p) => rfc3339_utc_of(s@) == Some(
                (p.0 as int, p.1 as int, p.2 as int, p.3 as int, p.4 as int, p.5 as int),
            ),
            None => rfc3339_utc_of(s@) is None,
        },
{
    let t = match core::str::from_utf8(s) {
        Ok(t) => t,
        Err(_) => return None,
    };
    let u = match chrono::DateTime::parse_from_rfc3339(t) {
        Ok(dt) => dt.naive_utc(),
        Err(_) => return None,
    };
    Some((chrono::Datelike::year(&u), chrono::Datelike::month(&u), chrono::Datelike::day(&u),
        chrono::Timelike::hour(&u), chrono::Timelike::minute(&u), chrono::Timelike::second(&u)))
}

/// UTC parts that render as dates do: a four-digit year and in-range
/// calendar and clock fields.
pub open spec fn ts_parts_valid(p: (int, int, int, int, int, int)) -> bool {
    &&& 0 <= p.0 <= 9999
    &&& 1 <= p.1 <= 12
    &&& 1 <= p.2 <= 31
    &&& 0 <= p.3 <= 23
    &&& 0 <= p.4 <= 59
    &&& 0 <= p.5 <= 60
}

/// `n` as exactly two decimal digits.
pub open spec fn two_digits(n: int) -> Seq<u8> {
    seq![(48 + n / 10) as u8, (48 + n % 10) as u8]
}

/// `n` as exactly four decimal digits.
pub open spec fn four_digits(n: int) -> Seq<u8> {
    seq![
        (48 + n / 1000) as u8,
        (48 + (n / 100) % 10) as u8,
        (48 + (n / 10) % 10) as u8,
        (48 + n % 10) as u8,
    ]
}

/// The 14-digit `YYYYMMDDhhmmss` rendering of UTC parts.
pub open spec fn ts_utc14(p: (int, int, int, int, int, int)) -> Seq<u8> {
    four_digits(p.0) + two_digits(p.1) + two_digits(p.2) + two_digits(p.3) + two_digits(p.4)
        + two_digits(p.5)
}

/// The CDXJ timestamp of the RFC 3339 instant `s`: its UTC parts
/// rendered as 14 digits, or `None` when `s` does not parse or its
/// parts do not render as a date.
pub open spec fn utc14_spec(s: Seq<u8>) -> Option<Seq<u8>> {
    match rfc3339_utc_of(s) {
        None => None,
        Some(p) => if ts_parts_valid(p) {
            Some(ts_utc14(p))
        } else {
            None
        },
    }
}

/// A rendered timestamp is 14 decimal digits, and free of line feeds.
pub proof fn lemma_ts_utc14_digits(p: (int, int, int, int, int, int))
    requires
        ts_parts_valid(p),
    ensures
        ts_utc14(p).len() == 14,
        no_lf(ts_utc14(p)),
{
    assert forall|i: int| 0 <= i < ts_utc14(p).len() implies ts_utc14(p)[i] != 10 by {
        assert(48 <= ts_utc14(p)[i] <= 57);
    }
}

/// Append two decimal digits for `n`.
fn push_two_digits(out: &mut Vec<u8>, n: u32)
    requires
        n <= 99,
    ensures
        final(out)@ == old(out)@ + two_digits(n as int),
{
    out.push(48 + (n / 10) as u8);
    out.push(48 + (n % 10) as u8);
    proof {
        assert(out@ =~= old(out)@ + two_digits(n as int));
    }
}

/// Render the RFC 3339 instant `ts` as the 14-digit UTC timestamp of a
/// CDXJ line.
pub fn timestamp14(ts: &[u8]) -> (r: Option<Vec<u8>>)
    ensures
        match r {
            Some(v) => utc14_spec(ts@) == Some(v@),
            None => utc14_spec(ts@) is None,
        },
{
    let p = match parse_rfc3339_utc(ts) {
        Some(p) => p,
        None => {
            return None;
        },
    };
    let (y, mo, d, h, mi, sec) = p;
    if y < 0 || y > 9999 || mo < 1 || mo > 12 || d < 1 || d > 31 || h > 23 || mi > 59 || sec > 60 {
        return None;
    }
    let yy: u32 = y as u32;
    let mut out: Vec<u8> = Vec::new();
    out.push(48 + (yy / 1000) as u8);
    out.push(48 + ((yy / 100) % 10) as u8);
    out.push(48 + ((yy / 10) % 10) as u8);
    out.push(48 + (yy % 10) as u8);
    proof {
        assert(out@ =~= four_digits(yy as int));
    }
    push_two_digits(&mut out, mo);
    push_two_digits(&mut out, d);
    push_two_digits(&mut out, h);
    push_two_digits(&mut out, mi);
    push_two_digits(&mut out, sec);
    proof {
        let parts = (y as int, mo as int, d as int, h as int, mi as int, sec as int);
        assert(out@ =~= ts_utc14(parts));
    }
    Some(out)
}

/// The normalized `YYYY-MM-DDThh:mm:ssZ` rendering of UTC parts.
pub open spec fn ts_utc_rfc3339(p: (int, int, int, int, int, int)) -> Seq<u8> {
    four_digits(p.0) + seq![45u8] + two_digits(p.1) + seq![45u8] + two_digits(p.2) + seq![84u8]
        + two_digits(p.3) + seq![58u8] + two_digits(p.4) + seq![58u8] + two_digits(p.5)
        + seq![90u8]
}

/// The RFC 3339 instant `s` normalized to UTC, or `None` when `s` does
/// not parse or its parts do not render as a date.
pub open spec fn utc_rfc3339_spec(s: Seq<u8>) -> Option<Seq<u8>> {
    match rfc3339_utc_of(s) {
        None => None,
        Some(p) => if ts_parts_valid(p) {
            Some(ts_utc_rfc3339(p))
        } else {
            None
        },
    }
}

/// Normalize the RFC 3339 instant `ts` to its UTC rendering.
pub fn to_utc_rfc3339(ts: &[u8]) -> (r: Option<Vec<u8>>)
    ensures
        match r {
            Some(v) => utc_rfc3339_spec(ts@) == Some(v@),
            None => utc_rfc3339_spec(ts@) is None,
        },
{
    let p = match parse_rfc3339_utc(ts) {
        Some(p) => p,
        None => {
            return None;
        },
    };
    let (y, mo, d, h, mi, sec) = p;
    if y < 0 || y > 9999 || mo < 1 || mo > 12 || d < 1 || d > 31 || h > 23 || mi > 59 || sec > 60 {
        return None;
    }
    let yy: u32 = y as u32;
    let mut out: Vec<u8> = Vec::new();
    out.push(48 + (yy / 1000) as u8);
    out.push(48 + ((yy / 100) % 10) as u8);
    out.push(48 + ((yy / 10) % 10) as u8);
    out.push(48 + (yy % 10) as u8);
    proof {
        assert(out@ =~= four_digits(yy as int));
    }
    out.push(45);
    push_two_digits(&mut out, mo);
    out.push(45);
    push_two_digits(&mut out, d);
    out.push(84);
    push_two_digits(&mut out, h);
    out.push(58);
    push_two_digits(&mut out, mi);
    out.push(58);
    push_two_digits(&mut out, sec);
    out.push(90);
    proof {
        let parts = (y as int, mo as int, d as int, h as int, mi as int, sec as int);
        assert(out@ =~= ts_utc_rfc3339(parts));
    }
    Some(out)
}

} // verus!
