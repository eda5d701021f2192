//! Small byte-sequence helpers shared by the scanner and the writers.
//!
//! The whole pipeline works on raw bytes, so the header grammar, the SURT
//! keys and the serialized outputs are all stated over `Seq<u8>`.  ASCII
//! string literals are bridged to byte sequences through [`lit_bytes`].

use vstd::prelude::*;

verus! {

/// The bytes of an ASCII character sequence, one byte per character.
pub open spec fn lit_bytes(s: Seq<char>) -> Seq<u8> {
    s.map_values(|c: char| c as u8)
}

/// Bytes of an ASCII string, usually a literal.
pub fn ascii_bytes(s: &str) -> (r: Vec<u8>)
    requires
        s.is_ascii(),
    ensures
        r@ == lit_bytes(s@),
{
    proof {
        vstd::string::is_ascii_spec_bytes(s);
    }
    let b = vstd::slice::slice_to_vec(s.as_bytes());
    proof {
        assert(b@ =~= lit_bytes(s@));
    }
    b
}

/// Append all of `src` to `out`.
pub fn append_bytes(out: &mut Vec<u8>, src: &[u8])
    ensures
        final(out)@ == old(out)@ + src@,
{
    let mut i: usize = 0;
    while i < src.len()
        invariant
            i <= src@.len(),
            out@ == old(out)@ + src@.subrange(0, i as int),
        decreases src@.len() - i,
    {
        out.push(src[i]);
        i = i + 1;
        proof {
            assert(old(out)@ + src@.subrange(0, i - 1) + seq![src@[i - 1]] =~= old(out)@
                + src@.subrange(0, i as int));
        }
    }
    proof {
        assert(src@.subrange(0, src@.len() as int) =~= src@);
    }
}

/// Append the bytes of an ASCII string literal to `out`.
pub fn append_lit(out: &mut Vec<u8>, s: &str)
    requires
        s.is_ascii(),
    ensures
        final(out)@ == old(out)@ + lit_bytes(s@),
{
    let b = ascii_bytes(s);
    append_bytes(out, b.as_slice());
}

/// True when the two byte strings hold the same bytes.
pub fn bytes_eq(a: &[u8], b: &[u8]) -> (r: bool)
    ensures
        r == (a@ == b@),
{
    if a.len() != b.len() {
        proof {
            assert(a@ != b@);
        }
        return false;
    }
    let mut i: usize = 0;
    while i < a.len()
        invariant
            i <= a@.len(),
            a@.len() == b@.len(),
            forall|k: int| 0 <= k < i ==> a@[k] == b@[k],
        decreases a@.len() - i,
    {
        if a[i] != b[i] {
            proof {
                assert(a@ != b@);
            }
            return false;
        }
        i = i + 1;
    }
    proof {
        assert(a@ =~= b@);
    }
    true
}

/// A copy of `s[from..to]`.
pub fn subvec(s: &[u8], from: usize, to: usize) -> (r: Vec<u8>)
    requires
        from <= to <= s@.len(),
    ensures
        r@ == s@.subrange(from as int, to as int),
{
    let mut r: Vec<u8> = Vec::new();
    let mut i: usize = from;
    while i < to
        invariant
            from <= i <= to <= s@.len(),
            r@ == s@.subrange(from as int, i as int),
        decreases to - i,
    {
        r.push(s[i]);
        i = i + 1;
        proof {
            assert(s@.subrange(from as int, i - 1).push(s@[i - 1]) =~= s@.subrange(
                from as int,
                i as int,
            ));
        }
    }
    r
}

/// Index of the first occurrence of `b` in `s` at or after `from`,
/// or `s.len()` when there is none.
pub open spec fn find_from(s: Seq<u8>, from: int, b: u8) -> int
    decreases s.len() - from,
{
    if from < 0 || from >= s.len() {
        s.len() as int
    } else if s[from] == b {
        from
    } else {
        find_from(s, from + 1, b)
    }
}

pub proof fn lemma_find_from(s: Seq<u8>, from: int, b: u8)
    requires
        0 <= from <= s.len(),
    ensures
        from <= find_from(s, from, b) <= s.len(),
        find_from(s, from, b) < s.len() ==> s[find_from(s, from, b)] == b,
        forall|k: int| from <= k < find_from(s, from, b) ==> s[k] != b,
    decreases s.len() - from,
{
    if from < s.len() && s[from] != b {
        lemma_find_from(s, from + 1, b);
    }
}

/// Find the first occurrence of `b` in `s` at or after `from`.
pub fn find_byte_from(s: &[u8], from: usize, b: u8) -> (r: usize)
    requires
        from <= s@.len(),
    ensures
        r == find_from(s@, from as int, b),
{
    let mut i: usize = from;
    while i < s.len()
        invariant
            from <= i <= s@.len(),
            find_from(s@, from as int, b) == find_from(s@, i as int, b),
        decreases s@.len() - i,
    {
        if s[i] == b {
            return i;
        }
        i = i + 1;
    }
    i
}

/// ASCII lowercasing of a single byte.
pub open spec fn lower_byte(b: u8) -> u8 {
    if 65 <= b && b <= 90 {
        (b + 32) as u8
    } else {
        b
    }
}

/// ASCII lowercasing of a byte string.
pub open spec fn ascii_lower(s: Seq<u8>) -> Seq<u8> {
    s.map_values(|b: u8| lower_byte(b))
}

/// Lowercase the ASCII letters of `s`.
pub fn lower_bytes(s: &[u8]) -> (r: Vec<u8>)
    ensures
        r@ == ascii_lower(s@),
{
    let mut r: Vec<u8> = Vec::new();
    let mut i: usize = 0;
    while i < s.len()
        invariant
            i <= s@.len(),
            r@ == ascii_lower(s@.subrange(0, i as int)),
        decreases s@.len() - i,
    {
        let b = s[i];
        if 65 <= b && b <= 90 {
            r.push(b + 32);
        } else {
            r.push(b);
        }
        i = i + 1;
        proof {
            assert(ascii_lower(s@.subrange(0, i - 1)).push(lower_byte(s@[i - 1])) =~= ascii_lower(
                s@.subrange(0, i as int),
            ));
        }
    }
    proof {
        assert(s@.subrange(0, s@.len() as int) =~= s@);
    }
    r
}

/// ASCII whitespace, as trimmed around header values.
pub open spec fn is_ws(b: u8) -> bool {
    b == 32 || b == 9 || b == 13 || b == 10
}

/// `s` without its leading whitespace.
pub open spec fn trim_start_ws(s: Seq<u8>) -> Seq<u8>
    decreases s.len(),
{
    if s.len() > 0 && is_ws(s[0]) {
        trim_start_ws(s.drop_first())
    } else {
        s
    }
}

/// `s` without its trailing whitespace.
pub open spec fn trim_end_ws(s: Seq<u8>) -> Seq<u8>
    decreases s.len(),
{
    if s.len() > 0 && is_ws(s[s.len() - 1]) {
        trim_end_ws(s.drop_last())
    } else {
        s
    }
}

/// `s` without leading and trailing whitespace.
pub open spec fn trim_ws(s: Seq<u8>) -> Seq<u8> {
    trim_end_ws(trim_start_ws(s))
}

proof fn lemma_trim_start_ws_range(s: Seq<u8>, a: int)
    requires
        0 <= a <= s.len(),
        forall|k: int| 0 <= k < a ==> is_ws(s[k]),
        a < s.len() ==> !is_ws(s[a]),
    ensures
        trim_start_ws(s) == s.subrange(a, s.len() as int),
    decreases s.len(),
{
    if s.len() > 0 && is_ws(s[0]) {
        assert(a >= 1);
        lemma_trim_start_ws_range(s.drop_first(), a - 1);
        assert(s.drop_first().subrange(a - 1, s.drop_first().len() as int) =~= s.subrange(
            a,
            s.len() as int,
        ));
    } else {
        assert(a == 0);
        assert(s.subrange(0, s.len() as int) =~= s);
    }
}

proof fn lemma_trim_end_ws_range(s: Seq<u8>, z: int)
    requires
        0 <= z <= s.len(),
        forall|k: int| z <= k < s.len() ==> is_ws(s[k]),
        z > 0 ==> !is_ws(s[z - 1]),
    ensures
        trim_end_ws(s) == s.subrange(0, z),
    decreases s.len(),
{
    if s.len() > 0 && is_ws(s[s.len() - 1]) {
        assert(z < s.len());
        lemma_trim_end_ws_range(s.drop_last(), z);
        assert(s.drop_last().subrange(0, z) =~= s.subrange(0, z));
    } else {
        assert(z == s.len());
        assert(s.subrange(0, s.len() as int) =~= s);
    }
}

/// Whether `b` is ASCII whitespace.
pub fn is_ws_byte(b: u8) -> (r: bool)
    ensures
        r == is_ws(b),
{
    b == 32 || b == 9 || b == 13 || b == 10
}

/// Trim ASCII whitespace from both ends of `s`.
pub fn trim_ws_bytes(s: &[u8]) -> (r: Vec<u8>)
    ensures
        r@ == trim_ws(s@),
{
    let mut a: usize = 0;
    while a < s.len() && is_ws_byte(s[a])
        invariant
            a <= s@.len(),
            forall|k: int| 0 <= k < a ==> is_ws(s@[k]),
        decreases s@.len() - a,
    {
        a = a + 1;
    }
    let mut z: usize = s.len();
    while z > a && is_ws_byte(s[z - 1])
        invariant
            a <= z <= s@.len(),
            forall|k: int| 0 <= k < a ==> is_ws(s@[k]),
            forall|k: int| z <= k < s@.len() ==> is_ws(s@[k]),
        decreases z,
    {
        z = z - 1;
    }
    proof {
        lemma_trim_start_ws_range(s@, a as int);
        let t = s@.subrange(a as int, s@.len() as int);
        lemma_trim_end_ws_range(t, z - a);
        assert(t.subrange(0, z - a) =~= s@.subrange(a as int, z as int));
    }
    subvec(s, a, z)
}

/// True when `p` is a prefix of `s`.
pub open spec fn has_prefix(s: Seq<u8>, p: Seq<u8>) -> bool {
    s.len() >= p.len() && s.subrange(0, p.len() as int) == p
}

/// Check whether the byte string `p` is a prefix of `s`.
pub fn starts_with_bytes(s: &[u8], p: &[u8]) -> (r: bool)
    ensures
        r == has_prefix(s@, p@),
{
    if s.len() < p.len() {
        return false;
    }
    let mut i: usize = 0;
    while i < p.len()
        invariant
            i <= p@.len() <= s@.len(),
            forall|k: int| 0 <= k < i ==> s@[k] == p@[k],
        decreases p@.len() - i,
    {
        if s[i] != p[i] {
            proof {
                assert(s@.subrange(0, p@.len() as int)[i as int] != p@[i as int]);
            }
            return false;
        }
        i = i + 1;
    }
    proof {
        assert(s@.subrange(0, p@.len() as int) =~= p@);
    }
    true
}

/// The decimal digits of `n`, most significant first.
pub open spec fn dec_digits(n: nat) -> Seq<u8>
    decreases n,
{
    if n < 10 {
        seq![(48 + n) as u8]
    } else {
        dec_digits(n / 10).push((48 + n % 10) as u8)
    }
}

pub proof fn lemma_dec_digits_are_digits(n: nat)
    ensures
        dec_digits(n).len() >= 1,
        forall|k: int| 0 <= k < dec_digits(n).len() ==> 48 <= #[trigger] dec_digits(n)[k] <= 57,
    decreases n,
{
    if n >= 10 {
        lemma_dec_digits_are_digits(n / 10);
    }
}

/// Append the decimal rendering of `n` to `out`.
pub fn push_decimal(out: &mut Vec<u8>, n: usize)
    ensures
        final(out)@ == old(out)@ + dec_digits(n as nat),
    decreases n,
{
    if n < 10 {
        out.push(48 + n as u8);
        proof {
            assert(old(out)@.push((48 + n) as u8) =~= old(out)@ + dec_digits(n as nat));
        }
    } else {
        push_decimal(out, n / 10);
        out.push(48 + (n % 10) as u8);
        proof {
            assert(old(out)@ + dec_digits((n / 10) as nat) + seq![(48 + n % 10) as u8] =~= old(
                out,
            )@ + dec_digits(n as nat));
        }
    }
}

/// True when every byte of `s` is a decimal digit.
pub open spec fn all_digits(s: Seq<u8>) -> bool {
    forall|k: int| 0 <= k < s.len() ==> 48 <= #[trigger] s[k] <= 57
}

/// The value of the decimal digit string `s`.
pub open spec fn dec_val(s: Seq<u8>) -> nat
    decreases s.len(),
{
    if s.len() == 0 {
        0
    } else {
        dec_val(s.drop_last()) * 10 + (s[s.len() - 1] - 48) as nat
    }
}

/// The value of a decimal digit string, when it is one and fits in `usize`.
pub open spec fn parse_decimal(s: Seq<u8>) -> Option<nat> {
    if s.len() > 0 && all_digits(s) && dec_val(s) <= usize::MAX as nat {
        Some(dec_val(s))
    } else {
        None
    }
}

proof fn lemma_dec_val_prefix_le(s: Seq<u8>, i: int)
    requires
        0 <= i <= s.len(),
    ensures
        dec_val(s.subrange(0, i)) <= dec_val(s),
    decreases s.len() - i,
{
    if i < s.len() {
        lemma_dec_val_prefix_le(s, i + 1);
        let a = s.subrange(0, i);
        let b = s.subrange(0, i + 1);
        assert(b.drop_last() =~= a);
        assert(dec_val(b) == dec_val(a) * 10 + (b[b.len() - 1] - 48) as nat);
        assert(dec_val(a) <= dec_val(a) * 10) by (nonlinear_arith);
    } else {
        assert(s.subrange(0, s.len() as int) =~= s);
    }
}

/// Parse `s` as a decimal integer.
pub fn parse_decimal_bytes(s: &[u8]) -> (r: Option<usize>)
    ensures
        match r {
            Some(n) => parse_decimal(s@) == Some(n as nat),
            None => parse_decimal(s@) is None,
        },
{
    if s.len() == 0 {
        return None;
    }
    let mut acc: usize = 0;
    let mut i: usize = 0;
    while i < s.len()
        invariant
            i <= s@.len(),
            s@.len() > 0,
            all_digits(s@.subrange(0, i as int)),
            acc as nat == dec_val(s@.subrange(0, i as int)),
        decreases s@.len() - i,
    {
        let b = s[i];
        if b < 48 || b > 57 {
            proof {
                assert(!all_digits(s@));
            }
            return None;
        }
        let wide: u128 = (acc as u128) * 10 + ((b - 48) as u128);
        if wide > usize::MAX as u128 {
            proof {
                let p = s@.subrange(0, i + 1);
                assert(p.drop_last() =~= s@.subrange(0, i as int));
                assert(dec_val(p) == wide);
                lemma_dec_val_prefix_le(s@, i + 1);
                assert(dec_val(s@) > usize::MAX as nat);
            }
            return None;
        }
        acc = wide as usize;
        i = i + 1;
        proof {
            let p = s@.subrange(0, i as int);
            assert(p.drop_last() =~= s@.subrange(0, i - 1));
        }
    }
    proof {
        assert(s@.subrange(0, s@.len() as int) =~= s@);
    }
    Some(acc)
}

/// No byte of `s` is a line feed.
pub open spec fn no_lf(s: Seq<u8>) -> bool {
    forall|i: int| 0 <= i < s.len() ==> s[i] != 10
}

/// The lowercase hex digit for `d`.
pub open spec fn hex_digit(d: u8) -> u8 {
    if d < 10 {
        (48 + d) as u8
    } else {
        (87 + d) as u8
    }
}

/// The JSON escaping of one byte: quotes and backslashes get a
/// backslash, control bytes become a `\u00XX` escape, and every other
/// byte stands for itself.
pub open spec fn esc_byte(b: u8) -> Seq<u8> {
    if b == 34 {
        seq![92u8, 34]
    } else if b == 92 {
        seq![92u8, 92]
    } else if b < 32 {
        seq![92u8, 117, 48, 48, hex_digit(b / 16), hex_digit(b % 16)]
    } else {
        seq![b]
    }
}

/// The JSON escaping of a byte string.
pub open spec fn json_escaped(s: Seq<u8>) -> Seq<u8>
    decreases s.len(),
{
    if s.len() == 0 {
        Seq::empty()
    } else {
        esc_byte(s[0]) + json_escaped(s.drop_first())
    }
}

/// Escaped text never holds a raw line feed.
pub proof fn lemma_json_escaped_no_lf(s: Seq<u8>)
    ensures
        no_lf(json_escaped(s)),
    decreases s.len(),
{
    if s.len() > 0 {
        lemma_json_escaped_no_lf(s.drop_first());
        assert(no_lf(esc_byte(s[0])));
    }
}

proof fn lemma_json_escaped_snoc(s: Seq<u8>, i: int)
    requires
        0 <= i < s.len(),
    ensures
        json_escaped(s.subrange(0, i + 1)) == json_escaped(s.subrange(0, i)) + esc_byte(s[i]),
    decreases i,
{
    let a = s.subrange(0, i + 1);
    let b = s.subrange(0, i);
    if i == 0 {
        assert(a =~= seq![s[0]]);
        assert(a.drop_first() =~= Seq::<u8>::empty());
        assert(b =~= Seq::<u8>::empty());
        assert(a[0] == s[0]);
        assert(json_escaped(a) == esc_byte(a[0]) + json_escaped(a.drop_first()));
        assert(json_escaped(a.drop_first()) == Seq::<u8>::empty());
        assert(esc_byte(a[0]) + Seq::<u8>::empty() =~= esc_byte(a[0]));
    } else {
        lemma_json_escaped_snoc(s.drop_first(), i - 1);
        assert(a.drop_first() =~= s.drop_first().subrange(0, i));
        assert(b.drop_first() =~= s.drop_first().subrange(0, i - 1));
        assert(s.drop_first()[i - 1] == s[i]);
        assert(json_escaped(a) == esc_byte(s[0]) + (json_escaped(b.drop_first()) + esc_byte(
            s[i],
        )));
        assert(esc_byte(s[0]) + (json_escaped(b.drop_first()) + esc_byte(s[i])) =~= (esc_byte(
            s[0],
        ) + json_escaped(b.drop_first())) + esc_byte(s[i]));
    }
}

/// Append the JSON escaping of `s` to `out`.
#[verifier::loop_isolation(false)]
pub fn append_json_escaped(out: &mut Vec<u8>, s: &[u8])
    ensures
        final(out)@ == old(out)@ + json_escaped(s@),
{
    let mut i: usize = 0;
    proof {
        assert(s@.subrange(0, 0) =~= Seq::<u8>::empty());
    }
    while i < s.len()
        invariant
            i <= s@.len(),
            out@ == old(out)@ + json_escaped(s@.subrange(0, i as int)),
        decreases s@.len() - i,
    {
        let b = s[i];
        let ghost before = out@;
        if b == 34 {
            out.push(92);
            out.push(34);
        } else if b == 92 {
            out.push(92);
            out.push(92);
        } else if b < 32 {
            out.push(92);
            out.push(117);
            out.push(48);
            out.push(48);
            let hi = b / 16;
            let lo = b % 16;
            out.push(if hi < 10 {
                48 + hi
            } else {
                87 + hi
            });
            out.push(if lo < 10 {
                48 + lo
            } else {
                87 + lo
            });
        } else {
            out.push(b);
        }
        proof {
            assert(out@ =~= before + esc_byte(s@[i as int]));
            lemma_json_escaped_snoc(s@, i as int);
            assert(out@ =~= old(out)@ + json_escaped(s@.subrange(0, i + 1)));
        }
        i = i + 1;
    }
    proof {
        assert(s@.subrange(0, s@.len() as int) =~= s@);
    }
}

/// Decimal digits never hold a line feed.
pub proof fn lemma_dec_digits_no_lf(n: nat)
    ensures
        no_lf(dec_digits(n)),
{
    lemma_dec_digits_are_digits(n);
}

} // verus!
