//! Percent-encoding and decoding of URI components (RFC 3986).
use vstd::prelude::*;

verus! {

/// RFC 3986 unreserved characters: letters, digits, `-`, `.`, `_` and `~`.
pub open spec fn unreserved(b: u8) -> bool {
    (65 <= b && b <= 90) || (97 <= b && b <= 122) || (48 <= b && b <= 57) || b == 45 || b == 46
        || b == 95 || b == 126
}

/// Upper-case hex digit for a value below 16.
pub open spec fn hex_upper(n: u8) -> u8 {
    if n < 10 {
        (48 + n) as u8
    } else {
        (55 + n) as u8
    }
}

/// A hex digit, in either case.
pub open spec fn is_hex(b: u8) -> bool {
    (48 <= b && b <= 57) || (65 <= b && b <= 70) || (97 <= b && b <= 102)
}

/// Value of a hex digit, in either case.
pub open spec fn hex_val(b: u8) -> u8 {
    if 48 <= b && b <= 57 {
        (b - 48) as u8
    } else if 65 <= b && b <= 70 {
        (b - 55) as u8
    } else {
        (b - 87) as u8
    }
}

/// One byte as it appears in an encoded component: unreserved bytes (and `/`
/// where `keep_slash` holds) stand for themselves, others become `%XY`.
pub open spec fn encode_byte(b: u8, keep_slash: bool) -> Seq<u8> {
    if unreserved(b) || (keep_slash && b == 47) {
        seq![b]
    } else {
        seq![37u8, hex_upper(b / 16), hex_upper(b % 16)]
    }
}

/// Percent-encoding of `s`, byte by byte.
pub open spec fn uri_encode(s: Seq<u8>, keep_slash: bool) -> Seq<u8>
    decreases s.len(),
{
    if s.len() == 0 {
        Seq::empty()
    } else {
        uri_encode(s.drop_last(), keep_slash) + encode_byte(s.last(), keep_slash)
    }
}

/// Percent-decoding of `s`: each `%` followed by two hex digits stands for
/// one byte; every other byte, a stray `%` included, stands for itself.
pub open spec fn uri_decode(s: Seq<u8>) -> Seq<u8>
    decreases s.len(),
{
    if s.len() == 0 {
        Seq::empty()
    } else if s.len() >= 3 && s[0] == 37 && is_hex(s[1]) && is_hex(s[2]) {
        seq![(hex_val(s[1]) * 16 + hex_val(s[2])) as u8] + uri_decode(s.skip(3))
    } else {
        seq![s[0]] + uri_decode(s.skip(1))
    }
}

fn hex_upper_exec(n: u8) -> (r: u8)
    requires
        n < 16,
    ensures
        r == hex_upper(n),
{
    if n < 10 {
        48 + n
    } else {
        55 + n
    }
}

fn is_hex_exec(b: u8) -> (r: bool)
    ensures
        r == is_hex(b),
{
    (48 <= b && b <= 57) || (65 <= b && b <= 70) || (97 <= b && b <= 102)
}

fn hex_val_exec(b: u8) -> (r: u8)
    requires
        is_hex(b),
    ensures
        r == hex_val(b),
        r < 16,
{
    if 48 <= b && b <= 57 {
        b - 48
    } else if 65 <= b && b <= 70 {
        b - 55
    } else {
        b - 87
    }
}

/// Percent-encoding of `s`; `/` is kept as it is where `keep_slash` holds.
pub fn percent_encode(s: &[u8], keep_slash: bool) -> (r: Vec<u8>)
    ensures
        r@ == uri_encode(s@, keep_slash),
{
    let mut r: Vec<u8> = Vec::new();
    let mut i: usize = 0;
    assert(s@.take(0) =~= Seq::<u8>::empty());
    while i < s.len()
        invariant
            i <= s@.len(),
            r@ == uri_encode(s@.take(i as int), keep_slash),
        decreases s@.len() - i,
    {
        let b = s[i];
        let ghost t = s@.take(i + 1);
        assert(t.drop_last() =~= s@.take(i as int));
        let keep = (65 <= b && b <= 90) || (97 <= b && b <= 122) || (48 <= b && b <= 57) || b == 45
            || b == 46 || b == 95 || b == 126 || (keep_slash && b == 47);
        if keep {
            r.push(b);
            assert(r@ =~= uri_encode(t, keep_slash));
        } else {
            r.push(37u8);
            r.push(hex_upper_exec(b / 16));
            r.push(hex_upper_exec(b % 16));
            assert(r@ =~= uri_encode(t, keep_slash));
        }
        i = i + 1;
    }
    assert(s@.take(s@.len() as int) =~= s@);
    r
}

/// Percent-decoding of `s`.
pub fn percent_decode(s: &[u8]) -> (r: Vec<u8>)
    ensures
        r@ == uri_decode(s@),
{
    let mut r: Vec<u8> = Vec::new();
    let mut i: usize = 0;
    assert(s@.skip(0) =~= s@);
    while i < s.len()
        invariant
            i <= s@.len(),
            uri_decode(s@) == r@ + uri_decode(s@.skip(i as int)),
        decreases s@.len() - i,
    {
        let ghost t = s@.skip(i as int);
        if s.len() - i > 2 && s[i] == 37 && is_hex_exec(s[i + 1]) && is_hex_exec(s[i + 2]) {
            assert(t[0] == s@[i as int] && t[1] == s@[i + 1] && t[2] == s@[i + 2]);
            let v = hex_val_exec(s[i + 1]) * 16 + hex_val_exec(s[i + 2]);
            r.push(v);
            assert(t.skip(3) =~= s@.skip(i + 3));
            i = i + 3;
        } else {
            proof {
                assert(t[0] == s@[i as int]);
                if t.len() >= 3 {
                    assert(t[1] == s@[i + 1] && t[2] == s@[i + 2]);
                }
            }
            r.push(s[i]);
            assert(t.skip(1) =~= s@.skip(i + 1));
            i = i + 1;
        }
    }
    assert(s@.skip(s@.len() as int) =~= Seq::<u8>::empty());
    assert(r@ + Seq::<u8>::empty() =~= r@);
    r
}

} // verus!
