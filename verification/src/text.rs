use vstd::prelude::*;

verus! {

/// Relies on String::push appending exactly the given character.
pub assume_specification[ String::push ](s: &mut String, ch: char)
    ensures
        final(s)@ == old(s)@.push(ch),
;

/// ASCII lower-casing of a single byte; bytes outside `A..=Z` are untouched.
pub open spec fn spec_lower(b: u8) -> u8 {
    if 'A' as u8 <= b <= 'Z' as u8 {
        (b + 32) as u8
    } else {
        b
    }
}

/// ASCII lower-casing of a whole byte sequence.
pub open spec fn spec_lower_seq(s: Seq<u8>) -> Seq<u8> {
    s.map_values(|b: u8| spec_lower(b))
}

/// The low byte of each character's code point; for the ASCII pattern
/// tokens matched in this crate this is the character itself.
pub open spec fn spec_char_codes(s: Seq<char>) -> Seq<u8> {
    s.map_values(|c: char| c as u8)
}

/// The needle `n` occurs in the haystack `h` at position `i`, compared
/// byte for byte.
pub open spec fn spec_matches_at_cs(h: Seq<u8>, n: Seq<u8>, i: int) -> bool {
    forall|j: int| 0 <= j < n.len() ==> h[i + j] == n[j]
}

/// The needle `n` occurs somewhere in the haystack `h`, compared byte
/// for byte.
pub open spec fn spec_contains_cs(h: Seq<u8>, n: Seq<u8>) -> bool {
    exists|i: int| 0 <= i <= h.len() - n.len() && spec_matches_at_cs(h, n, i)
}

/// The needle `n` occurs in the haystack `h` at position `i`, compared
/// without regard to ASCII case.
pub open spec fn spec_matches_at(h: Seq<u8>, n: Seq<u8>, i: int) -> bool {
    forall|j: int| 0 <= j < n.len() ==> spec_lower(h[i + j]) == spec_lower(n[j])
}

/// The needle `n` occurs somewhere in the haystack `h`, compared without
/// regard to ASCII case.
pub open spec fn spec_contains_ci(h: Seq<u8>, n: Seq<u8>) -> bool {
    exists|i: int| 0 <= i <= h.len() - n.len() && spec_matches_at(h, n, i)
}

/// ASCII lower-casing of one byte.
pub fn lower_byte(b: u8) -> (r: u8)
    ensures
        r == spec_lower(b),
{
    if b >= 'A' as u8 && b <= 'Z' as u8 {
        b + 32
    } else {
        b
    }
}

/// Whether `needle` occurs in `hay`, under ASCII case folding.
pub fn contains_ci(hay: &[u8], needle: &[u8]) -> (r: bool)
    ensures
        r == spec_contains_ci(hay@, needle@),
{
    let hlen: usize = hay.len();
    let nlen: usize = needle.len();
    if nlen > hlen {
        assert(!spec_contains_ci(hay@, needle@));
        return false;
    }
    if nlen == 0 {
        assert(spec_matches_at(hay@, needle@, 0));
        return true;
    }
    let bound: usize = hlen - nlen;
    let mut i: usize = 0;
    while i <= bound
        invariant
            0 <= i <= bound + 1,
            hlen == hay@.len(),
            nlen == needle@.len(),
            1 <= nlen <= hlen,
            bound == hlen - nlen,
            forall|k: int| 0 <= k < i ==> !spec_matches_at(hay@, needle@, k),
        decreases bound + 1 - i,
    {
        let mut j: usize = 0;
        let mut hit = true;
        while j < nlen
            invariant
                hit ==> forall|t: int|
                    0 <= t < j ==> spec_lower(hay@[i + t]) == spec_lower(needle@[t]),
                !hit ==> !spec_matches_at(hay@, needle@, i as int),
                0 <= j <= nlen,
                hlen == hay@.len(),
                nlen == needle@.len(),
                1 <= nlen <= hlen,
                0 <= i <= hlen - nlen,
            decreases nlen - j,
        {
            if lower_byte(hay[i + j]) != lower_byte(needle[j]) {
                assert(!spec_matches_at(hay@, needle@, i as int));
                hit = false;
                j = nlen;
            } else {
                j = j + 1;
            }
        }
        if hit {
            assert(spec_matches_at(hay@, needle@, i as int));
            return true;
        }
        i = i + 1;
    }
    false
}

/// Whether the two byte sequences are equal under ASCII case folding.
pub fn eq_ignore_case(a: &[u8], b: &[u8]) -> (r: bool)
    ensures
        r == (spec_lower_seq(a@) == spec_lower_seq(b@)),
{
    if a.len() != b.len() {
        assert(spec_lower_seq(a@).len() != spec_lower_seq(b@).len());
        return false;
    }
    let mut i: usize = 0;
    while i < a.len()
        invariant
            0 <= i <= a@.len(),
            a@.len() == b@.len(),
            forall|k: int| 0 <= k < i ==> spec_lower(a@[k]) == spec_lower(b@[k]),
        decreases a@.len() - i,
    {
        if lower_byte(a[i]) != lower_byte(b[i]) {
            assert(spec_lower_seq(a@)[i as int] != spec_lower_seq(b@)[i as int]);
            return false;
        }
        i = i + 1;
    }
    assert(spec_lower_seq(a@) =~= spec_lower_seq(b@));
    true
}

/// Whether `needle` occurs in `hay`, compared byte for byte.
pub fn contains_cs(hay: &[u8], needle: &[u8]) -> (r: bool)
    ensures
        r == spec_contains_cs(hay@, needle@),
{
    let hlen: usize = hay.len();
    let nlen: usize = needle.len();
    if nlen > hlen {
        assert(!spec_contains_cs(hay@, needle@));
        return false;
    }
    if nlen == 0 {
        assert(spec_matches_at_cs(hay@, needle@, 0));
        return true;
    }
    let bound: usize = hlen - nlen;
    let mut i: usize = 0;
    while i <= bound
        invariant
            0 <= i <= bound + 1,
            hlen == hay@.len(),
            nlen == needle@.len(),
            1 <= nlen <= hlen,
            bound == hlen - nlen,
            forall|k: int| 0 <= k < i ==> !spec_matches_at_cs(hay@, needle@, k),
        decreases bound + 1 - i,
    {
        let mut j: usize = 0;
        let mut hit = true;
        while j < nlen
            invariant
                hit ==> forall|t: int| 0 <= t < j ==> hay@[i + t] == needle@[t],
                !hit ==> !spec_matches_at_cs(hay@, needle@, i as int),
                0 <= j <= nlen,
                hlen == hay@.len(),
                nlen == needle@.len(),
                1 <= nlen <= hlen,
                0 <= i <= hlen - nlen,
            decreases nlen - j,
        {
            if hay[i + j] != needle[j] {
                assert(!spec_matches_at_cs(hay@, needle@, i as int));
                hit = false;
                j = nlen;
            } else {
                j = j + 1;
            }
        }
        if hit {
            assert(spec_matches_at_cs(hay@, needle@, i as int));
            return true;
        }
        i = i + 1;
    }
    false
}

/// The characters of `s` as single bytes, each the low byte of its code
/// point; used to turn an ASCII pattern literal into its byte form.
pub fn chars_to_bytes(s: &str) -> (r: Vec<u8>)
    ensures
        r@ == spec_char_codes(s@),
{
    let n: usize = s.unicode_len();
    let mut r: Vec<u8> = Vec::new();
    let mut i: usize = 0;
    while i < n
        invariant
            0 <= i <= n,
            n == s@.len(),
            r@ == spec_char_codes(s@.subrange(0, i as int)),
        decreases n - i,
    {
        let c = s.get_char(i);
        r.push(#[verifier::truncate] (c as u8));
        proof {
            assert(s@.subrange(0, i + 1).drop_last() =~= s@.subrange(0, i as int));
            assert(r@ =~= spec_char_codes(s@.subrange(0, i + 1)));
        }
        i = i + 1;
    }
    proof {
        assert(s@.subrange(0, n as int) =~= s@);
    }
    r
}

/// Whether two strings hold the same characters.
pub fn str_eq(a: &str, b: &str) -> (r: bool)
    ensures
        r == (a@ == b@),
{
    let n: usize = a.unicode_len();
    if n != b.unicode_len() {
        assert(a@.len() != b@.len());
        return false;
    }
    let mut i: usize = 0;
    while i < n
        invariant
            0 <= i <= n,
            n == a@.len(),
            n == b@.len(),
            forall|k: int| 0 <= k < i ==> a@[k] == b@[k],
        decreases n - i,
    {
        if a.get_char(i) != b.get_char(i) {
            assert(a@ != b@);
            return false;
        }
        i = i + 1;
    }
    assert(a@ =~= b@);
    true
}

/// The first character of `s`, or `d` when `s` is empty.
pub fn first_char_or(s: &str, d: char) -> (c: char)
    ensures
        c == (if s@.len() == 0 {
            d
        } else {
            s@[0]
        }),
{
    if s.unicode_len() == 0 {
        d
    } else {
        s.get_char(0)
    }
}

} // verus!
