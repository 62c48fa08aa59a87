//! Byte-level text utilities shared by the tokenizer, the shim resolver and
//! worker discovery: ASCII case folding, whitespace trimming, substring
//! search, and decimal conversion in both directions.
//!
//! Command lines, shim scripts and process listings are ASCII-oriented
//! text, so the scanning logic works on bytes; only at the supervisor's
//! boundary are bytes turned into `String`s.

use vstd::prelude::*;

verus! {

/// `b` is an ASCII whitespace byte (space, tab, or one of the ASCII
/// control characters that break lines).
pub open spec fn is_ascii_ws(b: u8) -> bool {
    b == 0x20 || b == 0x09 || b == 0x0A || b == 0x0D || b == 0x0B || b == 0x0C
}

/// Whether `b` is whitespace, decided in executable code.
pub fn is_whitespace_byte(b: u8) -> (r: bool)
    ensures
        r == is_ascii_ws(b),
{
    b == 0x20 || b == 0x09 || b == 0x0A || b == 0x0D || b == 0x0B || b == 0x0C
}

/// `b` folded to ASCII lower case.
pub open spec fn lower_byte(b: u8) -> u8 {
    if 0x41 <= b && b <= 0x5A {
        (b + 0x20) as u8
    } else {
        b
    }
}

/// An ASCII-lower-cased copy of `s`.
pub fn lower_copy(s: &[u8]) -> (r: Vec<u8>)
    ensures
        r@ == s@.map_values(|b: u8| lower_byte(b)),
{
    let mut out: Vec<u8> = Vec::new();
    let n = s.len();
    for i in 0..n
        invariant
            n == s@.len(),
            out@ == s@.take(i as int).map_values(|b: u8| lower_byte(b)),
    {
        let b = s[i];
        if 0x41 <= b && b <= 0x5A {
            out.push(b + 0x20);
        } else {
            out.push(b);
        }
        proof {
            assert(out@ =~= s@.take(i + 1).map_values(|x: u8| lower_byte(x)));
        }
    }
    proof {
        assert(s@.take(n as int) =~= s@);
    }
    out
}

/// The lower-cased form of `t`.
pub open spec fn lower_seq(t: Seq<u8>) -> Seq<u8> {
    t.map_values(|b: u8| lower_byte(b))
}

/// `needle` occurs in `hay` starting at position `i`.
pub open spec fn matches_at(hay: Seq<u8>, needle: Seq<u8>, i: int) -> bool {
    &&& 0 <= i
    &&& i + needle.len() <= hay.len()
    &&& forall|k: int| 0 <= k < needle.len() ==> hay[i + k] == needle[k]
}

/// The position of the first occurrence of `needle` in `hay`, if any.
pub fn find_subseq(hay: &[u8], needle: &[u8]) -> (r: Option<usize>)
    ensures
        r matches Some(i) ==> matches_at(hay@, needle@, i as int) && (forall|j: int|
            0 <= j < i ==> !matches_at(hay@, needle@, j)),
        r is None ==> forall|j: int| !matches_at(hay@, needle@, j),
{
    let n = hay.len();
    let m = needle.len();
    if m > n {
        return None;
    }
    if m == 0 {
        return Some(0);
    }
    let last = n - m;
    let mut i: usize = 0;
    while i <= last
        invariant
            1 <= m <= n,
            last == n - m,
            n == hay@.len(),
            m == needle@.len(),
            i <= last + 1,
            forall|j: int| 0 <= j < i ==> !matches_at(hay@, needle@, j),
        decreases last - i + 1,
    {
        let mut k: usize = 0;
        let mut hit = true;
        while k < m
            invariant
                i + m <= n,
                n == hay@.len(),
                m == needle@.len(),
                k <= m,
                hit ==> forall|t: int| 0 <= t < k ==> hay@[i + t] == needle@[t],
                !hit ==> exists|t: int| 0 <= t < m && hay@[i + t] != needle@[t],
            decreases m - k,
        {
            if hay[i + k] != needle[k] {
                hit = false;
                k = m;
            } else {
                k = k + 1;
            }
        }
        if hit {
            return Some(i);
        }
        i = i + 1;
    }
    assert forall|j: int| !matches_at(hay@, needle@, j) by {}
    None
}

/// Whether `pat` occurs in `s` at position `i`, decided in executable
/// code.
pub fn match_at_pos(s: &[u8], pat: &[u8], i: usize) -> (r: bool)
    ensures
        r == matches_at(s@, pat@, i as int),
{
    let m = pat.len();
    let n = s.len();
    if i > n || m > n - i {
        return false;
    }
    let mut k: usize = 0;
    while k < m
        invariant
            n == s@.len(),
            i + m <= n,
            m == pat@.len(),
            k <= m,
            forall|t: int| 0 <= t < k ==> s@[i + t] == pat@[t],
        decreases m - k,
    {
        if s[i + k] != pat[k] {
            return false;
        }
        k = k + 1;
    }
    true
}

/// The position of the first occurrence of `pat` in `s`; meaningful only
/// when an occurrence exists.
pub open spec fn first_match(s: Seq<u8>, pat: Seq<u8>) -> int
    decreases s.len(),
{
    if matches_at(s, pat, 0) {
        0
    } else if s.len() == 0 {
        0
    } else {
        1 + first_match(s.skip(1), pat)
    }
}

/// Occurrence of `pat` at `i >= 1` is occurrence at `i - 1` of the tail.
proof fn lemma_matches_shift(s: Seq<u8>, pat: Seq<u8>, i: int)
    requires
        i >= 1,
        s.len() >= 1,
    ensures
        matches_at(s, pat, i) == matches_at(s.skip(1), pat, i - 1),
{
    if matches_at(s, pat, i) {
        assert forall|k: int| 0 <= k < pat.len() implies s.skip(1)[i - 1 + k] == pat[k] by {
            assert(s[i + k] == pat[k]);
        }
    }
    if matches_at(s.skip(1), pat, i - 1) {
        assert forall|k: int| 0 <= k < pat.len() implies s[i + k] == pat[k] by {
            assert(s.skip(1)[i - 1 + k] == pat[k]);
        }
    }
}

/// An occurrence before which there is none is the first occurrence.
pub proof fn lemma_first_match_is(s: Seq<u8>, pat: Seq<u8>, i: int)
    requires
        matches_at(s, pat, i),
        forall|j: int| 0 <= j < i ==> !matches_at(s, pat, j),
    ensures
        first_match(s, pat) == i,
    decreases i,
{
    if i > 0 {
        assert(!matches_at(s, pat, 0));
        assert(s.len() > 0);
        lemma_matches_shift(s, pat, i);
        assert forall|j: int| 0 <= j < i - 1 implies !matches_at(s.skip(1), pat, j) by {
            lemma_matches_shift(s, pat, j + 1);
        }
        lemma_first_match_is(s.skip(1), pat, i - 1);
    }
}

/// Occurrence of `pat` at `i` is occurrence at the head of the sequence
/// cut at `i`.
pub proof fn lemma_matches_skip(s: Seq<u8>, pat: Seq<u8>, i: int)
    requires
        0 <= i <= s.len(),
    ensures
        matches_at(s, pat, i) == matches_at(s.skip(i), pat, 0),
{
    if matches_at(s, pat, i) {
        assert forall|k: int| 0 <= k < pat.len() implies s.skip(i)[k] == pat[k] by {
            assert(s[i + k] == pat[k]);
        }
    }
    if matches_at(s.skip(i), pat, 0) {
        assert forall|k: int| 0 <= k < pat.len() implies s[i + k] == pat[k] by {
            assert(s.skip(i)[k] == pat[k]);
        }
    }
}

/// Appends all of `s` to `out`.
pub fn push_all(out: &mut Vec<u8>, s: &[u8])
    ensures
        final(out)@ == old(out)@ + s@,
{
    let ghost base = out@;
    let n = s.len();
    for i in 0..n
        invariant
            n == s@.len(),
            out@ == base + s@.take(i as int),
    {
        out.push(s[i]);
        proof {
            assert(base + s@.take(i + 1) =~= (base + s@.take(i as int)).push(s@[i as int]));
        }
    }
    proof {
        assert(base + s@.take(n as int) =~= base + s@);
    }
}

/// `hay` contains `needle`.
pub fn contains_subseq(hay: &[u8], needle: &[u8]) -> (r: bool)
    ensures
        r == exists|j: int| matches_at(hay@, needle@, j),
{
    match find_subseq(hay, needle) {
        Some(i) => {
            assert(matches_at(hay@, needle@, i as int));
            true
        },
        None => false,
    }
}

/// `s` begins with `prefix`.
pub fn starts_with_bytes(s: &[u8], prefix: &[u8]) -> (r: bool)
    ensures
        r == matches_at(s@, prefix@, 0),
{
    let m = prefix.len();
    if m > s.len() {
        return false;
    }
    let mut k: usize = 0;
    while k < m
        invariant
            m <= s@.len(),
            m == prefix@.len(),
            k <= m,
            forall|t: int| 0 <= t < k ==> s@[t] == prefix@[t],
        decreases m - k,
    {
        if s[k] != prefix[k] {
            return false;
        }
        k = k + 1;
    }
    true
}

/// `s` ends with `suffix`.
pub fn ends_with_bytes(s: &[u8], suffix: &[u8]) -> (r: bool)
    ensures
        r == matches_at(s@, suffix@, s@.len() - suffix@.len()),
{
    let m = suffix.len();
    let n = s.len();
    if m > n {
        return false;
    }
    let base = n - m;
    let mut k: usize = 0;
    while k < m
        invariant
            base == n - m,
            m <= n,
            n == s@.len(),
            m == suffix@.len(),
            k <= m,
            forall|t: int| 0 <= t < k ==> s@[base + t] == suffix@[t],
        decreases m - k,
    {
        if s[base + k] != suffix[k] {
            return false;
        }
        k = k + 1;
    }
    true
}

/// `s` without its leading whitespace.
pub open spec fn trim_start_spec(s: Seq<u8>) -> Seq<u8>
    decreases s.len(),
{
    if s.len() > 0 && is_ascii_ws(s.first()) {
        trim_start_spec(s.drop_first())
    } else {
        s
    }
}

/// `s` without its trailing whitespace.
pub open spec fn trim_end_spec(s: Seq<u8>) -> Seq<u8>
    decreases s.len(),
{
    if s.len() > 0 && is_ascii_ws(s.last()) {
        trim_end_spec(s.drop_last())
    } else {
        s
    }
}

/// `s` without leading and trailing whitespace.
pub open spec fn trim_spec(s: Seq<u8>) -> Seq<u8> {
    trim_end_spec(trim_start_spec(s))
}

/// If the first `k` bytes are whitespace and byte `k` (when present) is
/// not, trimming the start drops exactly those `k` bytes.
proof fn lemma_trim_start_at(s: Seq<u8>, k: int)
    requires
        0 <= k <= s.len(),
        forall|i: int| 0 <= i < k ==> is_ascii_ws(s[i]),
        k < s.len() ==> !is_ascii_ws(s[k]),
    ensures
        trim_start_spec(s) == s.skip(k),
    decreases k,
{
    if k == 0 {
        assert(s.skip(0) =~= s);
    } else {
        lemma_trim_start_at(s.drop_first(), k - 1);
        assert(s.drop_first().skip(k - 1) =~= s.skip(k));
    }
}

/// If the bytes from `k` on are whitespace and byte `k - 1` (when present)
/// is not, trimming the end keeps exactly the first `k` bytes.
proof fn lemma_trim_end_at(s: Seq<u8>, k: int)
    requires
        0 <= k <= s.len(),
        forall|i: int| k <= i < s.len() ==> is_ascii_ws(s[i]),
        k > 0 ==> !is_ascii_ws(s[k - 1]),
    ensures
        trim_end_spec(s) == s.take(k),
    decreases s.len(),
{
    if k == s.len() {
        if k > 0 {
            assert(s.take(k) =~= s);
        } else {
            assert(s.take(0) =~= s);
        }
    } else {
        lemma_trim_end_at(s.drop_last(), k);
        assert(s.drop_last().take(k) =~= s.take(k));
    }
}

/// A copy of `s` with leading and trailing whitespace removed.
pub fn trim_bytes(s: &[u8]) -> (r: Vec<u8>)
    ensures
        r@ == trim_spec(s@),
{
    let n = s.len();
    let mut lo: usize = 0;
    while lo < n && is_whitespace_byte(s[lo])
        invariant
            n == s@.len(),
            lo <= n,
            forall|i: int| 0 <= i < lo ==> is_ascii_ws(s@[i]),
        decreases n - lo,
    {
        lo = lo + 1;
    }
    let mut hi: usize = n;
    while hi > lo && is_whitespace_byte(s[hi - 1])
        invariant
            n == s@.len(),
            lo <= hi <= n,
            forall|i: int| hi <= i < n ==> is_ascii_ws(s@[i]),
        decreases hi,
    {
        hi = hi - 1;
    }
    proof {
        lemma_trim_start_at(s@, lo as int);
        let t = s@.skip(lo as int);
        if hi == lo {
            lemma_trim_end_at(t, 0);
        } else {
            lemma_trim_end_at(t, hi - lo);
        }
        assert(t.take(hi - lo) =~= s@.subrange(lo as int, hi as int));
    }
    let mut out: Vec<u8> = Vec::new();
    let mut i: usize = lo;
    while i < hi
        invariant
            lo <= i <= hi <= n,
            n == s@.len(),
            out@ == s@.subrange(lo as int, i as int),
        decreases hi - i,
    {
        out.push(s[i]);
        proof {
            assert(s@.subrange(lo as int, i + 1) =~= s@.subrange(lo as int, i as int).push(
                s@[i as int],
            ));
        }
        i = i + 1;
    }
    out
}

/// The decimal digit bytes of `n`, most significant first.
pub open spec fn dec_rep(n: nat) -> Seq<u8>
    decreases n,
{
    if n < 10 {
        seq![(0x30 + n) as u8]
    } else {
        dec_rep(n / 10).push((0x30 + n % 10) as u8)
    }
}

/// Writes `n` in decimal.
pub fn u32_to_dec(n: u32) -> (r: Vec<u8>)
    ensures
        r@ == dec_rep(n as nat),
    decreases n,
{
    if n < 10 {
        let mut v: Vec<u8> = Vec::new();
        v.push(0x30 + n as u8);
        proof {
            assert(v@ =~= dec_rep(n as nat));
        }
        v
    } else {
        let mut v = u32_to_dec(n / 10);
        v.push(0x30 + (n % 10) as u8);
        v
    }
}

/// Decimal representations consist of digit bytes alone.
pub proof fn lemma_dec_rep_digits(n: nat)
    ensures
        forall|i: int| 0 <= i < dec_rep(n).len() ==> 0x30 <= #[trigger] dec_rep(n)[i] <= 0x39,
    decreases n,
{
    if n < 10 {
        assert(dec_rep(n)[0] == (0x30 + n) as u8);
    } else {
        lemma_dec_rep_digits(n / 10);
        assert forall|i: int| 0 <= i < dec_rep(n).len() implies 0x30 <= #[trigger] dec_rep(n)[i]
            <= 0x39 by {
            if i < dec_rep(n).len() - 1 {
                assert(dec_rep(n)[i] == dec_rep(n / 10)[i]);
                assert(0x30 <= dec_rep(n / 10)[i] <= 0x39);
            } else {
                assert(dec_rep(n)[i] == (0x30 + n % 10) as u8);
            }
        }
    }
}

/// `s` is entirely ASCII decimal digits.
pub open spec fn is_digits(s: Seq<u8>) -> bool {
    forall|i: int| 0 <= i < s.len() ==> 0x30 <= #[trigger] s[i] <= 0x39
}

/// The number the digit bytes of `s` denote.
pub open spec fn digits_val(s: Seq<u8>) -> int
    decreases s.len(),
{
    if s.len() == 0 {
        0
    } else {
        digits_val(s.drop_last()) * 10 + (s.last() - 0x30)
    }
}

/// Extending a digit string never decreases its value.
proof fn lemma_digits_val_prefix(s: Seq<u8>, k: int)
    requires
        is_digits(s),
        0 <= k <= s.len(),
    ensures
        digits_val(s.take(k)) <= digits_val(s),
        digits_val(s) >= 0,
    decreases s.len(),
{
    if s.len() == 0 {
        assert(s.take(k) =~= s);
    } else {
        assert(is_digits(s.drop_last()));
        lemma_digits_val_prefix(s.drop_last(), if k <= s.len() - 1 { k } else { s.len() - 1 });
        if k == s.len() {
            assert(s.take(k) =~= s);
        } else {
            assert(s.drop_last().take(k) =~= s.take(k));
        }
    }
}

/// Reads `s` as a decimal `u32`.  Succeeds exactly on nonempty all-digit
/// input whose value fits.
pub fn parse_u32(s: &[u8]) -> (r: Option<u32>)
    ensures
        r matches Some(v) ==> s@.len() > 0 && is_digits(s@) && digits_val(s@) == v as int,
        r is None ==> !(s@.len() > 0 && is_digits(s@) && digits_val(s@) <= u32::MAX),
{
    let n = s.len();
    if n == 0 {
        return None;
    }
    let mut acc: u32 = 0;
    for i in 0..n
        invariant
            n == s@.len(),
            is_digits(s@.take(i as int)),
            acc as int == digits_val(s@.take(i as int)),
    {
        proof {
            assert(s@.take(i + 1).drop_last() =~= s@.take(i as int));
            assert(s@.take(i + 1).last() == s@[i as int]);
        }
        let b = s[i];
        if b < 0x30 || b > 0x39 {
            assert(!is_digits(s@));
            return None;
        }
        let d = (b - 0x30) as u32;
        let stepped = match acc.checked_mul(10) {
            Some(m) => m.checked_add(d),
            None => None,
        };
        match stepped {
            Some(v) => {
                acc = v;
            },
            None => {
                proof {
                    assert(digits_val(s@.take(i + 1)) > u32::MAX);
                    if is_digits(s@) {
                        lemma_digits_val_prefix(s@, i + 1);
                    }
                }
                return None;
            },
        }
    }
    proof {
        assert(s@.take(n as int) =~= s@);
    }
    Some(acc)
}

/// Decodes ASCII bytes into the string of the same characters.  Relies on
/// `String::from_utf8`: ASCII bytes are valid UTF-8 and decode to exactly
/// those characters.
#[verifier::external_body]
pub fn ascii_bytes_to_string(b: Vec<u8>) -> (r: String)
    requires
        forall|i: int| 0 <= i < b@.len() ==> b@[i] < 0x80,
    ensures
        r@ == b@.map_values(|x: u8| x as char),
{
    match String::from_utf8(b) {
        Ok(s) => s,
        Err(_) => String::new(),
    }
}

} // verus!
