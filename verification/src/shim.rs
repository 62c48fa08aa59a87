//! Shim-script resolution.
//!
//! On platforms where a command name resolves to a batch or command script
//! that merely wraps the real executable, the script text is scanned —
//! never executed — for either a delegation to the `node` interpreter or an
//! explicit `.exe` reference.  The scan is a best-effort heuristic: the
//! first actionable line decides, a `%~dp0` placeholder in an extracted
//! path is replaced by the script's directory, and a line offering nothing
//! actionable is skipped.  The platform layer reads the script file and
//! hands its text here.

use vstd::prelude::*;
use crate::buffer::all_lines;
use crate::text::{
    first_match,
    is_ascii_ws,
    lemma_first_match_is,
    lemma_matches_skip,
    lower_seq,
    matches_at,
    trim_spec,
};

verus! {

/// A token boundary in a script line: double quote, apostrophe, or
/// whitespace.
pub open spec fn is_boundary(b: u8) -> bool {
    b == 0x22 || b == 0x27 || is_ascii_ws(b)
}

/// Whether `b` bounds a token, decided in executable code.
fn is_boundary_byte(b: u8) -> (r: bool)
    ensures
        r == is_boundary(b),
{
    b == 0x22 || b == 0x27 || crate::text::is_whitespace_byte(b)
}

/// The bytes of `.exe`.
pub open spec fn exe_pat() -> Seq<u8> {
    seq![0x2Eu8, 0x65u8, 0x78u8, 0x65u8]
}

/// The bytes of `%~dp0`, the script-directory placeholder.
pub open spec fn dp0_pat() -> Seq<u8> {
    seq![0x25u8, 0x7Eu8, 0x64u8, 0x70u8, 0x30u8]
}

/// The bytes of `node`.
pub open spec fn node_name() -> Seq<u8> {
    seq![0x6Eu8, 0x6Fu8, 0x64u8, 0x65u8]
}

/// The bytes of `rem `, a script comment marker.
pub open spec fn rem_pat() -> Seq<u8> {
    seq![0x72u8, 0x65u8, 0x6Du8, 0x20u8]
}

/// The bytes of ` node `.
pub open spec fn sp_node_pat() -> Seq<u8> {
    seq![0x20u8, 0x6Eu8, 0x6Fu8, 0x64u8, 0x65u8, 0x20u8]
}

/// The bytes of `node `.
pub open spec fn node_sp_pat() -> Seq<u8> {
    seq![0x6Eu8, 0x6Fu8, 0x64u8, 0x65u8, 0x20u8]
}

/// The bytes of a tab followed by `node `.
pub open spec fn tab_node_pat() -> Seq<u8> {
    seq![0x09u8, 0x6Eu8, 0x6Fu8, 0x64u8, 0x65u8, 0x20u8]
}

/// The start of the token around position `i`: scanning left from `i`
/// until a boundary byte.
pub open spec fn tok_start(l: Seq<u8>, i: int) -> int
    decreases (if i >= 0 {
        i
    } else {
        0
    }),
{
    if 0 < i <= l.len() && !is_boundary(l[i - 1]) {
        tok_start(l, i - 1)
    } else {
        i
    }
}

/// The end of the token around position `i`: scanning right from `i`
/// until a boundary byte.
pub open spec fn tok_end(l: Seq<u8>, i: int) -> int
    decreases l.len() - i,
{
    if 0 <= i < l.len() && !is_boundary(l[i]) {
        tok_end(l, i + 1)
    } else {
        i
    }
}

/// A left scan that stopped at `s` computes `tok_start`.
proof fn lemma_tok_start_at(l: Seq<u8>, i: int, s: int)
    requires
        0 <= s <= i <= l.len(),
        forall|k: int| s <= k < i ==> !is_boundary(l[k]),
        s > 0 ==> is_boundary(l[s - 1]),
    ensures
        tok_start(l, i) == s,
    decreases i - s,
{
    if i > s {
        lemma_tok_start_at(l, i - 1, s);
    }
}

/// A right scan that stopped at `e` computes `tok_end`.
proof fn lemma_tok_end_at(l: Seq<u8>, i: int, e: int)
    requires
        0 <= i <= e <= l.len(),
        forall|k: int| i <= k < e ==> !is_boundary(l[k]),
        e < l.len() ==> is_boundary(l[e]),
    ensures
        tok_end(l, i) == e,
    decreases e - i,
{
    if e > i {
        lemma_tok_end_at(l, i + 1, e);
    }
}

/// `t` with the leading run of byte `c` removed.
pub open spec fn strip_lead(t: Seq<u8>, c: u8) -> Seq<u8>
    decreases t.len(),
{
    if t.len() > 0 && t.first() == c {
        strip_lead(t.drop_first(), c)
    } else {
        t
    }
}

/// `t` with the trailing run of byte `c` removed.
pub open spec fn strip_trail(t: Seq<u8>, c: u8) -> Seq<u8>
    decreases t.len(),
{
    if t.len() > 0 && t.last() == c {
        strip_trail(t.drop_last(), c)
    } else {
        t
    }
}

/// `t` with every leading and trailing occurrence of `c` removed.
pub open spec fn trim_char(t: Seq<u8>, c: u8) -> Seq<u8> {
    strip_trail(strip_lead(t, c), c)
}

proof fn lemma_strip_lead_at(t: Seq<u8>, c: u8, k: int)
    requires
        0 <= k <= t.len(),
        forall|i: int| 0 <= i < k ==> t[i] == c,
        k < t.len() ==> t[k] != c,
    ensures
        strip_lead(t, c) == t.skip(k),
    decreases k,
{
    if k == 0 {
        assert(t.skip(0) =~= t);
    } else {
        lemma_strip_lead_at(t.drop_first(), c, k - 1);
        assert(t.drop_first().skip(k - 1) =~= t.skip(k));
    }
}

proof fn lemma_strip_trail_at(t: Seq<u8>, c: u8, k: int)
    requires
        0 <= k <= t.len(),
        forall|i: int| k <= i < t.len() ==> t[i] == c,
        k > 0 ==> t[k - 1] != c,
    ensures
        strip_trail(t, c) == t.take(k),
    decreases t.len(),
{
    if k == t.len() {
        assert(t.take(k) =~= t);
    } else {
        lemma_strip_trail_at(t.drop_last(), c, k);
        assert(t.drop_last().take(k) =~= t.take(k));
    }
}

/// A copy of `t` with leading and trailing runs of `c` removed.
fn trim_char_copy(t: &[u8], c: u8) -> (r: Vec<u8>)
    ensures
        r@ == trim_char(t@, c),
{
    let n = t.len();
    let mut lo: usize = 0;
    while lo < n && t[lo] == c
        invariant
            n == t@.len(),
            lo <= n,
            forall|i: int| 0 <= i < lo ==> t@[i] == c,
        decreases n - lo,
    {
        lo = lo + 1;
    }
    let mut hi: usize = n;
    while hi > lo && t[hi - 1] == c
        invariant
            n == t@.len(),
            lo <= hi <= n,
            forall|i: int| hi <= i < n ==> t@[i] == c,
        decreases hi,
    {
        hi = hi - 1;
    }
    proof {
        lemma_strip_lead_at(t@, c, lo as int);
        let mid = t@.skip(lo as int);
        if hi == lo {
            lemma_strip_trail_at(mid, c, 0);
        } else {
            lemma_strip_trail_at(mid, c, hi - lo);
        }
        assert(mid.take(hi - lo) =~= t@.subrange(lo as int, hi as int));
    }
    let mut out: Vec<u8> = Vec::new();
    let mut i: usize = lo;
    while i < hi
        invariant
            lo <= i <= hi <= n,
            n == t@.len(),
            out@ == t@.subrange(lo as int, i as int),
        decreases hi - i,
    {
        out.push(t[i]);
        proof {
            assert(t@.subrange(lo as int, i + 1) =~= t@.subrange(lo as int, i as int).push(
                t@[i as int],
            ));
        }
        i = i + 1;
    }
    out
}

/// `t` with each occurrence of `%~dp0` replaced, left to right, by `d`
/// followed by a backslash.
pub open spec fn replace_dp0(t: Seq<u8>, d: Seq<u8>) -> Seq<u8>
    decreases t.len(),
{
    if t.len() == 0 {
        t
    } else if matches_at(t, dp0_pat(), 0) {
        d + seq![0x5Cu8] + replace_dp0(t.skip(5), d)
    } else {
        seq![t[0]] + replace_dp0(t.skip(1), d)
    }
}

/// Replaces each `%~dp0` placeholder in `t` with the script directory and
/// a backslash.
fn replace_dp0_copy(t: &[u8], d: &[u8]) -> (r: Vec<u8>)
    ensures
        r@ == replace_dp0(t@, d@),
{
    let dp0: [u8; 5] = [0x25, 0x7E, 0x64, 0x70, 0x30];
    proof {
        assert(dp0@ =~= dp0_pat());
    }
    let n = t.len();
    let mut out: Vec<u8> = Vec::new();
    let mut i: usize = 0;
    proof {
        assert(t@.skip(0) =~= t@);
    }
    while i < n
        invariant
            n == t@.len(),
            i <= n,
            dp0@ == dp0_pat(),
            d@ == d@,
            replace_dp0(t@, d@) == out@ + replace_dp0(t@.skip(i as int), d@),
        decreases n - i,
    {
        let ghost o = out@;
        let here = crate::text::match_at_pos(t, &dp0, i);
        proof {
            lemma_matches_skip(t@, dp0_pat(), i as int);
        }
        if here {
            crate::text::push_all(&mut out, d);
            out.push(0x5C);
            proof {
                assert(t@.skip(i as int).skip(5) =~= t@.skip(i + 5));
                assert(out@ =~= o + d@ + seq![0x5Cu8]);
                assert(o + (d@ + seq![0x5Cu8] + replace_dp0(t@.skip(i + 5), d@)) =~= (o + d@
                    + seq![0x5Cu8]) + replace_dp0(t@.skip(i + 5), d@));
            }
            i = i + 5;
        } else {
            out.push(t[i]);
            proof {
                assert(t@.skip(i as int).skip(1) =~= t@.skip(i + 1));
                assert(t@.skip(i as int)[0] == t@[i as int]);
                assert(out@ =~= o + seq![t@[i as int]]);
                assert(o + (seq![t@[i as int]] + replace_dp0(t@.skip(i + 1), d@)) =~= (o
                    + seq![t@[i as int]]) + replace_dp0(t@.skip(i + 1), d@));
            }
            i = i + 1;
        }
    }
    proof {
        assert(t@.skip(n as int) =~= Seq::<u8>::empty());
    }
    out
}

/// A lower-cased line delegates to the `node` interpreter.
pub open spec fn line_mentions_node(low: Seq<u8>) -> bool {
    ||| exists|i: int| matches_at(low, sp_node_pat(), i)
    ||| matches_at(low, node_sp_pat(), 0)
    ||| exists|i: int| matches_at(low, tab_node_pat(), i)
}

/// What one script line contributes: `node` when it delegates to the
/// interpreter; the extracted, placeholder-substituted, quote-stripped
/// token around its first `.exe` mention when it references an executable;
/// nothing when it is blank, a comment, a label, or offers neither.
pub open spec fn line_decision(raw: Seq<u8>, dir: Seq<u8>) -> Option<Seq<u8>> {
    let t = trim_spec(raw);
    let low = lower_seq(t);
    if t.len() == 0 || matches_at(t, rem_pat(), 0) || t[0] == 0x3A {
        None
    } else if line_mentions_node(low) {
        Some(node_name())
    } else if exists|i: int| matches_at(low, exe_pat(), i) {
        let i = first_match(low, exe_pat());
        let tok = trim_char(
            trim_char(replace_dp0(t.subrange(tok_start(t, i), tok_end(t, i + 4)), dir), 0x22),
            0x27,
        );
        if tok.len() > 0 {
            Some(tok)
        } else {
            None
        }
    } else {
        None
    }
}

/// The decision of the first deciding line, if any line decides.
pub open spec fn resolve_lines(lines: Seq<Seq<u8>>, dir: Seq<u8>) -> Option<Seq<u8>>
    decreases lines.len(),
{
    if lines.len() == 0 {
        None
    } else if line_decision(lines.first(), dir) is Some {
        line_decision(lines.first(), dir)
    } else {
        resolve_lines(lines.drop_first(), dir)
    }
}

/// Skipping undecided lines does not change the outcome.
proof fn lemma_resolve_skip(lines: Seq<Seq<u8>>, dir: Seq<u8>, i: int)
    requires
        0 <= i <= lines.len(),
        forall|j: int| 0 <= j < i ==> line_decision(#[trigger] lines[j], dir) is None,
    ensures
        resolve_lines(lines, dir) == resolve_lines(lines.skip(i), dir),
    decreases i,
{
    if i == 0 {
        assert(lines.skip(0) =~= lines);
    } else {
        assert(lines.len() > 0);
        assert(line_decision(lines[0], dir) is None);
        assert(lines.first() == lines[0]);
        assert(lines.drop_first() =~= lines.skip(1));
        lemma_resolve_skip(lines.skip(1), dir, i - 1);
        assert forall|j: int| 0 <= j < i - 1 implies line_decision(
            #[trigger] lines.skip(1)[j],
            dir,
        ) is None by {
            assert(lines.skip(1)[j] == lines[j + 1]);
        }
        assert(lines.skip(1).skip(i - 1) =~= lines.skip(i));
    }
}

/// Scans a wrapper script's text for a delegation to the `node`
/// interpreter or an explicit `.exe` reference.  Returns the interpreter
/// name or the extracted executable path from the first line that offers
/// one, with any `%~dp0` placeholder replaced by `script_dir` and a
/// backslash and surrounding quotes stripped; returns nothing when no line
/// offers an actionable delegation, in which case the caller keeps the
/// original name.  The script is only read, never run.
pub fn resolve_shim_text(script: &[u8], script_dir: &[u8]) -> (r: Option<Vec<u8>>)
    ensures
        r matches Some(v) ==> resolve_lines(all_lines(script@), script_dir@) == Some(v@),
        r is None ==> resolve_lines(all_lines(script@), script_dir@) is None,
{
    let lines = crate::buffer::split_text_lines(script);
    let ghost all = all_lines(script@);
    let n = lines.len();
    for li in 0..n
        invariant
            n == lines@.len(),
            lines.deep_view() == all,
            all == all_lines(script@),
            forall|j: int| 0 <= j < li ==> line_decision(#[trigger] all[j], script_dir@) is None,
    {
        proof {
            assert(all[li as int] =~= lines@[li as int]@);
        }
        let ghost raw = all[li as int];
        let t = crate::text::trim_bytes(lines[li].as_slice());
        let rem: [u8; 4] = [0x72, 0x65, 0x6D, 0x20];
        proof {
            assert(rem@ =~= rem_pat());
            assert(t@ == trim_spec(raw));
        }
        let skip_line = t.len() == 0 || crate::text::starts_with_bytes(t.as_slice(), &rem) || t[0]
            == 0x3A;
        if skip_line {
            assert(line_decision(raw, script_dir@) is None);
        } else {
            let low = crate::text::lower_copy(t.as_slice());
            let sp_node: [u8; 6] = [0x20, 0x6E, 0x6F, 0x64, 0x65, 0x20];
            let node_sp: [u8; 5] = [0x6E, 0x6F, 0x64, 0x65, 0x20];
            let tab_node: [u8; 6] = [0x09, 0x6E, 0x6F, 0x64, 0x65, 0x20];
            proof {
                assert(sp_node@ =~= sp_node_pat());
                assert(node_sp@ =~= node_sp_pat());
                assert(tab_node@ =~= tab_node_pat());
                assert(low@ == lower_seq(t@));
            }
            let mentions = crate::text::contains_subseq(low.as_slice(), &sp_node)
                || crate::text::starts_with_bytes(low.as_slice(), &node_sp)
                || crate::text::contains_subseq(low.as_slice(), &tab_node);
            if mentions {
                let mut name: Vec<u8> = Vec::new();
                name.push(0x6E);
                name.push(0x6F);
                name.push(0x64);
                name.push(0x65);
                proof {
                    assert(name@ =~= node_name());
                    assert(line_decision(raw, script_dir@) == Some(node_name()));
                    lemma_resolve_skip(all, script_dir@, li as int);
                    assert(all.skip(li as int).first() == all[li as int]);
                    assert(all.skip(li as int).len() > 0);
                }
                return Some(name);
            }
            let exe: [u8; 4] = [0x2E, 0x65, 0x78, 0x65];
            proof {
                assert(exe@ =~= exe_pat());
            }
            match crate::text::find_subseq(low.as_slice(), &exe) {
                Some(idx) => {
                    proof {
                        lemma_first_match_is(low@, exe_pat(), idx as int);
                    }
                    let mut s: usize = idx;
                    while s > 0 && !is_boundary_byte(t[s - 1])
                        invariant
                            s <= idx,
                            idx + 4 <= t@.len(),
                            forall|k: int| s <= k < idx ==> !is_boundary(t@[k]),
                        decreases s,
                    {
                        s = s - 1;
                    }
                    let mut e: usize = idx + 4;
                    let tn = t.len();
                    while e < tn && !is_boundary_byte(t[e])
                        invariant
                            idx + 4 <= e <= tn,
                            tn == t@.len(),
                            forall|k: int| idx + 4 <= k < e ==> !is_boundary(t@[k]),
                        decreases tn - e,
                    {
                        e = e + 1;
                    }
                    proof {
                        lemma_tok_start_at(t@, idx as int, s as int);
                        lemma_tok_end_at(t@, idx + 4, e as int);
                    }
                    let mut tok0: Vec<u8> = Vec::new();
                    let mut i: usize = s;
                    while i < e
                        invariant
                            s <= i <= e <= t@.len(),
                            tok0@ == t@.subrange(s as int, i as int),
                        decreases e - i,
                    {
                        tok0.push(t[i]);
                        proof {
                            assert(t@.subrange(s as int, i + 1) =~= t@.subrange(s as int, i as int)
                                .push(t@[i as int]));
                        }
                        i = i + 1;
                    }
                    let replaced = replace_dp0_copy(tok0.as_slice(), script_dir);
                    let unquoted = trim_char_copy(replaced.as_slice(), 0x22);
                    let tok = trim_char_copy(unquoted.as_slice(), 0x27);
                    if tok.len() > 0 {
                        proof {
                            assert(line_decision(raw, script_dir@) == Some(tok@));
                            lemma_resolve_skip(all, script_dir@, li as int);
                            assert(all.skip(li as int).first() == all[li as int]);
                            assert(all.skip(li as int).len() > 0);
                        }
                        return Some(tok);
                    }
                    assert(line_decision(raw, script_dir@) is None);
                },
                None => {
                    assert(line_decision(raw, script_dir@) is None);
                },
            }
        }
    }
    proof {
        lemma_resolve_skip(all, script_dir@, all.len() as int);
        assert(all.skip(all.len() as int) =~= Seq::<Seq<u8>>::empty());
    }
    None
}

} // verus!
