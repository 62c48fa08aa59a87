//! Worker discovery over a process-tree snapshot.
//!
//! When a directly spawned process turns out to be a wrapper without usable
//! pipes, the real worker is looked for among its descendants.  The
//! platform layer supplies a snapshot of the system process list (pid and
//! parent pid per process) and the raw text of a process listing; the
//! decisions — which pids are descendants of the wrapper, which command-line
//! tokens look like spawnable executables, which listed pid to pick — are
//! made and verified here.

use vstd::prelude::*;
use vstd::seq_lib::*;
use vstd::set_lib::*;
use crate::buffer::all_lines;
use crate::text::{
    digits_val,
    is_digits,
    lower_seq,
    matches_at,
    trim_spec,
};

verus! {

/// One process of a system snapshot: its id and its parent's id.
#[derive(Clone, Copy, Debug, PartialEq, Eq, Structural)]
pub struct ProcessEntry {
    pub pid: u32,
    pub ppid: u32,
}

/// `pid` is reachable from `root` through at most `k + 1` parent links of
/// the snapshot, and is not `root` itself.
pub open spec fn reaches_within(snap: Seq<ProcessEntry>, root: u32, pid: u32, k: nat) -> bool
    decreases k,
{
    exists|e: int|
        0 <= e < snap.len() && #[trigger] snap[e].pid == pid && pid != root && (snap[e].ppid == root
            || (k > 0 && reaches_within(snap, root, snap[e].ppid, (k - 1) as nat)))
}

/// `pid` is a proper descendant of `root` in the snapshot.
pub open spec fn is_descendant(snap: Seq<ProcessEntry>, root: u32, pid: u32) -> bool {
    exists|k: nat| reaches_within(snap, root, pid, k)
}

/// The result set is closed: any snapshot entry whose parent is `root` or
/// already in the set has its pid in the set.
spec fn closed_under_children(snap: Seq<ProcessEntry>, root: u32, r: Seq<u32>) -> bool {
    forall|e: int|
        0 <= e < snap.len() && (#[trigger] snap[e]).pid != root && (snap[e].ppid == root
            || r.contains(snap[e].ppid)) ==> r.contains(snap[e].pid)
}

/// A closed set contains everything reachable.
proof fn lemma_closed_contains_reachable(
    snap: Seq<ProcessEntry>,
    root: u32,
    r: Seq<u32>,
    pid: u32,
    k: nat,
)
    requires
        closed_under_children(snap, root, r),
        reaches_within(snap, root, pid, k),
    ensures
        r.contains(pid),
    decreases k,
{
    let e = choose|e: int|
        0 <= e < snap.len() && #[trigger] snap[e].pid == pid && pid != root && (snap[e].ppid == root
            || (k > 0 && reaches_within(snap, root, snap[e].ppid, (k - 1) as nat)));
    if snap[e].ppid != root {
        lemma_closed_contains_reachable(snap, root, r, snap[e].ppid, (k - 1) as nat);
    }
}

/// Every pid of `r` is the pid of some snapshot entry.
spec fn drawn_from(snap: Seq<ProcessEntry>, r: Seq<u32>) -> bool {
    forall|j: int|
        0 <= j < r.len() ==> exists|e: int|
            0 <= e < snap.len() && (#[trigger] snap[e]).pid == #[trigger] r[j]
}

/// Every pid of `r` is a proper descendant of `root`.
spec fn all_descendants(snap: Seq<ProcessEntry>, root: u32, r: Seq<u32>) -> bool {
    forall|j: int| 0 <= j < r.len() ==> is_descendant(snap, root, #[trigger] r[j])
}

/// A duplicate-free sequence of pids drawn from the snapshot is no longer
/// than the snapshot.
proof fn lemma_distinct_pids_bound(snap: Seq<ProcessEntry>, r: Seq<u32>)
    requires
        r.no_duplicates(),
        drawn_from(snap, r),
    ensures
        r.len() <= snap.len(),
{
    broadcast use seq_to_set_is_finite;

    let pids = snap.map_values(|e: ProcessEntry| e.pid);
    assert forall|p: u32| r.to_set().contains(p) implies pids.to_set().contains(p) by {
        let j = choose|j: int| 0 <= j < r.len() && r[j] == p;
        let e = choose|e: int| 0 <= e < snap.len() && snap[e].pid == r[j];
        assert(pids[e] == p);
        assert(pids.contains(p));
    }
    r.unique_seq_to_set();
    pids.lemma_cardinality_of_set();
    lemma_len_subset(r.to_set(), pids.to_set());
}

/// Linear membership test.
fn contains_u32(v: &Vec<u32>, x: u32) -> (r: bool)
    ensures
        r == v@.contains(x),
{
    let n = v.len();
    for i in 0..n
        invariant
            n == v@.len(),
            forall|j: int| 0 <= j < i ==> v@[j] != x,
    {
        if v[i] == x {
            return true;
        }
    }
    false
}

/// Collects the pids of every proper descendant of `root` in the snapshot:
/// children, their children, and so on.  The result holds each such pid
/// once, and nothing else.  A snapshot whose parent links form a cycle not
/// connected to `root` contributes nothing.
pub fn descendants_of(snap: &Vec<ProcessEntry>, root: u32) -> (r: Vec<u32>)
    ensures
        forall|p: u32| #[trigger] r@.contains(p) <==> is_descendant(snap@, root, p),
        r@.no_duplicates(),
{
    let mut result: Vec<u32> = Vec::new();
    let mut changed = true;
    let n = snap.len();
    while changed
        invariant
            n == snap@.len(),
            result@.no_duplicates(),
            all_descendants(snap@, root, result@),
            drawn_from(snap@, result@),
            !changed ==> closed_under_children(snap@, root, result@),
        decreases snap@.len() - result@.len() + (if changed {
            1int
        } else {
            0int
        }),
    {
        proof {
            lemma_distinct_pids_bound(snap@, result@);
        }
        changed = false;
        let ghost start = result@;
        for idx in 0..n
            invariant
                n == snap@.len(),
                result@.no_duplicates(),
                all_descendants(snap@, root, result@),
                drawn_from(snap@, result@),
                forall|p: u32| start.contains(p) ==> result@.contains(p),
                !changed ==> result@ == start,
                changed ==> start.len() < result@.len(),
                forall|e: int|
                    0 <= e < idx && (#[trigger] snap@[e]).pid != root && (snap@[e].ppid == root
                        || start.contains(snap@[e].ppid)) ==> result@.contains(snap@[e].pid),
        {
            let entry = snap[idx];
            if entry.pid != root {
                let parent_known = entry.ppid == root || contains_u32(&result, entry.ppid);
                let already = contains_u32(&result, entry.pid);
                if parent_known && !already {
                    proof {
                        if entry.ppid == root {
                            assert(reaches_within(snap@, root, entry.pid, 0)) by {
                                assert(snap@[idx as int].pid == entry.pid && entry.pid != root
                                    && snap@[idx as int].ppid == root);
                            }
                        } else {
                            let j = choose|j: int|
                                0 <= j < result@.len() && result@[j] == entry.ppid;
                            assert(is_descendant(snap@, root, entry.ppid));
                            let k = choose|k: nat| reaches_within(snap@, root, entry.ppid, k);
                            assert(reaches_within(snap@, root, entry.pid, k + 1)) by {
                                assert(snap@[idx as int].pid == entry.pid && entry.pid != root
                                    && k + 1 > 0 && reaches_within(
                                    snap@,
                                    root,
                                    snap@[idx as int].ppid,
                                    k,
                                ));
                            }
                        }
                    }
                    let ghost before = result@;
                    result.push(entry.pid);
                    changed = true;
                    proof {
                        assert forall|i: int, j: int|
                            0 <= i < result@.len() && 0 <= j < result@.len() && i != j
                            implies result@[i] != result@[j] by {
                            if i < before.len() && j < before.len() {
                            } else if j == before.len() {
                                assert(result@[j] == entry.pid);
                                assert(!before.contains(entry.pid));
                                assert(before[i] != entry.pid);
                            } else {
                                assert(result@[i] == entry.pid);
                                assert(!before.contains(entry.pid));
                                assert(before[j] != entry.pid);
                            }
                        }
                        assert(result@.no_duplicates());
                        assert forall|j: int|
                            0 <= j < result@.len() implies is_descendant(
                            snap@,
                            root,
                            #[trigger] result@[j],
                        ) by {
                            if j < before.len() {
                                assert(result@[j] == before[j]);
                                assert(is_descendant(snap@, root, before[j]));
                            } else {
                                assert(result@[j] == entry.pid);
                            }
                        }
                        assert forall|j: int|
                            0 <= j < result@.len() implies exists|e: int|
                            0 <= e < snap@.len() && (#[trigger] snap@[e]).pid
                                == #[trigger] result@[j] by {
                            if j < before.len() {
                                assert(drawn_from(snap@, before));
                                assert(result@[j] == before[j]);
                                let e = choose|e: int|
                                    0 <= e < snap@.len() && (#[trigger] snap@[e]).pid == before[j];
                                assert(snap@[e].pid == result@[j]);
                            } else {
                                assert(snap@[idx as int].pid == result@[j]);
                            }
                        }
                        assert forall|p: u32| start.contains(p) implies result@.contains(p) by {
                            let j = choose|j: int| 0 <= j < before.len() && before[j] == p;
                            assert(result@[j] == p);
                        }
                        assert forall|e: int|
                            0 <= e < idx + 1 && (#[trigger] snap@[e]).pid != root && (snap@[e].ppid
                                == root || start.contains(snap@[e].ppid)) implies result@.contains(
                            snap@[e].pid,
                        ) by {
                            if e < idx {
                                let j = choose|j: int|
                                    0 <= j < before.len() && before[j] == snap@[e].pid;
                                assert(result@[j] == snap@[e].pid);
                            } else {
                                assert(result@[result@.len() - 1] == entry.pid);
                            }
                        }
                    }
                } else {
                    proof {
                        assert forall|e: int|
                            0 <= e < idx + 1 && (#[trigger] snap@[e]).pid != root && (snap@[e].ppid
                                == root || start.contains(snap@[e].ppid)) implies result@.contains(
                            snap@[e].pid,
                        ) by {
                            if e == idx {
                                if snap@[e].ppid != root && start.contains(snap@[e].ppid) {
                                    assert(result@.contains(snap@[e].ppid));
                                }
                                assert(parent_known);
                                assert(already);
                            }
                        }
                    }
                }
            }
        }
        proof {
            lemma_distinct_pids_bound(snap@, result@);
        }
    }
    proof {
        assert forall|p: u32| #[trigger] result@.contains(p) implies is_descendant(
            snap@,
            root,
            p,
        ) by {
            let j = choose|j: int| 0 <= j < result@.len() && result@[j] == p;
            assert(is_descendant(snap@, root, result@[j]));
        }
        assert forall|p: u32| is_descendant(snap@, root, p) implies #[trigger] result@.contains(
            p,
        ) by {
            let k = choose|k: nat| reaches_within(snap@, root, p, k);
            lemma_closed_contains_reachable(snap@, root, result@, p, k);
        }
    }
    result
}

/// A command-line token names a spawnable worker candidate when, lower
/// cased, it ends in `.exe`, is exactly `node`, or ends in `\node`.
pub open spec fn worker_candidate_spec(t: Seq<u8>) -> bool {
    let low = lower_seq(t);
    ||| matches_at(low, seq![0x2Eu8, 0x65u8, 0x78u8, 0x65u8], low.len() - 4)
    ||| low =~= seq![0x6Eu8, 0x6Fu8, 0x64u8, 0x65u8]
    ||| matches_at(low, seq![0x5Cu8, 0x6Eu8, 0x6Fu8, 0x64u8, 0x65u8], low.len() - 5)
}

/// Decides whether a token looks like a spawnable worker executable.
pub fn is_worker_candidate(t: &[u8]) -> (r: bool)
    ensures
        r == worker_candidate_spec(t@),
{
    let low = crate::text::lower_copy(t);
    let exe: [u8; 4] = [0x2E, 0x65, 0x78, 0x65];
    let node: [u8; 4] = [0x6E, 0x6F, 0x64, 0x65];
    let bs_node: [u8; 5] = [0x5C, 0x6E, 0x6F, 0x64, 0x65];
    proof {
        assert(exe@ =~= seq![0x2Eu8, 0x65u8, 0x78u8, 0x65u8]);
        assert(node@ =~= seq![0x6Eu8, 0x6Fu8, 0x64u8, 0x65u8]);
        assert(bs_node@ =~= seq![0x5Cu8, 0x6Eu8, 0x6Fu8, 0x64u8, 0x65u8]);
    }
    let ends_exe = crate::text::ends_with_bytes(low.as_slice(), exe.as_slice());
    let is_node = low.len() == 4 && crate::text::starts_with_bytes(low.as_slice(), node.as_slice());
    let ends_bs_node = crate::text::ends_with_bytes(low.as_slice(), bs_node.as_slice());
    proof {
        if is_node {
            assert(low@ =~= seq![0x6Eu8, 0x6Fu8, 0x64u8, 0x65u8]);
        }
        if low@ =~= seq![0x6Eu8, 0x6Fu8, 0x64u8, 0x65u8] {
            assert(low@.len() == 4);
            assert(matches_at(low@, node@, 0));
        }
    }
    ends_exe || is_node || ends_bs_node
}

/// The tokens of a command line that look like spawnable workers, in
/// order.
pub open spec fn candidates_of(tokens: Seq<Seq<u8>>) -> Seq<Seq<u8>>
    decreases tokens.len(),
{
    if tokens.len() == 0 {
        Seq::empty()
    } else {
        let prefix = candidates_of(tokens.drop_last());
        if worker_candidate_spec(tokens.last()) {
            prefix.push(tokens.last())
        } else {
            prefix
        }
    }
}

/// Filters a tokenized command line down to the tokens worth attempting
/// an independent spawn of, keeping their order: the platform layer tries
/// them one by one and the first to come back with all three pipes wins.
pub fn worker_candidates(tokens: &Vec<Vec<u8>>) -> (r: Vec<Vec<u8>>)
    ensures
        r.deep_view() == candidates_of(tokens.deep_view()),
{
    let mut out: Vec<Vec<u8>> = Vec::new();
    let n = tokens.len();
    proof {
        assert(out.deep_view() =~= candidates_of(tokens.deep_view().take(0)));
    }
    for i in 0..n
        invariant
            n == tokens@.len(),
            out.deep_view() == candidates_of(tokens.deep_view().take(i as int)),
    {
        proof {
            assert(tokens.deep_view().take(i + 1).drop_last() =~= tokens.deep_view().take(
                i as int,
            ));
            assert(tokens.deep_view().take(i + 1).last() == tokens.deep_view()[i as int]);
            assert(tokens.deep_view()[i as int] =~= tokens@[i as int]@);
        }
        if is_worker_candidate(tokens[i].as_slice()) {
            let ghost before = out.deep_view();
            let mut copy: Vec<u8> = Vec::new();
            crate::text::push_all(&mut copy, tokens[i].as_slice());
            assert(copy@ =~= tokens@[i as int]@);
            let ghost cv = copy@;
            out.push(copy);
            proof {
                assert(out.deep_view() =~~= before.push(cv));
            }
        }
    }
    proof {
        assert(tokens.deep_view().take(n as int) =~= tokens.deep_view());
    }
    out
}

/// What a process-listing line denotes: a pid when, after trimming
/// whitespace, it is a nonempty run of decimal digits whose value fits in
/// 32 bits; nothing otherwise.
pub open spec fn pid_of_line(l: Seq<u8>) -> Option<u32> {
    let t = trim_spec(l);
    if t.len() > 0 && is_digits(t) && 0 <= digits_val(t) <= u32::MAX {
        Some(digits_val(t) as u32)
    } else {
        None
    }
}

/// The pid of the first line that names one.
pub open spec fn first_listed_pid(lines: Seq<Seq<u8>>) -> Option<u32>
    decreases lines.len(),
{
    if lines.len() == 0 {
        None
    } else if pid_of_line(lines.first()) is Some {
        pid_of_line(lines.first())
    } else {
        first_listed_pid(lines.drop_first())
    }
}

/// Skipping lines that name no pid does not change the outcome.
proof fn lemma_first_pid_skip(lines: Seq<Seq<u8>>, i: int)
    requires
        0 <= i <= lines.len(),
        forall|j: int| 0 <= j < i ==> pid_of_line(#[trigger] lines[j]) is None,
    ensures
        first_listed_pid(lines) == first_listed_pid(lines.skip(i)),
    decreases i,
{
    if i == 0 {
        assert(lines.skip(0) =~= lines);
    } else {
        assert(pid_of_line(lines[0]) is None);
        assert(lines.first() == lines[0]);
        assert(lines.drop_first() =~= lines.skip(1));
        lemma_first_pid_skip(lines.skip(1), i - 1);
        assert forall|j: int| 0 <= j < i - 1 implies pid_of_line(
            #[trigger] lines.skip(1)[j],
        ) is None by {
            assert(lines.skip(1)[j] == lines[j + 1]);
        }
        assert(lines.skip(1).skip(i - 1) =~= lines.skip(i));
    }
}

/// The first pid named by a line of the listing text, if any line names
/// one.
pub fn first_pid_in_text(text: &[u8]) -> (r: Option<u32>)
    ensures
        r == first_listed_pid(all_lines(text@)),
{
    let lines = crate::buffer::split_text_lines(text);
    let ghost all = all_lines(text@);
    let n = lines.len();
    for i in 0..n
        invariant
            n == lines@.len(),
            lines.deep_view() == all,
            all == all_lines(text@),
            forall|j: int| 0 <= j < i ==> pid_of_line(#[trigger] all[j]) is None,
    {
        proof {
            assert(all[i as int] =~= lines@[i as int]@);
        }
        let trimmed = crate::text::trim_bytes(lines[i].as_slice());
        match crate::text::parse_u32(trimmed.as_slice()) {
            Some(v) => {
                proof {
                    assert(pid_of_line(all[i as int]) == Some(v));
                    lemma_first_pid_skip(all, i as int);
                    assert(all.skip(i as int).first() == all[i as int]);
                    assert(all.skip(i as int).len() > 0);
                }
                return Some(v);
            },
            None => {
                assert(pid_of_line(all[i as int]) is None);
            },
        }
    }
    proof {
        lemma_first_pid_skip(all, all.len() as int);
        assert(all.skip(all.len() as int) =~= Seq::<Seq<u8>>::empty());
    }
    None
}

/// The registry-bookkeeping half of worker discovery after a spawn: the
/// first enumerated descendant of the wrapper wins; failing that, the
/// first pid named by the raw process-listing text the platform layer
/// obtained for the wrapper's direct children.
pub fn discover_worker_after_spawn(descendants: &Vec<u32>, listing: &[u8]) -> (r: Option<u32>)
    ensures
        descendants@.len() > 0 ==> r == Some(descendants@[0]),
        descendants@.len() == 0 ==> r == first_listed_pid(all_lines(listing@)),
{
    if descendants.len() > 0 {
        Some(descendants[0])
    } else {
        first_pid_in_text(listing)
    }
}

} // verus!
