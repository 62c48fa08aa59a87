//! Registry of supervised worker processes.
//!
//! Each successful registration maps a caller-supplied session identifier to
//! an operating-system process id and is issued a run identifier.  Run
//! identifiers start from a large fixed base (visually distinguishable from
//! small OS pids in diagnostics) and increase strictly with every
//! registration for the whole lifetime of the registry, so they are never
//! reused even after an unregistration.

use vstd::prelude::*;

verus! {

/// The first run identifier a fresh registry issues.
pub const RUN_ID_BASE: i64 = 1_000_000;

/// One successful registration: a run identifier, the discovered worker's
/// OS process id, and the caller's session identifier.
#[derive(Debug)]
pub struct ProcessInfo {
    pub run_id: i64,
    pub pid: u32,
    pub session_id: String,
}

/// Maps session identifiers to worker process ids, issuing a strictly
/// increasing run identifier per registration.
pub struct ProcessRegistry {
    records: Vec<ProcessInfo>,
    next_id: i64,
    issued: Ghost<Seq<i64>>,
}

/// `s` is a strictly increasing sequence of identifiers.
pub open spec fn ids_strictly_increasing(s: Seq<i64>) -> bool {
    forall|i: int, j: int|
        #![trigger s[i], s[j]]
        0 <= i < j < s.len() ==> s[i] < s[j]
}

/// The run identifiers of `s` are strictly increasing with position.
pub open spec fn records_strictly_increasing(s: Seq<ProcessInfo>) -> bool {
    forall|i: int, j: int|
        #![trigger s[i].run_id, s[j].run_id]
        0 <= i < j < s.len() ==> s[i].run_id < s[j].run_id
}

/// The records that remain after every record carrying `sid` is removed,
/// in their original order.
pub open spec fn remove_session(s: Seq<ProcessInfo>, sid: Seq<char>) -> Seq<ProcessInfo>
    decreases s.len(),
{
    if s.len() == 0 {
        Seq::empty()
    } else {
        let prefix = remove_session(s.drop_last(), sid);
        if s.last().session_id@ == sid {
            prefix
        } else {
            prefix.push(s.last())
        }
    }
}

/// Every element of `remove_session(s, sid)` is an element of `s`.
proof fn lemma_remove_session_subset(s: Seq<ProcessInfo>, sid: Seq<char>)
    ensures
        forall|k: int|
            0 <= k < remove_session(s, sid).len() ==> s.contains(
                #[trigger] remove_session(s, sid)[k],
            ),
    decreases s.len(),
{
    if s.len() > 0 {
        lemma_remove_session_subset(s.drop_last(), sid);
        assert forall|k: int| 0 <= k < remove_session(s, sid).len() implies s.contains(
            remove_session(s, sid)[k],
        ) by {
            let r = remove_session(s, sid);
            let prefix = remove_session(s.drop_last(), sid);
            if k < prefix.len() {
                let j = choose|j: int| 0 <= j < s.drop_last().len() && s.drop_last()[j] == prefix[k];
                assert(s[j] == prefix[k]);
            } else {
                assert(r[k] == s.last());
                assert(s[s.len() - 1] == s.last());
            }
        }
    }
}

impl ProcessRegistry {
    /// The registered records, in registration order.
    pub closed spec fn records_seq(&self) -> Seq<ProcessInfo> {
        self.records@
    }

    /// The run identifier the next registration will be issued.
    pub closed spec fn next_run_id(&self) -> i64 {
        self.next_id
    }

    /// Every run identifier ever issued, in issue order.
    pub closed spec fn issued_ids(&self) -> Seq<i64> {
        self.issued@
    }

    /// Well-formedness: run identifiers start at the base, the issue history
    /// is strictly increasing below the next identifier, and the live
    /// records carry strictly increasing identifiers in the same range.
    pub open spec fn wf(&self) -> bool {
        &&& RUN_ID_BASE <= self.next_run_id()
        &&& ids_strictly_increasing(self.issued_ids())
        &&& forall|i: int|
            0 <= i < self.issued_ids().len() ==> RUN_ID_BASE <= #[trigger] self.issued_ids()[i]
                < self.next_run_id()
        &&& records_strictly_increasing(self.records_seq())
        &&& forall|i: int|
            0 <= i < self.records_seq().len() ==> RUN_ID_BASE
                <= #[trigger] self.records_seq()[i].run_id < self.next_run_id()
    }

    /// A fresh registry: no records, no issued identifiers.
    pub fn new() -> (r: Self)
        ensures
            r.wf(),
            r.records_seq() == Seq::<ProcessInfo>::empty(),
            r.issued_ids() == Seq::<i64>::empty(),
            r.next_run_id() == RUN_ID_BASE,
    {
        ProcessRegistry { records: Vec::new(), next_id: RUN_ID_BASE, issued: Ghost(Seq::empty()) }
    }

    /// Registers a discovered worker under `session_id`, issuing the next
    /// run identifier.  Fails only when the identifier space is exhausted,
    /// which cannot occur in any realistic runtime.
    pub fn register_claude_session(&mut self, session_id: String, pid: u32) -> (r: Result<
        i64,
        String,
    >)
        requires
            old(self).wf(),
        ensures
            final(self).wf(),
            old(self).next_run_id() < i64::MAX ==> {
                &&& r matches Ok(id) && id == old(self).next_run_id()
                &&& final(self).records_seq() == old(self).records_seq().push(
                    ProcessInfo { run_id: old(self).next_run_id(), pid, session_id },
                )
                &&& final(self).issued_ids() == old(self).issued_ids().push(
                    old(self).next_run_id(),
                )
                &&& final(self).next_run_id() == old(self).next_run_id() + 1
            },
            old(self).next_run_id() == i64::MAX ==> r is Err && *final(self) == *old(self),
    {
        if self.next_id == i64::MAX {
            return Err(String::from_str("run identifier space exhausted"));
        }
        let run_id = self.next_id;
        self.next_id = self.next_id + 1;
        self.records.push(ProcessInfo { run_id, pid, session_id });
        self.issued = Ghost(self.issued@.push(run_id));
        proof {
            let q0 = old(self).issued@;
            let q1 = self.issued@;
            assert forall|i: int, j: int|
                #![trigger q1[i], q1[j]]
                0 <= i < j < q1.len() implies q1[i] < q1[j] by {
                if j == q1.len() - 1 {
                    assert(q1[i] == q0[i]);
                    assert(q1[j] == run_id);
                }
            }
            let r0 = old(self).records@;
            let r1 = self.records@;
            assert forall|i: int, j: int|
                #![trigger r1[i].run_id, r1[j].run_id]
                0 <= i < j < r1.len() implies r1[i].run_id < r1[j].run_id by {
                if j == r1.len() - 1 {
                    assert(r1[i] == r0[i]);
                    assert(r1[j].run_id == run_id);
                }
            }
        }
        Ok(run_id)
    }

    /// Removes every record registered under `session_id`.  Run identifiers
    /// of removed records are never reissued.
    pub fn unregister(&mut self, session_id: &str)
        requires
            old(self).wf(),
        ensures
            final(self).wf(),
            final(self).records_seq() == remove_session(
                old(self).records_seq(),
                session_id@,
            ),
            final(self).issued_ids() == old(self).issued_ids(),
            final(self).next_run_id() == old(self).next_run_id(),
    {
        let ghost orig = self.records@;
        let mut kept: Vec<ProcessInfo> = Vec::new();
        let n = self.records.len();
        for i in 0..n
            invariant
                n == orig.len(),
                self.records@ == orig,
                kept@ == remove_session(orig.take(i as int), session_id@),
        {
            proof {
                assert(orig.take(i + 1).drop_last() =~= orig.take(i as int));
                assert(orig.take(i + 1).last() == orig[i as int]);
            }
            let rec = &self.records[i];
            if !str_eq_str(rec.session_id.as_str(), session_id) {
                let copy = ProcessInfo {
                    run_id: rec.run_id,
                    pid: rec.pid,
                    session_id: rec.session_id.clone(),
                };
                assert(copy == orig[i as int]);
                kept.push(copy);
            }
        }
        proof {
            assert(orig.take(n as int) =~= orig);
            lemma_remove_session_subset(orig, session_id@);
            let r = remove_session(orig, session_id@);
            assert forall|i: int, j: int|
                #![trigger r[i].run_id, r[j].run_id]
                0 <= i < j < r.len() implies r[i].run_id < r[j].run_id by {
                assert(records_strictly_increasing(orig));
                assert forall|a: int, b: int| 0 <= a < b < orig.len() implies orig[a].run_id
                    < orig[b].run_id by {
                    assert(orig[a].run_id < orig[b].run_id);
                }
                lemma_remove_session_order(orig, session_id@, i, j);
            }
            assert forall|k: int| 0 <= k < r.len() implies RUN_ID_BASE <= #[trigger] r[k].run_id
                < self.next_id by {
                let m = choose|m: int| 0 <= m < orig.len() && orig[m] == r[k];
                assert(RUN_ID_BASE <= orig[m].run_id < self.next_id);
            }
        }
        self.records = kept;
    }

    /// A snapshot of all live records, in registration order.
    pub fn get_all(&self) -> (r: Result<Vec<ProcessInfo>, String>)
        requires
            self.wf(),
        ensures
            r matches Ok(v) && v@ == self.records_seq(),
    {
        let mut out: Vec<ProcessInfo> = Vec::new();
        let n = self.records.len();
        for i in 0..n
            invariant
                n == self.records@.len(),
                out@ == self.records@.take(i as int),
        {
            let rec = &self.records[i];
            let copy = ProcessInfo {
                run_id: rec.run_id,
                pid: rec.pid,
                session_id: rec.session_id.clone(),
            };
            assert(copy == self.records@[i as int]);
            proof {
                assert(self.records@.take(i + 1) =~= self.records@.take(i as int).push(
                    self.records@[i as int],
                ));
            }
            out.push(copy);
        }
        proof {
            assert(self.records@.take(n as int) =~= self.records@);
        }
        Ok(out)
    }
}

/// In a well-formed registry the records preserved by an unregistration
/// keep strictly increasing run identifiers: positions `i < j` of the
/// remaining sequence carry increasing identifiers.
proof fn lemma_remove_session_order(s: Seq<ProcessInfo>, sid: Seq<char>, i: int, j: int)
    requires
        forall|a: int, b: int| 0 <= a < b < s.len() ==> s[a].run_id < s[b].run_id,
        0 <= i < j < remove_session(s, sid).len(),
    ensures
        remove_session(s, sid)[i].run_id < remove_session(s, sid)[j].run_id,
    decreases s.len(),
{
    let r = remove_session(s, sid);
    let prefix = remove_session(s.drop_last(), sid);
    if j < prefix.len() {
        lemma_remove_session_order(s.drop_last(), sid, i, j);
    } else {
        // r ends with s.last(); every prefix element comes from s.drop_last()
        lemma_remove_session_subset(s.drop_last(), sid);
        let k = choose|k: int| 0 <= k < s.drop_last().len() && s.drop_last()[k] == prefix[i];
        assert(s[k] == prefix[i]);
        assert(s[k].run_id < s[s.len() - 1].run_id);
        assert(r[j] == s.last());
    }
}

/// Run identifiers issued by a well-formed registry are strictly
/// increasing across its whole history: no identifier is ever repeated,
/// and later registrations always receive larger identifiers.
pub proof fn lemma_run_ids_strictly_increasing(reg: &ProcessRegistry)
    requires
        reg.wf(),
    ensures
        forall|i: int, j: int|
            0 <= i < j < reg.issued_ids().len() ==> reg.issued_ids()[i] < reg.issued_ids()[j],
        forall|i: int, j: int|
            0 <= i < j < reg.issued_ids().len() ==> reg.issued_ids()[i] != reg.issued_ids()[j],
{
}

/// String equality by contents.  Relies on `str`'s `PartialEq`
/// implementation in std, which compares the character sequences.
#[verifier::external_body]
fn str_eq_str(a: &str, b: &str) -> (r: bool)
    ensures
        r == (a@ == b@),
{
    a == b
}

} // verus!
