//! Ordered output buffers and the line-splitting core of the stream pumps.
//!
//! A pump reads one byte stream of the supervised process to completion.  Its
//! verified core is [`LineAccumulator`]: raw chunks go in, complete decoded
//! lines come out, split exactly at newline bytes, with a trailing carriage
//! return stripped from each line.  The shared [`OutputBuffer`] holds the two
//! ordered line sequences (stdout, stderr); it is append-only during a
//! session and cleared only by explicit request.

use vstd::prelude::*;

verus! {

/// Line feed, the byte a line ends on.
pub const LINE_FEED: u8 = 0x0A;

/// Carriage return, stripped when it ends a line.
pub const CARRIAGE_RETURN: u8 = 0x0D;

/// `l` without its trailing carriage return, if it has one.
pub open spec fn strip_cr(l: Seq<u8>) -> Seq<u8> {
    if l.len() > 0 && l.last() == CARRIAGE_RETURN {
        l.drop_last()
    } else {
        l
    }
}

/// The bytes of `s` after its last line feed: the part of a stream that is
/// not yet a complete line.
pub open spec fn pending_bytes(s: Seq<u8>) -> Seq<u8>
    decreases s.len(),
{
    if s.len() == 0 {
        Seq::empty()
    } else if s.last() == LINE_FEED {
        Seq::empty()
    } else {
        pending_bytes(s.drop_last()).push(s.last())
    }
}

/// The complete lines of `s`, in emission order: one line per line feed,
/// each with a trailing carriage return stripped.
pub open spec fn complete_lines(s: Seq<u8>) -> Seq<Seq<u8>>
    decreases s.len(),
{
    if s.len() == 0 {
        Seq::empty()
    } else {
        let before = complete_lines(s.drop_last());
        if s.last() == LINE_FEED {
            before.push(strip_cr(pending_bytes(s.drop_last())))
        } else {
            before
        }
    }
}

/// A byte sequence without line feeds is all pending and yields no line.
proof fn lemma_no_line_feed(s: Seq<u8>)
    requires
        forall|i: int| 0 <= i < s.len() ==> s[i] != LINE_FEED,
    ensures
        pending_bytes(s) == s,
        complete_lines(s) == Seq::<Seq<u8>>::empty(),
    decreases s.len(),
{
    if s.len() > 0 {
        lemma_no_line_feed(s.drop_last());
        assert(pending_bytes(s.drop_last()).push(s.last()) =~= s);
    }
}

/// Splits one byte stream into lines incrementally.  Bytes that have not
/// yet been terminated by a line feed stay pending until the next chunk.
pub struct LineAccumulator {
    pending: Vec<u8>,
}

impl LineAccumulator {
    /// The bytes received since the last complete line.
    pub closed spec fn pending_view(&self) -> Seq<u8> {
        self.pending@
    }

    /// Well-formedness: no pending byte is a line feed.
    pub open spec fn wf(&self) -> bool {
        forall|i: int| 0 <= i < self.pending_view().len() ==> self.pending_view()[i] != LINE_FEED
    }

    /// A fresh accumulator with nothing pending.
    pub fn new() -> (r: Self)
        ensures
            r.wf(),
            r.pending_view() == Seq::<u8>::empty(),
    {
        LineAccumulator { pending: Vec::new() }
    }

    /// Consumes one chunk of the stream and returns the lines it completes,
    /// in order.  Exactly the lines of the pending bytes followed by the
    /// chunk are returned; what follows the last line feed stays pending.
    pub fn feed(&mut self, chunk: &[u8]) -> (lines: Vec<Vec<u8>>)
        requires
            old(self).wf(),
        ensures
            final(self).wf(),
            lines.deep_view() == complete_lines(old(self).pending_view() + chunk@),
            final(self).pending_view() == pending_bytes(old(self).pending_view() + chunk@),
    {
        let ghost base = self.pending@;
        proof {
            assert forall|i: int| 0 <= i < base.len() implies base[i] != LINE_FEED by {
                assert(old(self).pending_view()[i] != LINE_FEED);
            }
            lemma_no_line_feed(base);
            assert(base + chunk@.take(0) =~= base);
        }
        let mut lines: Vec<Vec<u8>> = Vec::new();
        let n = chunk.len();
        for i in 0..n
            invariant
                n == chunk@.len(),
                lines.deep_view() == complete_lines(base + chunk@.take(i as int)),
                self.pending@ == pending_bytes(base + chunk@.take(i as int)),
                forall|k: int| 0 <= k < self.pending@.len() ==> self.pending@[k] != LINE_FEED,
        {
            let ghost prev = base + chunk@.take(i as int);
            proof {
                assert((base + chunk@.take(i + 1)).drop_last() =~= prev);
                assert((base + chunk@.take(i + 1)).last() == chunk@[i as int]);
            }
            let b = chunk[i];
            if b == LINE_FEED {
                let ghost before = lines.deep_view();
                let mut line: Vec<u8> = Vec::new();
                core::mem::swap(&mut line, &mut self.pending);
                if line.len() > 0 && line[line.len() - 1] == CARRIAGE_RETURN {
                    line.pop();
                }
                assert(line@ =~= strip_cr(pending_bytes(prev)));
                let ghost line_view = line@;
                lines.push(line);
                proof {
                    assert(lines.deep_view() =~~= before.push(line_view));
                }
            } else {
                self.pending.push(b);
            }
        }
        proof {
            assert(base + chunk@.take(n as int) =~= base + chunk@);
        }
        lines
    }

    /// Consumes the accumulator, handing back the bytes after the last
    /// line feed: the final, unterminated line of the stream.
    pub fn into_pending(self) -> (r: Vec<u8>)
        ensures
            r@ == self.pending_view(),
    {
        self.pending
    }
}

/// The lines of a whole text, including a final line not ended by a line
/// feed.
pub open spec fn all_lines(s: Seq<u8>) -> Seq<Seq<u8>> {
    if pending_bytes(s).len() == 0 {
        complete_lines(s)
    } else {
        complete_lines(s).push(strip_cr(pending_bytes(s)))
    }
}

/// Splits a whole text into its lines.
pub fn split_text_lines(text: &[u8]) -> (lines: Vec<Vec<u8>>)
    ensures
        lines.deep_view() == all_lines(text@),
{
    let mut acc = LineAccumulator::new();
    proof {
        assert(Seq::<u8>::empty() + text@ =~= text@);
    }
    let mut lines = acc.feed(text);
    let trailing = acc.into_pending();
    if trailing.len() > 0 {
        let ghost lv = lines.deep_view();
        let mut t = trailing;
        if t[t.len() - 1] == CARRIAGE_RETURN {
            t.pop();
        }
        assert(t@ =~= strip_cr(pending_bytes(text@)));
        let ghost tv = t@;
        lines.push(t);
        proof {
            assert(lines.deep_view() =~~= lv.push(tv));
        }
    }
    proof {
        assert(lines.deep_view() =~~= all_lines(text@));
    }
    lines
}

/// The two ordered line buffers of a session: stdout lines and stderr
/// lines.  Appended to by the pumps, read as a snapshot, cleared only by
/// explicit request; no line is ever reordered or dropped.
pub struct OutputBuffer {
    stdout_lines: Vec<String>,
    stderr_lines: Vec<String>,
}

impl OutputBuffer {
    /// The stdout lines, in emission order.
    pub closed spec fn stdout_view(&self) -> Seq<Seq<char>> {
        self.stdout_lines.deep_view()
    }

    /// The stderr lines, in emission order.
    pub closed spec fn stderr_view(&self) -> Seq<Seq<char>> {
        self.stderr_lines.deep_view()
    }

    /// A fresh, empty pair of buffers.
    pub fn new() -> (r: Self)
        ensures
            r.stdout_view() == Seq::<Seq<char>>::empty(),
            r.stderr_view() == Seq::<Seq<char>>::empty(),
    {
        let r = OutputBuffer { stdout_lines: Vec::new(), stderr_lines: Vec::new() };
        proof {
            assert(r.stdout_view() =~= Seq::<Seq<char>>::empty());
            assert(r.stderr_view() =~= Seq::<Seq<char>>::empty());
        }
        r
    }

    /// Appends one line to the stdout sequence.
    pub fn push_stdout(&mut self, line: String)
        ensures
            final(self).stdout_view() == old(self).stdout_view().push(line@),
            final(self).stderr_view() == old(self).stderr_view(),
    {
        let ghost before = self.stdout_lines.deep_view();
        let ghost line_view = line@;
        self.stdout_lines.push(line);
        proof {
            assert(self.stdout_lines.deep_view() =~= before.push(line_view));
        }
    }

    /// Appends one line to the stderr sequence.
    pub fn push_stderr(&mut self, line: String)
        ensures
            final(self).stderr_view() == old(self).stderr_view().push(line@),
            final(self).stdout_view() == old(self).stdout_view(),
    {
        let ghost before = self.stderr_lines.deep_view();
        let ghost line_view = line@;
        self.stderr_lines.push(line);
        proof {
            assert(self.stderr_lines.deep_view() =~= before.push(line_view));
        }
    }

    /// A snapshot copy of both buffers, without affecting them.
    pub fn snapshot(&self) -> (r: (Vec<String>, Vec<String>))
        ensures
            r.0.deep_view() == self.stdout_view(),
            r.1.deep_view() == self.stderr_view(),
    {
        let out = self.stdout_lines.clone();
        let err = self.stderr_lines.clone();
        proof {
            lemma_string_vec_clone_view(&self.stdout_lines, &out);
            lemma_string_vec_clone_view(&self.stderr_lines, &err);
        }
        (out, err)
    }

    /// Empties both buffers.
    pub fn clear(&mut self)
        ensures
            final(self).stdout_view() == Seq::<Seq<char>>::empty(),
            final(self).stderr_view() == Seq::<Seq<char>>::empty(),
    {
        self.stdout_lines.clear();
        self.stderr_lines.clear();
        proof {
            assert(self.stdout_lines.deep_view() =~= Seq::<Seq<char>>::empty());
            assert(self.stderr_lines.deep_view() =~= Seq::<Seq<char>>::empty());
        }
    }
}

/// A clone of a vector of strings has the same view, element by element.
proof fn lemma_string_vec_clone_view(a: &Vec<String>, b: &Vec<String>)
    requires
        a.len() == b.len(),
        forall|i: int| #![all_triggers] 0 <= i < a.len() ==> cloned::<String>(a[i], b[i]),
    ensures
        b.deep_view() == a.deep_view(),
{
    assert forall|i: int| 0 <= i < a.len() implies a@[i] == b@[i] by {
        assert(cloned::<String>(a[i], b[i]));
    }
    assert(b.deep_view() =~= a.deep_view());
}

} // verus!
