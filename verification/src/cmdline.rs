//! Command-line text: splitting a process listing's command line into
//! tokens, and reconstructing a single shell command line for the shell
//! fallback stage.

use vstd::prelude::*;
use crate::text::is_ascii_ws;

verus! {

/// The tokens of `s` from a state where `in_quote` says whether a double
/// quote is open and `cur` holds the token accumulated so far.  Double
/// quotes toggle the quote state and never reach a token; whitespace splits
/// tokens only outside quotes.
pub open spec fn tokenize_spec(s: Seq<u8>, in_quote: bool, cur: Seq<u8>) -> Seq<Seq<u8>>
    decreases s.len(),
{
    if s.len() == 0 {
        if cur.len() > 0 {
            seq![cur]
        } else {
            Seq::empty()
        }
    } else {
        let c = s.first();
        let rest = s.drop_first();
        if c == 0x22 {
            tokenize_spec(rest, !in_quote, cur)
        } else if is_ascii_ws(c) && !in_quote {
            if cur.len() > 0 {
                seq![cur] + tokenize_spec(rest, in_quote, Seq::empty())
            } else {
                tokenize_spec(rest, in_quote, Seq::empty())
            }
        } else {
            tokenize_spec(rest, in_quote, cur.push(c))
        }
    }
}

/// Splits a command line into whitespace-separated tokens, honouring
/// double-quoted sections.
pub fn tokenize_commandline(cmd: &[u8]) -> (tokens: Vec<Vec<u8>>)
    ensures
        tokens.deep_view() == tokenize_spec(cmd@, false, Seq::empty()),
{
    let mut tokens: Vec<Vec<u8>> = Vec::new();
    let mut current: Vec<u8> = Vec::new();
    let mut in_quote = false;
    let n = cmd.len();
    proof {
        assert(cmd@.skip(0) =~= cmd@);
        assert(tokens.deep_view() =~= Seq::<Seq<u8>>::empty());
    }
    for i in 0..n
        invariant
            n == cmd@.len(),
            tokenize_spec(cmd@, false, Seq::empty()) == tokens.deep_view() + tokenize_spec(
                cmd@.skip(i as int),
                in_quote,
                current@,
            ),
    {
        let ghost q0 = in_quote;
        let ghost cur0 = current@;
        proof {
            assert(cmd@.skip(i as int).len() > 0);
            assert(cmd@.skip(i as int).first() == cmd@[i as int]);
            assert(cmd@.skip(i as int).drop_first() =~= cmd@.skip(i + 1));
        }
        let c = cmd[i];
        if c == 0x22 {
            in_quote = !in_quote;
            proof {
                assert(tokenize_spec(cmd@.skip(i as int), q0, cur0) == tokenize_spec(
                    cmd@.skip(i + 1),
                    in_quote,
                    current@,
                ));
            }
        } else if crate::text::is_whitespace_byte(c) && !in_quote {
            if current.len() > 0 {
                let ghost toks_before = tokens.deep_view();
                let ghost cur_view = current@;
                let mut done: Vec<u8> = Vec::new();
                core::mem::swap(&mut done, &mut current);
                tokens.push(done);
                proof {
                    assert(tokens.deep_view() =~~= toks_before.push(cur_view));
                    assert(toks_before.push(cur_view) + tokenize_spec(
                        cmd@.skip(i + 1),
                        in_quote,
                        Seq::empty(),
                    ) =~= toks_before + (seq![cur_view] + tokenize_spec(
                        cmd@.skip(i + 1),
                        in_quote,
                        Seq::empty(),
                    )));
                    assert(tokenize_spec(cmd@.skip(i as int), q0, cur0) == seq![cur0]
                        + tokenize_spec(cmd@.skip(i + 1), in_quote, current@));
                }
            } else {
                proof {
                    assert(cur0 =~= Seq::<u8>::empty());
                    assert(tokenize_spec(cmd@.skip(i as int), q0, cur0) == tokenize_spec(
                        cmd@.skip(i + 1),
                        in_quote,
                        current@,
                    ));
                }
            }
        } else {
            current.push(c);
            proof {
                assert(current@ == cur0.push(c));
                assert(tokenize_spec(cmd@.skip(i as int), q0, cur0) == tokenize_spec(
                    cmd@.skip(i + 1),
                    in_quote,
                    current@,
                ));
            }
        }
    }
    proof {
        assert(cmd@.skip(n as int) =~= Seq::<u8>::empty());
    }
    if current.len() > 0 {
        let ghost toks_before = tokens.deep_view();
        let ghost cur_view = current@;
        tokens.push(current);
        proof {
            assert(tokens.deep_view() =~~= toks_before.push(cur_view));
            assert(toks_before.push(cur_view) =~= toks_before + seq![cur_view]);
        }
    } else {
        proof {
            assert(tokens.deep_view() + Seq::<Seq<u8>>::empty() =~= tokens.deep_view());
        }
    }
    tokens
}

/// An argument must be wrapped in quotes when it is empty or contains
/// whitespace or a double quote.
pub open spec fn needs_quoting(a: Seq<u8>) -> bool {
    a.len() == 0 || exists|i: int| 0 <= i < a.len() && (is_ascii_ws(#[trigger] a[i]) || a[i] == 0x22)
}

/// `a` with every double quote preceded by a backslash.
pub open spec fn escape_quotes(a: Seq<u8>) -> Seq<u8>
    decreases a.len(),
{
    if a.len() == 0 {
        Seq::empty()
    } else {
        let p = escape_quotes(a.drop_last());
        if a.last() == 0x22 {
            p + seq![0x5Cu8, 0x22u8]
        } else {
            p.push(a.last())
        }
    }
}

/// `a` as a single shell word: unchanged when harmless, otherwise wrapped
/// in double quotes with embedded quotes escaped.
pub open spec fn quoted_arg(a: Seq<u8>) -> Seq<u8> {
    if needs_quoting(a) {
        seq![0x22u8] + escape_quotes(a) + seq![0x22u8]
    } else {
        a
    }
}

/// The executable followed by each argument as a shell word, separated by
/// single spaces.
pub open spec fn join_spec(exe: Seq<u8>, args: Seq<Seq<u8>>) -> Seq<u8>
    decreases args.len(),
{
    if args.len() == 0 {
        exe
    } else {
        join_spec(exe, args.drop_last()) + seq![0x20u8] + quoted_arg(args.last())
    }
}

/// Appends `quoted_arg(a@)` to `out`.
fn push_quoted(out: &mut Vec<u8>, a: &[u8])
    ensures
        final(out)@ == old(out)@ + quoted_arg(a@),
{
    let ghost base = out@;
    let n = a.len();
    let mut needs = n == 0;
    let mut i: usize = 0;
    while i < n
        invariant
            n == a@.len(),
            i <= n,
            n == 0 ==> needs,
            needs ==> needs_quoting(a@),
            !needs ==> forall|j: int|
                0 <= j < i ==> !(is_ascii_ws(#[trigger] a@[j]) || a@[j] == 0x22),
        decreases n - i,
    {
        let b = a[i];
        if crate::text::is_whitespace_byte(b) || b == 0x22 {
            needs = true;
            i = n;
        } else {
            i = i + 1;
        }
    }
    if !needs {
        proof {
            assert(!needs_quoting(a@)) by {
                if a@.len() != 0 && needs_quoting(a@) {
                    let w = choose|w: int|
                        0 <= w < a@.len() && (is_ascii_ws(a@[w]) || a@[w] == 0x22);
                    assert(!(is_ascii_ws(a@[w]) || a@[w] == 0x22));
                }
            }
        }
        let mut k: usize = 0;
        while k < n
            invariant
                n == a@.len(),
                k <= n,
                out@ == base + a@.take(k as int),
            decreases n - k,
        {
            out.push(a[k]);
            proof {
                assert(base + a@.take(k + 1) =~= (base + a@.take(k as int)).push(a@[k as int]));
            }
            k = k + 1;
        }
        proof {
            assert(base + a@.take(n as int) =~= base + quoted_arg(a@));
        }
    } else {
        out.push(0x22);
        let mut k: usize = 0;
        while k < n
            invariant
                n == a@.len(),
                k <= n,
                out@ == base + seq![0x22u8] + escape_quotes(a@.take(k as int)),
            decreases n - k,
        {
            proof {
                assert(a@.take(k + 1).drop_last() =~= a@.take(k as int));
                assert(a@.take(k + 1).last() == a@[k as int]);
            }
            let b = a[k];
            if b == 0x22 {
                out.push(0x5C);
                out.push(0x22);
                proof {
                    assert(out@ =~= base + seq![0x22u8] + escape_quotes(a@.take(k + 1)));
                }
            } else {
                out.push(b);
                proof {
                    assert(out@ =~= base + seq![0x22u8] + escape_quotes(a@.take(k + 1)));
                }
            }
            k = k + 1;
        }
        out.push(0x22);
        proof {
            assert(a@.take(n as int) =~= a@);
            assert(out@ =~= base + quoted_arg(a@));
        }
    }
}

/// Reconstructs the single command line handed to a system shell in the
/// fallback stage: the executable name, then each argument quoted as a
/// shell word.  Arguments containing whitespace or quotes are wrapped in
/// double quotes with embedded quotes backslash-escaped, so a later word
/// split by the shell recovers the original arguments.
pub fn join_command_line(exe: &[u8], args: &Vec<Vec<u8>>) -> (r: Vec<u8>)
    ensures
        r@ == join_spec(exe@, args.deep_view()),
{
    let mut out: Vec<u8> = Vec::new();
    let n = exe.len();
    for i in 0..n
        invariant
            n == exe@.len(),
            out@ == exe@.take(i as int),
    {
        out.push(exe[i]);
        proof {
            assert(exe@.take(i + 1) =~= exe@.take(i as int).push(exe@[i as int]));
        }
    }
    proof {
        assert(exe@.take(n as int) =~= exe@);
    }
    let m = args.len();
    for t in 0..m
        invariant
            m == args@.len(),
            out@ == join_spec(exe@, args.deep_view().take(t as int)),
    {
        proof {
            assert(args.deep_view().take(t + 1).drop_last() =~= args.deep_view().take(t as int));
            assert(args.deep_view().take(t + 1).last() == args.deep_view()[t as int]);
        }
        out.push(0x20);
        push_quoted(&mut out, args[t].as_slice());
        proof {
            assert(args.deep_view()[t as int] =~= args@[t as int]@);
            assert(out@ =~= join_spec(exe@, args.deep_view().take(t + 1)));
        }
    }
    proof {
        assert(args.deep_view().take(m as int) =~= args.deep_view());
    }
    out
}

} // verus!
