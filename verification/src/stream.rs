//! Streaming preview output: an accumulating byte buffer that splits a
//! process's output into newline-delimited lines, and the exact sequence of
//! messages the streaming channel carries.

use vstd::prelude::*;
use vstd::string::StringExecFns;
use vstd::string::StrSliceExecFns;
use crate::textutil::{bytes_to_text, lossy_of};

verus! {

/// The index of the first newline byte in `s`, or the length.
pub open spec fn first_nl_byte(s: Seq<u8>) -> int
    decreases s.len(),
{
    if s.len() == 0 {
        0
    } else if s[0] == 10u8 {
        0
    } else {
        1 + first_nl_byte(s.skip(1))
    }
}

proof fn lemma_first_nl_byte_bounds(s: Seq<u8>)
    ensures
        0 <= first_nl_byte(s) <= s.len(),
        forall|j: int| 0 <= j < first_nl_byte(s) ==> s[j] != 10u8,
        first_nl_byte(s) < s.len() ==> s[first_nl_byte(s)] == 10u8,
    decreases s.len(),
{
    if s.len() > 0 && s[0] != 10u8 {
        lemma_first_nl_byte_bounds(s.skip(1));
        assert forall|j: int| 0 <= j < first_nl_byte(s) implies s[j] != 10u8 by {
            if j > 0 {
                assert(s.skip(1)[j - 1] == s[j]);
            }
        }
        if first_nl_byte(s) < s.len() {
            assert(s.skip(1)[first_nl_byte(s) - 1] == s[first_nl_byte(s)]);
        }
    }
}

/// The newline-terminated chunks at the front of `s`, each including its
/// newline byte.
pub open spec fn complete_chunks(s: Seq<u8>) -> Seq<Seq<u8>>
    decreases s.len(),
{
    let i = first_nl_byte(s);
    if 0 <= i < s.len() {
        seq![s.subrange(0, i + 1)] + complete_chunks(s.skip(i + 1))
    } else {
        Seq::<Seq<u8>>::empty()
    }
}

/// What remains of `s` after all newline-terminated chunks: the bytes after
/// the last newline.
pub open spec fn chunk_rest(s: Seq<u8>) -> Seq<u8>
    decreases s.len(),
{
    let i = first_nl_byte(s);
    if 0 <= i < s.len() {
        chunk_rest(s.skip(i + 1))
    } else {
        s
    }
}

/// `s` with every trailing newline character removed.
pub open spec fn trim_trailing_nl(s: Seq<char>) -> Seq<char>
    decreases s.len(),
{
    if s.len() > 0 && s[s.len() - 1] == '\n' {
        trim_trailing_nl(s.drop_last())
    } else {
        s
    }
}

/// One completed line of a stream: its chunk decoded, trailing newlines
/// removed.
pub open spec fn chunk_line(chunk: Seq<u8>) -> Seq<char> {
    trim_trailing_nl(lossy_of(chunk))
}

/// The lines one side of the stream (stdout or stderr) contributes: each
/// newline-terminated chunk as a line, then any non-terminated remainder,
/// decoded without trimming.
pub open spec fn side_lines(s: Seq<u8>) -> Seq<Seq<char>> {
    let chunks = complete_chunks(s).map_values(|c: Seq<u8>| chunk_line(c));
    if chunk_rest(s).len() > 0 {
        chunks + seq![lossy_of(chunk_rest(s))]
    } else {
        chunks
    }
}

/// An accumulating buffer that splits incoming bytes into newline-delimited
/// lines, exactly as the streaming reader forwards them.
pub struct LineBuffer {
    pub acc: Vec<u8>,
}

/// Remove the trailing newline characters of `s`.
fn trim_newlines(s: &str) -> (r: String)
    ensures
        r@ == trim_trailing_nl(s@),
{
    let n = s.unicode_len();
    proof {
        assert(s@.subrange(0, n as int) =~= s@);
    }
    let mut e: usize = n;
    loop
        invariant_except_break
            n == s@.len(),
            e <= n,
            trim_trailing_nl(s@) == trim_trailing_nl(s@.subrange(0, e as int)),
        ensures
            e <= n,
            n == s@.len(),
            trim_trailing_nl(s@) == trim_trailing_nl(s@.subrange(0, e as int)),
            e == 0 || s@[e - 1] != '\n',
        decreases e,
    {
        if e == 0 {
            break;
        }
        if s.get_char(e - 1) != '\n' {
            break;
        }
        proof {
            assert(s@.subrange(0, e as int).drop_last() =~= s@.subrange(0, e as int - 1));
        }
        e -= 1;
    }
    proof {
        assert(trim_trailing_nl(s@.subrange(0, e as int)) == s@.subrange(0, e as int));
    }
    s.substring_char(0, e).to_owned()
}

impl LineBuffer {
    pub fn new() -> (r: LineBuffer)
        ensures
            r.acc@.len() == 0,
    {
        LineBuffer { acc: Vec::new() }
    }

    /// Feed one read chunk. The completed lines of everything accumulated so
    /// far come back, decoded with trailing newlines trimmed; the
    /// non-terminated remainder stays buffered.
    pub fn push_bytes(&mut self, chunk: &[u8]) -> (r: Vec<String>)
        ensures
            ({
                let total = old(self).acc@ + chunk@;
                &&& final(self).acc@ == chunk_rest(total)
                &&& r@.len() == complete_chunks(total).len()
                &&& forall|j: int|
                    0 <= j < r@.len() ==> r@[j]@ == chunk_line(#[trigger] complete_chunks(total)[j])
            }),
    {
        let ghost total = self.acc@ + chunk@;
        let mut i: usize = 0;
        while i < chunk.len()
            invariant
                i <= chunk@.len(),
                self.acc@ =~= old(self).acc@ + chunk@.subrange(0, i as int),
            decreases chunk@.len() - i,
        {
            self.acc.push(chunk[i]);
            i += 1;
        }
        proof {
            assert(self.acc@ =~= total);
        }
        let mut out: Vec<String> = Vec::new();
        let ghost mut done: Seq<Seq<u8>> = Seq::<Seq<u8>>::empty();
        proof {
            assert(done + complete_chunks(self.acc@) =~= complete_chunks(total));
        }
        loop
            invariant_except_break
                done + complete_chunks(self.acc@) =~= complete_chunks(total),
                chunk_rest(self.acc@) == chunk_rest(total),
                out@.len() == done.len(),
                forall|j: int| 0 <= j < out@.len() ==> out@[j]@ == chunk_line(#[trigger] done[j]),
            ensures
                self.acc@ == chunk_rest(total),
                out@.len() == complete_chunks(total).len(),
                forall|j: int|
                    0 <= j < out@.len() ==> out@[j]@ == chunk_line(
                        #[trigger] complete_chunks(total)[j],
                    ),
            decreases self.acc@.len(),
        {
            proof {
                lemma_first_nl_byte_bounds(self.acc@);
            }
            let n = self.acc.len();
            let mut p: usize = 0;
            loop
                invariant_except_break
                    n == self.acc@.len(),
                    p <= n,
                    forall|j: int| 0 <= j < p ==> self.acc@[j] != 10u8,
                ensures
                    p as int == first_nl_byte(self.acc@),
                    n == self.acc@.len(),
                decreases n - p,
            {
                proof {
                    lemma_first_nl_byte_bounds(self.acc@);
                    let f = first_nl_byte(self.acc@);
                    if p >= n && f < p {
                        assert(self.acc@[f] != 10u8);
                    }
                }
                if p >= n {
                    break;
                }
                if self.acc[p] == 10 {
                    proof {
                        lemma_first_nl_byte_bounds(self.acc@);
                        let f = first_nl_byte(self.acc@);
                        if f < p {
                            assert(self.acc@[f] != 10u8);
                        }
                        if f > p {
                            assert(self.acc@[p as int] != 10u8);
                        }
                    }
                    break;
                }
                p += 1;
            }
            if p >= n {
                proof {
                    assert(complete_chunks(self.acc@) =~= Seq::<Seq<u8>>::empty());
                    assert(done =~= complete_chunks(total));
                    assert(chunk_rest(self.acc@) == self.acc@);
                }
                break;
            }
            proof {
                lemma_first_nl_byte_bounds(self.acc@);
                assert(p < n);
            }
            let ghost acc0 = self.acc@;
            let mut line_bytes: Vec<u8> = Vec::new();
            let mut a: usize = 0;
            while a <= p
                invariant
                    n == self.acc@.len(),
                    p < n,
                    a <= p + 1,
                    self.acc@ == acc0,
                    line_bytes@ =~= self.acc@.subrange(0, a as int),
                decreases p + 1 - a,
            {
                line_bytes.push(self.acc[a]);
                a += 1;
            }
            let mut rest: Vec<u8> = Vec::new();
            let mut b: usize = p + 1;
            while b < n
                invariant
                    n == self.acc@.len(),
                    p < n,
                    p + 1 <= b <= n,
                    self.acc@ == acc0,
                    rest@ =~= self.acc@.subrange(p + 1, b as int),
                decreases n - b,
            {
                rest.push(self.acc[b]);
                b += 1;
            }
            let text = bytes_to_text(line_bytes.as_slice());
            let line = trim_newlines(text.as_str());
            out.push(line);
            proof {
                done = done.push(acc0.subrange(0, p as int + 1));
                assert(rest@ =~= acc0.skip(p as int + 1));
                assert(complete_chunks(acc0) =~= seq![acc0.subrange(0, p as int + 1)]
                    + complete_chunks(acc0.skip(p as int + 1)));
                assert(chunk_rest(acc0) == chunk_rest(acc0.skip(p as int + 1)));
            }
            self.acc = rest;
            proof {
                assert(done + complete_chunks(self.acc@) =~= complete_chunks(total));
            }
        }
        out
    }

    /// Drain the non-terminated remainder at stream end, decoded without
    /// trimming; nothing when the buffer is empty.
    pub fn flush(&mut self) -> (r: Option<String>)
        ensures
            final(self).acc@.len() == 0,
            old(self).acc@.len() == 0 ==> r is None,
            old(self).acc@.len() > 0 ==> (r matches Some(line) && line@ == lossy_of(old(self).acc@)),
    {
        if self.acc.len() == 0 {
            return None;
        }
        let text = bytes_to_text(self.acc.as_slice());
        self.acc = Vec::new();
        Some(text)
    }
}

/// The channel message `o` carries the line `l`.
pub open spec fn msg_is(o: Option<String>, l: Seq<char>) -> bool {
    match o {
        Some(m) => m@ == l,
        None => false,
    }
}

/// The exact message sequence the streaming channel carries for a process
/// whose stdout and stderr produced these bytes: stdout's lines, then
/// stderr's lines (each side's newline-terminated chunks trimmed, then its
/// remainder untrimmed), then the `None` sentinel.
pub fn stream_messages(stdout_bytes: &[u8], stderr_bytes: &[u8]) -> (r: Vec<Option<String>>)
    ensures
        ({
            let outs = side_lines(stdout_bytes@);
            let errs = side_lines(stderr_bytes@);
            &&& r@.len() == outs.len() + errs.len() + 1
            &&& forall|j: int| 0 <= j < outs.len() ==> msg_is(#[trigger] r@[j], outs[j])
            &&& forall|j: int|
                0 <= j < errs.len() ==> msg_is(#[trigger] r@[outs.len() + j], errs[j])
            &&& r@[r@.len() - 1] is None
        }),
{
    let ghost outs = side_lines(stdout_bytes@);
    let ghost errs = side_lines(stderr_bytes@);
    let mut r: Vec<Option<String>> = Vec::new();
    let mut buf = LineBuffer::new();
    proof {
        assert(Seq::<u8>::empty() + stdout_bytes@ =~= stdout_bytes@);
    }
    let lines = buf.push_bytes(stdout_bytes);
    let mut i: usize = 0;
    while i < lines.len()
        invariant
            i <= lines@.len(),
            outs == side_lines(stdout_bytes@),
            lines@.len() == complete_chunks(stdout_bytes@).len(),
            forall|j: int|
                0 <= j < lines@.len() ==> lines@[j]@ == chunk_line(
                    #[trigger] complete_chunks(stdout_bytes@)[j],
                ),
            r@.len() == i,
            forall|j: int| 0 <= j < i ==> msg_is(#[trigger] r@[j], outs[j]),
        decreases lines@.len() - i,
    {
        proof {
            assert(outs[i as int] == chunk_line(complete_chunks(stdout_bytes@)[i as int]));
        }
        let line = lines[i].clone();
        r.push(Some(line));
        i += 1;
    }
    match buf.flush() {
        Some(line) => {
            proof {
                assert(chunk_rest(stdout_bytes@).len() > 0);
                assert(outs[outs.len() - 1] == lossy_of(chunk_rest(stdout_bytes@)));
            }
            r.push(Some(line));
        },
        None => {
            proof {
                assert(chunk_rest(stdout_bytes@).len() == 0);
                assert(outs =~= complete_chunks(stdout_bytes@).map_values(
                    |c: Seq<u8>| chunk_line(c),
                ));
            }
        },
    }
    proof {
        assert(r@.len() == outs.len());
        assert(forall|j: int| 0 <= j < outs.len() ==> msg_is(#[trigger] r@[j], outs[j]));
    }
    let ghost base = r@.len() as int;
    proof {
        assert(buf.acc@ + stderr_bytes@ =~= stderr_bytes@);
    }
    let lines2 = buf.push_bytes(stderr_bytes);
    let mut k: usize = 0;
    while k < lines2.len()
        invariant
            k <= lines2@.len(),
            base == outs.len(),
            outs == side_lines(stdout_bytes@),
            errs == side_lines(stderr_bytes@),
            lines2@.len() == complete_chunks(stderr_bytes@).len(),
            forall|j: int|
                0 <= j < lines2@.len() ==> lines2@[j]@ == chunk_line(
                    #[trigger] complete_chunks(stderr_bytes@)[j],
                ),
            r@.len() == base + k,
            forall|j: int| 0 <= j < base ==> msg_is(#[trigger] r@[j], outs[j]),
            forall|j: int| 0 <= j < k ==> msg_is(#[trigger] r@[base + j], errs[j]),
        decreases lines2@.len() - k,
    {
        proof {
            assert(errs[k as int] == chunk_line(complete_chunks(stderr_bytes@)[k as int]));
        }
        let line = lines2[k].clone();
        r.push(Some(line));
        k += 1;
    }
    match buf.flush() {
        Some(line) => {
            proof {
                assert(chunk_rest(stderr_bytes@).len() > 0);
                assert(errs[errs.len() - 1] == lossy_of(chunk_rest(stderr_bytes@)));
            }
            r.push(Some(line));
        },
        None => {
            proof {
                assert(chunk_rest(stderr_bytes@).len() == 0);
                assert(errs =~= complete_chunks(stderr_bytes@).map_values(
                    |c: Seq<u8>| chunk_line(c),
                ));
            }
        },
    }
    r.push(None);
    r
}

} // verus!
