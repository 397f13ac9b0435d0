//! Backward line reading over a window of file bytes.  The reader never
//! sees the file itself: the caller feeds it chunks taken from the end
//! of the file toward the start, and it pops logical lines off the tail
//! of its window — exactly the splitting an interrupted run needs to
//! resume from the bottom of a manifest.

use vstd::prelude::*;

use crate::bytes::append_bytes;

verus! {

/// What one read step yields: a complete line, a request for the next
/// chunk toward the file start, or the end of the stream.
#[derive(Debug)]
pub enum ReadOutcome {
    Line(Vec<u8>),
    NeedChunk,
    End,
}

/// Position of the last newline byte in `s`, if any.
pub open spec fn last_nl(s: Seq<u8>) -> Option<int>
    decreases s.len(),
{
    if s.len() == 0 {
        None
    } else if s.last() == 10 {
        Some(s.len() - 1)
    } else {
        last_nl(s.drop_last())
    }
}
pub proof fn lemma_last_nl_at(s: Seq<u8>, k: int)
    requires
        0 <= k < s.len(),
        s[k] == 10,
        forall|j: int| k < j < s.len() ==> s[j] != 10,
    ensures
        last_nl(s) == Some(k),
    decreases s.len(),
{
    if k < s.len() - 1 {
        lemma_last_nl_at(s.drop_last(), k);
    }
}

pub proof fn lemma_last_nl_none(s: Seq<u8>)
    requires
        forall|j: int| 0 <= j < s.len() ==> s[j] != 10,
    ensures
        last_nl(s) is None,
    decreases s.len(),
{
    if s.len() > 0 {
        lemma_last_nl_none(s.drop_last());
    }
}

/// The sequence with every carriage-return byte removed; lines are
/// emitted in this form.
pub open spec fn strip_cr(s: Seq<u8>) -> Seq<u8>
    decreases s.len(),
{
    if s.len() == 0 {
        Seq::empty()
    } else {
        strip_cr(s.drop_last()) + (if s.last() == 13 {
            Seq::<u8>::empty()
        } else {
            seq![s.last()]
        })
    }
}

/// A chunk's content with one trailing newline removed — applied to the
/// first (file-tail) chunk only, so a trailing newline does not yield a
/// spurious empty first line.
pub open spec fn strip_one_trailing_nl(s: Seq<u8>) -> Seq<u8> {
    if s.len() > 0 && s.last() == 10 {
        s.drop_last()
    } else {
        s
    }
}

/// Reads a file's logical lines from the last toward the first, over a
/// caller-fed backward-sliding window.
///
/// `window` holds the unconsumed bytes, in file order; `begun` is set
/// once the first (file-tail) chunk has arrived; `at_start` once the
/// window reaches the start of the file; `had_content` records that the
/// file was not empty; `done` that the final line at the file start has
/// been emitted.
#[derive(Debug)]
pub struct ReverseBufferReader {
    pub window: Vec<u8>,
    pub begun: bool,
    pub at_start: bool,
    pub had_content: bool,
    pub done: bool,
}

/// The reader's states that can arise: before the first chunk everything
/// is clear; the end states keep the window empty.
pub open spec fn reader_wf(r: ReverseBufferReader) -> bool {
    &&& (!r.begun ==> r.window@.len() == 0 && !r.at_start && !r.had_content && !r.done)
    &&& (r.done ==> r.at_start && r.window@.len() == 0)
    &&& (r.begun && !r.had_content ==> r.window@.len() == 0 && r.at_start)
}

impl ReverseBufferReader {
    /// A reader that has seen nothing yet; the first chunk must be the
    /// file's tail.
    pub fn new() -> (r: ReverseBufferReader)
        ensures
            reader_wf(r),
            !r.begun,
    {
        ReverseBufferReader {
            window: Vec::new(),
            begun: false,
            at_start: false,
            had_content: false,
            done: false,
        }
    }

    /// Feeds the next chunk toward the file start; `reaches_start` says
    /// the chunk begins at the file's first byte.  The first chunk is
    /// the file's tail, and one trailing newline of it is consumed here;
    /// later chunks are prepended to the unconsumed window.
    pub fn supply_chunk(&mut self, chunk: Vec<u8>, reaches_start: bool)
        requires
            reader_wf(*old(self)),
            !old(self).at_start,
            !old(self).begun ==> chunk@.len() > 0 || reaches_start,
        ensures
            reader_wf(*final(self)),
            final(self).begun,
            final(self).at_start == reaches_start,
            !final(self).done,
            if !old(self).begun {
                final(self).had_content == (chunk@.len() > 0) && final(self).window@
                    == strip_one_trailing_nl(chunk@)
            } else {
                final(self).had_content == old(self).had_content && final(self).window@ == chunk@
                    + old(self).window@
            },
    {
        if !self.begun {
            self.begun = true;
            self.at_start = reaches_start;
            self.had_content = chunk.len() > 0;
            let mut c = chunk;
            if c.len() > 0 && c[c.len() - 1] == 10 {
                let m = c.len() - 1;
                c.truncate(m);
            }
            self.window = c;
            proof {
                assert(self.window@ =~= strip_one_trailing_nl(chunk@));
            }
        } else {
            self.at_start = reaches_start;
            let mut c = chunk;
            append_bytes(&mut c, self.window.as_slice());
            self.window = c;
        }
    }

    /// Pops one line off the tail of the window.  A newline in the
    /// window ends a line there; an exhausted window asks for the next
    /// chunk, or — at the file start — flushes the remaining bytes as
    /// the final line.  Carriage returns are dropped from every line.
    #[verifier::loop_isolation(false)]
    pub fn read_line(&mut self) -> (r: ReadOutcome)
        requires
            reader_wf(*old(self)),
        ensures
            reader_wf(*final(self)),
            final(self).begun == old(self).begun,
            final(self).at_start == old(self).at_start,
            final(self).had_content == old(self).had_content,
            match r {
                ReadOutcome::NeedChunk => *final(self) == *old(self) && !old(self).at_start
                    && last_nl(old(self).window@) is None,
                ReadOutcome::End => *final(self) == *old(self) && old(self).at_start && (old(self).done || !old(self).had_content),
                ReadOutcome::Line(l) => match last_nl(old(self).window@) {
                    Some(i) => l@ == strip_cr(old(self).window@.skip(i + 1)) && final(self).window@
                        == old(self).window@.take(i) && final(self).done == old(self).done,
                    None => old(self).at_start && !old(self).done && old(self).had_content && l@
                        == strip_cr(old(self).window@) && final(self).window@.len() == 0
                        && final(self).done,
                },
            },
    {
        let n = self.window.len();
        let mut i: usize = n;
        while i > 0 && self.window[i - 1] != 10
            invariant
                0 <= i <= n,
                n == self.window@.len(),
                forall|j: int| i <= j < n ==> self.window@[j] != 10,
            decreases i,
        {
            i -= 1;
        }
        if i > 0 {
            // the window's last newline sits at i - 1
            proof {
                lemma_last_nl_at(self.window@, i - 1);
            }
            let line = strip_cr_bytes(vstd::slice::slice_subrange(self.window.as_slice(), i, n));
            let keep = i - 1;
            self.window.truncate(keep);
            proof {
                assert(old(self).window@.subrange(i as int, n as int) =~= old(self).window@.skip(
                    i as int,
                ));
            }
            ReadOutcome::Line(line)
        } else {
            proof {
                lemma_last_nl_none(self.window@);
            }
            if !self.at_start {
                ReadOutcome::NeedChunk
            } else if self.done || !self.had_content {
                ReadOutcome::End
            } else {
                let line = strip_cr_bytes(self.window.as_slice());
                self.window = Vec::new();
                self.done = true;
                proof {
                    assert(strip_cr(old(self).window@.skip(0)) == strip_cr(old(self).window@)) by {
                        assert(old(self).window@.skip(0) =~= old(self).window@);
                    }
                }
                ReadOutcome::Line(line)
            }
        }
    }
}

/// Copy of `v` with every carriage-return byte removed.
#[verifier::loop_isolation(false)]
pub fn strip_cr_bytes(v: &[u8]) -> (r: Vec<u8>)
    ensures
        r@ == strip_cr(v@),
{
    let n = v.len();
    let mut r: Vec<u8> = Vec::new();
    let mut i: usize = 0;
    proof {
        assert(v@.take(0) =~= Seq::<u8>::empty());
    }
    while i < n
        invariant
            0 <= i <= n,
            n == v@.len(),
            r@ == strip_cr(v@.take(i as int)),
        decreases n - i,
    {
        let b = v[i];
        proof {
            assert(v@.take(i + 1).drop_last() =~= v@.take(i as int));
            assert(v@.take(i + 1).last() == v@[i as int]);
        }
        if b != 13 {
            r.push(b);
            proof {
                assert(r@ =~= strip_cr(v@.take(i as int)) + seq![v@[i as int]]);
            }
        } else {
            proof {
                assert(r@ =~= strip_cr(v@.take(i as int)) + Seq::<u8>::empty());
            }
        }
        i += 1;
    }
    proof {
        assert(v@.take(n as int) =~= v@);
    }
    r
}

} // verus!
