use vstd::prelude::*;

use crate::fields::byte_views;

verus! {

/// The byte that ends a line.
pub const NEWLINE: u8 = 10;

/// The state of line reassembly: the complete lines found so far, and the
/// partial line that follows them.
pub type ScanState = (Seq<Seq<u8>>, Seq<u8>);

/// One byte of input: a newline closes the partial line, any other byte extends it.
pub open spec fn scan_step(st: ScanState, b: u8) -> ScanState {
    if b == NEWLINE {
        (st.0.push(st.1), Seq::empty())
    } else {
        (st.0, st.1.push(b))
    }
}

/// The state reached from `st` after reading the bytes `s`.
pub open spec fn scan_from(st: ScanState, s: Seq<u8>) -> ScanState
    decreases s.len(),
{
    if s.len() == 0 {
        st
    } else {
        scan_step(scan_from(st, s.drop_last()), s.last())
    }
}

/// The complete lines of `s` (without their newlines) and the partial line after them.
pub open spec fn scan(s: Seq<u8>) -> ScanState {
    scan_from((Seq::empty(), Seq::empty()), s)
}

/// All the chunks of a stream, one after another.
pub open spec fn concat_chunks(chunks: Seq<Seq<u8>>) -> Seq<u8>
    decreases chunks.len(),
{
    if chunks.len() == 0 {
        Seq::empty()
    } else {
        concat_chunks(chunks.drop_last()) + chunks.last()
    }
}

/// What a `LineBuffer` that starts empty yields over a sequence of chunks:
/// every line that `push_chunk` returned, in order, and the partial line kept.
pub open spec fn feed_chunks(chunks: Seq<Seq<u8>>) -> ScanState
    decreases chunks.len(),
{
    if chunks.len() == 0 {
        (Seq::empty(), Seq::empty())
    } else {
        let prev = feed_chunks(chunks.drop_last());
        let step = scan_from((Seq::empty(), prev.1), chunks.last());
        (prev.0 + step.0, step.1)
    }
}

/// Reading `a` then `b` is reading `a + b`.
pub proof fn lemma_scan_append(st: ScanState, a: Seq<u8>, b: Seq<u8>)
    ensures
        scan_from(st, a + b) == scan_from(scan_from(st, a), b),
    decreases b.len(),
{
    if b.len() == 0 {
        assert(a + b =~= a);
    } else {
        assert((a + b).drop_last() =~= a + b.drop_last());
        assert((a + b).last() == b.last());
        lemma_scan_append(st, a, b.drop_last());
    }
}

/// Lines already found are only ever extended at the end.
pub proof fn lemma_scan_prefix(lines: Seq<Seq<u8>>, cur: Seq<u8>, s: Seq<u8>)
    ensures
        scan_from((lines, cur), s).0 == lines + scan_from((Seq::empty(), cur), s).0,
        scan_from((lines, cur), s).1 == scan_from((Seq::empty(), cur), s).1,
    decreases s.len(),
{
    if s.len() == 0 {
        assert(lines + Seq::<Seq<u8>>::empty() =~= lines);
    } else {
        lemma_scan_prefix(lines, cur, s.drop_last());
        let inner = scan_from((Seq::empty(), cur), s.drop_last());
        assert((lines + inner.0).push(inner.1) =~= lines + inner.0.push(inner.1));
    }
}

/// Chunking is no semantic boundary: whatever the sizes of the chunks, the lines
/// yielded and the partial line kept are those of the whole input read at once.
pub proof fn lemma_feed_chunks(chunks: Seq<Seq<u8>>)
    ensures
        feed_chunks(chunks) == scan(concat_chunks(chunks)),
    decreases chunks.len(),
{
    if chunks.len() > 0 {
        let front = chunks.drop_last();
        lemma_feed_chunks(front);
        let prev = scan(concat_chunks(front));
        lemma_scan_append((Seq::empty(), Seq::empty()), concat_chunks(front), chunks.last());
        lemma_scan_prefix(prev.0, prev.1, chunks.last());
    }
}

/// Two ways of cutting the same input into chunks yield the same lines, in the
/// same order, and keep the same partial line.
pub proof fn lemma_chunking_invariant(c1: Seq<Seq<u8>>, c2: Seq<Seq<u8>>)
    requires
        concat_chunks(c1) == concat_chunks(c2),
    ensures
        feed_chunks(c1) == feed_chunks(c2),
{
    lemma_feed_chunks(c1);
    lemma_feed_chunks(c2);
}

/// Reassembles lines from chunks of bytes that may end anywhere, in a line or
/// right after a newline.
pub struct LineBuffer {
    pending: Vec<u8>,
}

impl View for LineBuffer {
    type V = Seq<u8>;

    closed spec fn view(&self) -> Seq<u8> {
        self.pending@
    }
}

impl LineBuffer {
    pub fn new() -> (r: LineBuffer)
        ensures
            r@ == Seq::<u8>::empty(),
    {
        LineBuffer { pending: Vec::new() }
    }

    /// Appends a chunk and returns the lines that it completes, without their
    /// newlines; what follows the last newline is kept for the next chunk.
    pub fn push_chunk(&mut self, chunk: &[u8]) -> (lines: Vec<Vec<u8>>)
        ensures
            (byte_views(lines@), final(self)@) == scan_from((Seq::empty(), old(self)@), chunk@),
    {
        let mut lines: Vec<Vec<u8>> = Vec::new();
        let mut i: usize = 0;
        while i < chunk.len()
            invariant
                i <= chunk@.len(),
                (byte_views(lines@), self@) == scan_from(
                    (Seq::empty(), old(self)@),
                    chunk@.subrange(0, i as int),
                ),
            decreases chunk.len() - i,
        {
            let b = chunk[i];
            let ghost before = (byte_views(lines@), self@);
            if b == NEWLINE {
                let mut done: Vec<u8> = Vec::new();
                std::mem::swap(&mut done, &mut self.pending);
                lines.push(done);
                assert(byte_views(lines@) =~= before.0.push(before.1));
            } else {
                self.pending.push(b);
            }
            assert(chunk@.subrange(0, i + 1).drop_last() =~= chunk@.subrange(0, i as int));
            i += 1;
        }
        assert(chunk@.subrange(0, chunk@.len() as int) =~= chunk@);
        lines
    }

    /// At the end of the input: the partial line kept, if any, is the last line.
    pub fn finish(&mut self) -> (r: Option<Vec<u8>>)
        ensures
            final(self)@ == Seq::<u8>::empty(),
            old(self)@.len() == 0 ==> r is None,
            old(self)@.len() > 0 ==> r is Some && r->0@ == old(self)@,
    {
        let mut done: Vec<u8> = Vec::new();
        std::mem::swap(&mut done, &mut self.pending);
        if done.len() == 0 {
            None
        } else {
            Some(done)
        }
    }
}

} // verus!
