//! The byte window: a growable staging buffer that accepts appended chunks
//! from the stream source, hands the driver its buffered bytes, and discards
//! the bytes the driver reports as consumed.

use vstd::prelude::*;

verus! {

use vstd::slice::slice_index_get;

/// The staging buffer between the stream source and the decoder.
pub struct ByteWindow {
    buf: Vec<u8>,
}

impl View for ByteWindow {
    type V = Seq<u8>;

    closed spec fn view(&self) -> Seq<u8> {
        self.buf@
    }
}

impl ByteWindow {
    /// An empty window.
    pub fn new() -> (w: ByteWindow)
        ensures
            w@ == Seq::<u8>::empty(),
    {
        let w = ByteWindow { buf: Vec::new() };
        proof {
            assert(w@ =~= Seq::<u8>::empty());
        }
        w
    }

    /// How many bytes are buffered and not yet consumed.
    pub fn available(&self) -> (n: usize)
        ensures
            n == self@.len(),
    {
        self.buf.len()
    }

    /// The buffered bytes, oldest first.
    pub fn bytes(&self) -> (b: &[u8])
        ensures
            b@ == self@,
    {
        self.buf.as_slice()
    }

    /// Append a newly arrived chunk at the tail.
    #[verifier::loop_isolation(false)]
    pub fn append(&mut self, chunk: &[u8])
        ensures
            final(self)@ == old(self)@ + chunk@,
    {
        let mut i: usize = 0;
        proof {
            assert(self@ =~= old(self)@ + chunk@.take(0));
        }
        while i < chunk.len()
            invariant
                i <= chunk@.len(),
                self@ == old(self)@ + chunk@.take(i as int),
            decreases chunk@.len() - i,
        {
            let ghost prev = self.buf@;
            self.buf.push(*slice_index_get(chunk, i));
            i = i + 1;
            proof {
                assert(prev.push(chunk@[i as int - 1]) =~= old(self)@ + chunk@.take(i as int));
            }
        }
        proof {
            assert(chunk@.take(i as int) =~= chunk@);
        }
    }

    /// Discard the first `n` buffered bytes, which the driver has fully
    /// processed.
    #[verifier::loop_isolation(false)]
    pub fn consume(&mut self, n: usize)
        requires
            n <= old(self)@.len(),
        ensures
            final(self)@ == old(self)@.skip(n as int),
    {
        let mut nb: Vec<u8> = Vec::new();
        let mut i: usize = n;
        proof {
            assert(nb@ =~= old(self)@.subrange(n as int, n as int));
        }
        while i < self.buf.len()
            invariant
                n <= i <= self@.len(),
                self@ == old(self)@,
                nb@ == old(self)@.subrange(n as int, i as int),
            decreases self@.len() - i,
        {
            let ghost prev = nb@;
            nb.push(*slice_index_get(self.buf.as_slice(), i));
            i = i + 1;
            proof {
                assert(prev.push(old(self)@[i as int - 1]) =~= old(self)@.subrange(
                    n as int,
                    i as int,
                ));
            }
        }
        self.buf = nb;
        proof {
            assert(old(self)@.subrange(n as int, old(self)@.len() as int) =~= old(self)@.skip(
                n as int,
            ));
        }
    }
}

} // verus!
