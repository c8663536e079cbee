//! The frame ring: a byte queue that takes variable-length appends at its tail
//! and gives up fixed-length prefixes from its head.

use std::collections::VecDeque;
use vstd::prelude::*;

verus! {

/// Bytes of one 20 ms frame before conversion: 960 stereo pairs of 4-byte floats.
pub const FRAME_BYTES: usize = 7680;

/// Samples of one frame after conversion: 960 stereo pairs.
pub const FRAME_SAMPLES: usize = 1920;

/// The `i`-th whole frame of a byte sequence.
pub open spec fn frame_at(bytes: Seq<u8>, i: int) -> Seq<u8> {
    bytes.subrange(i * FRAME_BYTES as int, (i + 1) * FRAME_BYTES as int)
}

/// An ordered queue of captured bytes not yet framed.
pub struct FrameRing {
    bytes: VecDeque<u8>,
}

impl View for FrameRing {
    type V = Seq<u8>;

    closed spec fn view(&self) -> Seq<u8> {
        self.bytes@
    }
}

impl FrameRing {
    /// An empty ring.
    pub fn new() -> (r: FrameRing)
        ensures
            r@ == Seq::<u8>::empty(),
    {
        FrameRing { bytes: VecDeque::new() }
    }

    /// Number of bytes held.
    pub fn len(&self) -> (r: usize)
        ensures
            r == self@.len(),
    {
        self.bytes.len()
    }

    /// Appends `data` at the tail, in order.
    pub fn append(&mut self, data: &[u8])
        ensures
            final(self)@ == old(self)@ + data@,
    {
        let mut i: usize = 0;
        while i < data.len()
            invariant
                i <= data@.len(),
                self@ == old(self)@ + data@.take(i as int),
            decreases data@.len() - i,
        {
            self.bytes.push_back(data[i]);
            i = i + 1;
            assert(data@.take(i as int) =~= data@.take(i - 1) + seq![data@[i - 1]]);
            assert(self@ =~= old(self)@ + data@.take(i as int));
        }
        assert(data@.take(i as int) =~= data@);
    }

    /// Removes the first `n` bytes and returns them.
    pub fn take_prefix(&mut self, n: usize) -> (r: Vec<u8>)
        requires
            n <= old(self)@.len(),
        ensures
            r@ == old(self)@.take(n as int),
            final(self)@ == old(self)@.skip(n as int),
    {
        let mut out: Vec<u8> = Vec::with_capacity(n);
        let mut i: usize = 0;
        while i < n
            invariant
                i <= n,
                n <= old(self)@.len(),
                out@ == old(self)@.take(i as int),
                self@ == old(self)@.skip(i as int),
            decreases n - i,
        {
            let b = self.bytes.pop_front();
            match b {
                Some(x) => {
                    out.push(x);
                },
                None => {},
            }
            i = i + 1;
            assert(out@ =~= old(self)@.take(i as int));
            assert(self@ =~= old(self)@.skip(i as int));
        }
        out
    }

    /// Removes every whole frame from the head, oldest first; fewer than
    /// `FRAME_BYTES` bytes stay behind.
    pub fn take_frames(&mut self) -> (r: Vec<Vec<u8>>)
        ensures
            r@.len() == old(self)@.len() as int / FRAME_BYTES as int,
            forall|i: int| 0 <= i < r@.len() ==> #[trigger] r@[i]@ == frame_at(old(self)@, i),
            final(self)@ == old(self)@.skip(r@.len() * FRAME_BYTES as int),
            final(self)@.len() < FRAME_BYTES,
    {
        let mut frames: Vec<Vec<u8>> = Vec::new();
        while self.bytes.len() >= FRAME_BYTES
            invariant
                self@ == old(self)@.skip(frames@.len() * FRAME_BYTES as int),
                frames@.len() * FRAME_BYTES <= old(self)@.len(),
                forall|i: int|
                    0 <= i < frames@.len() ==> #[trigger] frames@[i]@ == frame_at(old(self)@, i),
            decreases self@.len(),
        {
            let k = frames.len();
            let frame = self.take_prefix(FRAME_BYTES);
            assert(frame@ =~= frame_at(old(self)@, k as int));
            frames.push(frame);
            assert(self@ =~= old(self)@.skip(frames@.len() * FRAME_BYTES as int));
        }
        let ghost total = old(self)@.len() as int;
        let ghost k = frames@.len() as int;
        assert(k == total / FRAME_BYTES as int) by (nonlinear_arith)
            requires
                total - k * FRAME_BYTES < FRAME_BYTES,
                k * FRAME_BYTES <= total,
                FRAME_BYTES == 7680,
        ;
        frames
    }
}

} // verus!
