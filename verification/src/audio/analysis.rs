use std::collections::VecDeque;

use vstd::prelude::*;

verus! {

/// Rate, in samples per second, at which audio is captured and analysed.
pub const SAMPLE_RATE: u32 = 48_000;

/// Number of samples in one analysis window.
pub const FFT_SIZE: usize = 2_048;

/// Number of samples between the starts of consecutive analysis windows.
pub const HOP_SIZE: usize = 512;

/// Number of consumed samples after which the buffer is compacted.
pub const COMPACT_AFTER: usize = 8_192;

/// Buffers incoming samples and hands out overlapping analysis windows:
/// a window of `FFT_SIZE` samples becomes available whenever enough samples
/// are pending, and each window starts `HOP_SIZE` samples after the last.
pub struct SampleWindow<T> {
    samples: Vec<T>,
    start: usize,
}

impl<T> View for SampleWindow<T> {
    type V = Seq<T>;

    /// The samples not yet passed over by a hop.
    closed spec fn view(&self) -> Seq<T> {
        self.samples@.skip(self.start as int)
    }
}

impl<T> SampleWindow<T> {
    /// Number of samples already passed over but still held in the buffer.
    pub closed spec fn consumed(&self) -> int {
        self.start as int
    }

    #[verifier::type_invariant]
    spec fn start_in_buffer(self) -> bool {
        self.start <= self.samples@.len()
    }
}

impl<T: Copy> SampleWindow<T> {
    /// An empty window buffer.
    pub fn new() -> (window: Self)
        ensures
            window@ == Seq::<T>::empty(),
    {
        let window = SampleWindow { samples: Vec::with_capacity(COMPACT_AFTER), start: 0 };
        assert(window@ =~= Seq::<T>::empty());
        window
    }

    /// Number of pending samples.
    pub fn pending(&self) -> (count: usize)
        ensures
            count == self@.len(),
    {
        proof {
            use_type_invariant(self);
        }
        self.samples.len() - self.start
    }

    /// Takes the buffer and its start out, leaving an empty window behind.
    fn take_parts(&mut self) -> (parts: (Vec<T>, usize))
        ensures
            parts.1 <= parts.0@.len(),
            parts.0@.skip(parts.1 as int) == old(self)@,
    {
        let mut taken = SampleWindow { samples: Vec::new(), start: 0 };
        std::mem::swap(self, &mut taken);
        proof {
            use_type_invariant(&taken);
        }
        let SampleWindow { samples, start } = taken;
        (samples, start)
    }

    /// Appends newly captured samples.
    pub fn extend_from_slice(&mut self, more: &[T])
        ensures
            final(self)@ == old(self)@ + more@,
    {
        let (mut samples, start) = self.take_parts();
        let ghost before = samples@;
        let mut index: usize = 0;
        while index < more.len()
            invariant
                start <= before.len(),
                index <= more@.len(),
                samples@ == before + more@.take(index as int),
            decreases more@.len() - index,
        {
            assert(more@.take(index as int + 1) =~= more@.take(index as int).push(more@[index as int]));
            samples.push(more[index]);
            index += 1;
        }
        assert(more@.take(more@.len() as int) =~= more@);
        *self = SampleWindow { samples, start };
        assert(self@ =~= old(self)@ + more@);
    }

    /// The current analysis window, when enough samples are pending.
    pub fn frame(&self) -> (frame: Option<&[T]>)
        ensures
            frame is Some <==> self@.len() >= FFT_SIZE,
            frame matches Some(samples) ==> samples@ == self@.take(FFT_SIZE as int),
    {
        proof {
            use_type_invariant(self);
        }
        if self.samples.len() - self.start >= FFT_SIZE {
            let frame = vstd::slice::slice_subrange(
                self.samples.as_slice(),
                self.start,
                self.start + FFT_SIZE,
            );
            assert(frame@ =~= self@.take(FFT_SIZE as int));
            Some(frame)
        } else {
            None
        }
    }

    /// Moves past the first `HOP_SIZE` samples of the current window.
    pub fn advance(&mut self)
        requires
            old(self)@.len() >= FFT_SIZE,
        ensures
            final(self)@ == old(self)@.skip(HOP_SIZE as int),
    {
        proof {
            use_type_invariant(&*self);
        }
        let length = self.samples.len();
        assert(length - self.start >= FFT_SIZE);
        self.start = self.start + HOP_SIZE;
        assert(self@ =~= old(self)@.skip(HOP_SIZE as int));
    }

    /// Drops consumed samples from the buffer once enough have accumulated;
    /// the pending samples are unchanged.
    pub fn compact(&mut self)
        ensures
            final(self)@ == old(self)@,
            old(self).consumed() >= COMPACT_AFTER ==> final(self).consumed() == 0,
            old(self).consumed() < COMPACT_AFTER ==> final(self).consumed() == old(
                self,
            ).consumed(),
    {
        proof {
            use_type_invariant(&*self);
        }
        if self.start >= COMPACT_AFTER {
            let (mut samples, start) = self.take_parts();
            let pending = samples.split_off(start);
            *self = SampleWindow { samples: pending, start: 0 };
            assert(self@ =~= old(self)@);
        }
    }
}

/// Drops the oldest entries until at most `maximum_length` remain.
pub fn truncate_history<T>(history: &mut VecDeque<T>, maximum_length: usize)
    ensures
        old(history)@.len() <= maximum_length ==> final(history)@ == old(history)@,
        old(history)@.len() > maximum_length ==> final(history)@ == old(history)@.skip(
            old(history)@.len() - maximum_length,
        ),
{
    while history.len() > maximum_length
        invariant
            old(history)@.len() > maximum_length ==> history@ == old(history)@.skip(
                old(history)@.len() - history@.len(),
            ),
            old(history)@.len() <= maximum_length ==> history@ == old(history)@,
            history@.len() <= old(history)@.len(),
            old(history)@.len() > maximum_length ==> history@.len() >= maximum_length,
        decreases history@.len(),
    {
        history.pop_front();
        assert(history@ =~= old(history)@.skip(old(history)@.len() - history@.len()));
    }
}

} // verus!
