//! The sample buffer: an append-only ordered sequence of color samples,
//! one appended per sampling round. Its insertion order is significant —
//! the position of a sample is also its diagonal index on the canvas —
//! and its final length determines the canvas size.

use vstd::prelude::*;

use crate::color::ColorSample;

verus! {

/// An append-only ordered sequence of `ColorSample`, built by the sampling
/// pipeline and handed read-only to exactly one filler.
pub struct SampleBuffer {
    samples: Vec<ColorSample>,
}

impl View for SampleBuffer {
    type V = Seq<ColorSample>;

    closed spec fn view(&self) -> Seq<ColorSample> {
        self.samples@
    }
}

impl SampleBuffer {
    /// A fresh, empty buffer.
    pub fn new() -> (b: SampleBuffer)
        ensures
            b@ == Seq::<ColorSample>::empty(),
    {
        SampleBuffer { samples: Vec::new() }
    }

    /// Append one sample; everything already buffered keeps its position.
    pub fn push(&mut self, sample: ColorSample)
        ensures
            final(self)@ == old(self)@.push(sample),
    {
        self.samples.push(sample);
    }

    /// The number of buffered samples (= rounds completed = canvas size).
    pub fn len(&self) -> (n: usize)
        ensures
            n == self@.len(),
    {
        self.samples.len()
    }

    /// The sample appended in round `i`.
    pub fn get(&self, i: usize) -> (s: ColorSample)
        requires
            i < self@.len(),
        ensures
            s == self@[i as int],
    {
        self.samples[i]
    }
}

} // verus!
