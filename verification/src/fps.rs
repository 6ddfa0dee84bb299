//! Counts frames and measures how long each batch of frames took.

use vstd::prelude::*;

verus! {

/// The mathematical content of a frame counter.
pub struct FpsView {
    /// How many frames make a batch.
    pub counter_max: nat,
    /// How many frames of the current batch have been counted.
    pub counter: nat,
    /// When the current batch began, in nanoseconds.
    pub time_start: nat,
    /// How long the last complete batch took, in milliseconds; 0 before the
    /// first batch is complete.
    pub batch_ms: nat,
}

/// A frame counter that reports after every batch of frames.
pub struct Fps {
    counter_max: u32,
    counter: u32,
    time_start: u64,
    batch_ms: u64,
}

impl View for Fps {
    type V = FpsView;

    closed spec fn view(&self) -> FpsView {
        FpsView {
            counter_max: self.counter_max as nat,
            counter: self.counter as nat,
            time_start: self.time_start as nat,
            batch_ms: self.batch_ms as nat,
        }
    }
}

impl Fps {
    #[verifier::type_invariant]
    spec fn well_formed(self) -> bool {
        self.counter < self.counter_max
    }

    /// A counter for batches of `counter_max` frames.
    pub fn new(counter_max: u32) -> (fps: Fps)
        requires
            counter_max >= 1,
        ensures
            fps@ == (FpsView {
                counter_max: counter_max as nat,
                counter: 0,
                time_start: 0,
                batch_ms: 0,
            }),
    {
        Fps { counter_max, counter: 0, time_start: 0, batch_ms: 0 }
    }

    /// Begins a batch at the time `now_ns`.
    pub fn start(&mut self, now_ns: u64)
        ensures
            final(self)@ == (FpsView {
                counter: 0,
                time_start: now_ns as nat,
                batch_ms: 0,
                ..old(self)@
            }),
    {
        proof {
            use_type_invariant(&*self);
        }
        self.time_start = now_ns;
        self.counter = 0;
        self.batch_ms = 0;
    }

    /// Counts one frame that ended at the time `now_ns`. When the frame
    /// completes a batch, records how many whole milliseconds the batch took,
    /// begins the next batch at `now_ns` and returns `true`.
    pub fn update(&mut self, now_ns: u64) -> (complete: bool)
        requires
            now_ns >= old(self)@.time_start,
        ensures
            complete == (old(self)@.counter + 1 == old(self)@.counter_max),
            complete ==> final(self)@ == (FpsView {
                counter: 0,
                time_start: now_ns as nat,
                batch_ms: ((now_ns - old(self)@.time_start) / 1000000) as nat,
                ..old(self)@
            }),
            !complete ==> final(self)@ == (FpsView {
                counter: old(self)@.counter + 1,
                ..old(self)@
            }),
    {
        proof {
            use_type_invariant(&*self);
        }
        if self.counter + 1 == self.counter_max {
            self.batch_ms = (now_ns - self.time_start) / 1000000;
            self.time_start = now_ns;
            self.counter = 0;
            true
        } else {
            self.counter = self.counter + 1;
            false
        }
    }

    /// How many frames make a batch.
    pub fn counter_max(&self) -> (n: u32)
        ensures
            n == self@.counter_max,
            n >= 1,
    {
        proof {
            use_type_invariant(self);
        }
        self.counter_max
    }

    /// When the current batch began, in nanoseconds.
    pub fn time_start(&self) -> (t: u64)
        ensures
            t == self@.time_start,
    {
        self.time_start
    }

    /// How long the last complete batch took, in milliseconds.
    pub fn batch_ms(&self) -> (ms: u64)
        ensures
            ms == self@.batch_ms,
    {
        self.batch_ms
    }
}

} // verus!
