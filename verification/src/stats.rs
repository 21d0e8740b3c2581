use vstd::prelude::*;

use crate::scalar::SimScalar;

verus! {

/// An ordered, append-only log of time-stamped samples.  The time of a
/// sample is supplied by the caller as elapsed simulation time; nothing
/// ever mutates the log except appending.
pub struct Timeseries<T> {
    pub series: Vec<(SimScalar, T)>,
}

impl<T> Timeseries<T> {
    /// An empty log.
    pub fn new() -> (r: Timeseries<T>)
        ensures
            r.series@ =~= Seq::<(SimScalar, T)>::empty(),
    {
        Timeseries { series: Vec::new() }
    }

    /// Appends one time-stamped sample.
    pub fn record(&mut self, time: SimScalar, data: T)
        ensures
            final(self).series@ == old(self).series@.push((time, data)),
    {
        self.series.push((time, data));
    }

    /// The recorded samples, oldest first.
    pub fn samples(&self) -> (r: &Vec<(SimScalar, T)>)
        ensures
            r == &self.series,
    {
        &self.series
    }
}

} // verus!
