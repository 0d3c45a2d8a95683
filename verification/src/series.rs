//! Chart coordinates derived afresh from a buffer's current contents.

use vstd::prelude::*;
use crate::history::HistoryBuffer;

verus! {

/// One chart coordinate: where a sample stands in its buffer, counted from 1,
/// and the sample itself.
#[derive(Clone, Copy, Debug, PartialEq, Eq)]
pub struct SeriesPoint {
    pub position: usize,
    pub value: u64,
}

/// The series of `samples`: the sample at offset `i` becomes the point
/// `(i + 1, samples[i])`.
pub open spec fn series_of(samples: Seq<u64>) -> Seq<SeriesPoint> {
    Seq::new(
        samples.len(),
        |i: int| SeriesPoint { position: (i + 1) as usize, value: samples[i] },
    )
}

/// Derives the series of `buffer` from what it holds now. Nothing of an
/// earlier series is used, so an eviction shows at once: positions start at 1
/// again.
pub fn materialize(buffer: &HistoryBuffer) -> (series: Vec<SeriesPoint>)
    ensures
        series@ == series_of(buffer@),
        series@.len() == buffer@.len(),
{
    let samples = buffer.samples();
    let mut series: Vec<SeriesPoint> = Vec::new();
    let mut i: usize = 0;
    while i < samples.len()
        invariant
            i <= samples.len(),
            series@ == series_of(samples@.take(i as int)),
        decreases samples.len() - i,
    {
        series.push(SeriesPoint { position: i + 1, value: samples[i] });
        i += 1;
        assert(series@ =~= series_of(samples@.take(i as int)));
    }
    assert(samples@.take(i as int) =~= samples@);
    series
}

/// A series has one point per sample, the points carry the samples in order,
/// and their positions are 1, 2, ... up to the number of samples, hence
/// strictly increasing. This holds of any contents, whatever was evicted
/// before.
pub proof fn lemma_series_positions(samples: Seq<u64>)
    requires
        samples.len() <= usize::MAX,
    ensures
        series_of(samples).len() == samples.len(),
        forall|i: int|
            0 <= i < samples.len() ==> (#[trigger] series_of(samples)[i]).position == i + 1,
        forall|i: int|
            0 <= i < samples.len() ==> (#[trigger] series_of(samples)[i]).value == samples[i],
        forall|i: int, j: int|
            0 <= i < j < samples.len() ==> (#[trigger] series_of(samples)[i]).position < (
            #[trigger] series_of(samples)[j]).position,
{
}

} // verus!
