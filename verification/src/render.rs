//! Laws of one whole render: what reaches the aggregator and what the
//! finished buffer holds.
//!
//! Workers trace the pixels of their plan slices and the aggregator applies
//! their batches in whatever order they arrive.  These laws say that any
//! such delivery of a well-formed plan carries every pixel of the frame
//! exactly once, so the progress counter ends at exactly `width * height`,
//! the coverage does not depend on the worker count, and a render whose
//! samples all came out equal fills the image uniformly.

use vstd::prelude::*;

verus! {

use vstd::seq_lib::group_to_multiset_ensures;

use crate::pixel::{Pixel, all_pixels, lemma_all_pixels_distinct, lemma_all_pixels_complete};
use crate::buffer::{PixelColor, sample_pixels, delivered, samples_in_frame, apply_samples, cell,
    lemma_apply_samples_once};
use crate::plan::RenderPlan;

/// A full delivery for a `width` by `height` frame: together the delivered
/// batches carry exactly the frame's pixels, each exactly once, in whatever
/// order the workers finished them.
pub open spec fn full_delivery(batches: Seq<Vec<PixelColor>>, width: int, height: int) -> bool {
    sample_pixels(delivered(batches)).to_multiset() == all_pixels(width, height).to_multiset()
}

/// Workers that together trace exactly the pixels of a well-formed plan make
/// a full delivery, whatever order their batches reach the aggregator in.
/// In particular the delivery is full for every worker count: the coverage
/// of the render never depends on how the pixels were split over workers.
pub proof fn lemma_planned_delivery_is_full(plan: RenderPlan, batches: Seq<Vec<PixelColor>>)
    requires
        plan.wf(),
        sample_pixels(delivered(batches)).to_multiset() == plan.planned().to_multiset(),
    ensures
        full_delivery(batches, plan.width as int, plan.height as int),
{
}

/// A full delivery carries exactly `width * height` samples.  Since the
/// aggregator advances the progress counter by one per delivered sample,
/// after the last batch the counter reads exactly the pixel count of the
/// frame.
pub proof fn lemma_full_delivery_count(batches: Seq<Vec<PixelColor>>, width: int, height: int)
    requires
        full_delivery(batches, width, height),
        0 <= width,
        0 <= height,
    ensures
        delivered(batches).len() == width * height,
{
    broadcast use group_to_multiset_ensures;

    assert(width * height >= 0) by (nonlinear_arith)
        requires
            0 <= width,
            0 <= height,
    ;
    let coords = sample_pixels(delivered(batches));
    let frame = all_pixels(width, height);
    assert(coords.to_multiset().len() == coords.len());
    assert(frame.to_multiset().len() == frame.len());
    assert(coords.len() == delivered(batches).len());
    assert(frame.len() == width * height);
}

/// While workers are still delivering, what has reached the aggregator is
/// some of the planned pixels and nothing else, so the progress counter
/// stays between zero and the pixel count of the frame: the progress ratio
/// never leaves `[0, 1]`.
pub proof fn lemma_partial_delivery_bound(
    batches: Seq<Vec<PixelColor>>,
    width: int,
    height: int,
)
    requires
        sample_pixels(delivered(batches)).to_multiset().subset_of(
            all_pixels(width, height).to_multiset(),
        ),
        0 <= width,
        0 <= height,
    ensures
        delivered(batches).len() <= width * height,
{
    broadcast use group_to_multiset_ensures;
    broadcast use vstd::multiset::axiom_len_sub;

    let coords = sample_pixels(delivered(batches));
    let frame = all_pixels(width, height);
    assert(coords.to_multiset().len() == coords.len());
    assert(frame.to_multiset().len() == frame.len());
    assert(frame.to_multiset().sub(coords.to_multiset()).len() == frame.to_multiset().len()
        - coords.to_multiset().len());
    assert(coords.len() == delivered(batches).len());
    assert(width * height >= 0) by (nonlinear_arith)
        requires
            0 <= width,
            0 <= height,
    ;
    assert(frame.len() == width * height);
}

/// After aggregating a full delivery in which every sample carries the same
/// RGBA value, every pixel cell of the buffer holds exactly that value: a
/// render whose every traced pixel came out equal fills the image uniformly.
pub proof fn lemma_uniform_delivery_uniform_buffer(
    data: Seq<u8>,
    batches: Seq<Vec<PixelColor>>,
    width: int,
    height: int,
    c: (u8, u8, u8, u8),
    p: Pixel,
)
    requires
        full_delivery(batches, width, height),
        samples_in_frame(delivered(batches), width, height),
        data.len() == 4 * width * height,
        forall|i: int|
            0 <= i < delivered(batches).len() ==> (#[trigger] delivered(batches)[i]).rgba() == c,
        p.in_frame(width, height),
        width <= u32::MAX,
        height <= u32::MAX,
    ensures
        cell(apply_samples(data, width, delivered(batches)), width, p) == c,
{
    broadcast use group_to_multiset_ensures;

    let samples = delivered(batches);
    let coords = sample_pixels(samples);
    let frame = all_pixels(width, height);
    lemma_all_pixels_distinct(width, height);
    frame.lemma_multiset_has_no_duplicates();
    lemma_all_pixels_complete(width, height, p);
    assert(frame.to_multiset().count(p) == 1);
    assert(coords.to_multiset().count(p) == 1);
    assert(coords.contains(p));
    let k = choose|k: int| 0 <= k < coords.len() && coords[k] == p;
    assert forall|x: Pixel| coords.to_multiset().contains(x) implies coords.to_multiset().count(x)
        == 1 by {
        assert(frame.to_multiset().count(x) > 0);
        assert(frame.contains(x));
    }
    coords.lemma_multiset_has_no_duplicates_conv();
    assert forall|k2: int| 0 <= k2 < samples.len() && k2 != k implies (
    #[trigger] samples[k2]).pixel() != samples[k].pixel() by {
        assert(coords[k2] == samples[k2].pixel());
        assert(coords[k] == samples[k].pixel());
    }
    lemma_apply_samples_once(data, width, height, samples, k);
}

} // verus!
