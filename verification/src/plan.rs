//! The work plan of one render: which worker traces which pixels, in which
//! batches.
//!
//! The image's pixels are enumerated, shuffled, and partitioned into one
//! contiguous slice per worker; each worker cuts its slice into fixed-size
//! batches and sends every traced batch to the aggregator as one message.
//! The plan's well-formedness says that the slices together hold every pixel
//! of the frame exactly once; everything the pipeline promises about buffer
//! writes and progress rests on that.

use vstd::prelude::*;

verus! {

use vstd::seq_lib::lemma_flatten_concat;
use vstd::seq_lib::group_to_multiset_ensures;
use vstd::arithmetic::div_mod::lemma_basic_div;
use vstd::arithmetic::div_mod::lemma_fundamental_div_mod;
use vstd::arithmetic::div_mod::lemma_fundamental_div_mod_converse;
use vstd::arithmetic::div_mod::lemma_mod_pos_bound;

use crate::pixel::{Pixel, all_pixels, lemma_all_pixels_distinct, lemma_all_pixels_complete,
    lemma_all_pixels_in_frame, enumerate_pixels};
use crate::rng::{fresh_rng, shuffle_pixels};

/// How many pixels one worker batch holds: the tuning knob that trades
/// channel overhead against progress granularity.
pub const BATCH_SIZE: usize = 500;

/// The sequences of pixels held by a vector of slices.
pub open spec fn slices_view(slices: Seq<Vec<Pixel>>) -> Seq<Seq<Pixel>> {
    slices.map_values(|s: Vec<Pixel>| s@)
}

/// Length of every worker slice but the last: an equal share of the pixels,
/// with a floor of one pixel per slice when there are more workers than
/// pixels.
pub open spec fn worker_share(n: int, workers: int) -> int {
    if n / workers >= 1 {
        n / workers
    } else {
        1
    }
}

/// How many slices a partition of `n` pixels over `workers` workers has.
pub open spec fn slice_count(n: int, workers: int) -> int {
    if n < workers {
        n
    } else {
        workers
    }
}

/// How many batches a slice of `n` pixels cut at `size` yields: the
/// rounded-up quotient.
pub open spec fn batch_count(n: int, size: int) -> int {
    if n == 0 {
        0
    } else {
        (n + size - 1) / size
    }
}

/// Appending one more inner sequence extends the flattening by exactly that
/// sequence.
pub proof fn lemma_flatten_push<A>(s: Seq<Seq<A>>, v: Seq<A>)
    ensures
        s.push(v).flatten() == s.flatten() + v,
{
    assert(s.push(v) =~= s + seq![v]);
    lemma_flatten_concat(s, seq![v]);
    seq![v].lemma_flatten_one_element();
}

/// A flattening splits at any inner boundary into the flattenings of the two
/// halves.
pub proof fn lemma_flatten_split<A>(s: Seq<Seq<A>>, i: int)
    requires
        0 <= i <= s.len(),
    ensures
        s.flatten() == s.subrange(0, i).flatten() + s.subrange(i, s.len() as int).flatten(),
{
    assert(s.subrange(0, i) + s.subrange(i, s.len() as int) =~= s);
    lemma_flatten_concat(s.subrange(0, i), s.subrange(i, s.len() as int));
}

/// Split the shuffled pixel list into one contiguous slice per worker.
///
/// Every slice but the last holds an equal share, the last absorbs the
/// remainder, and with more workers than pixels the partition degenerates to
/// one pixel per slice.  Concatenated in order, the slices give back exactly
/// the input list: no pixel is dropped or duplicated.
pub fn partition_pixels(pixels: &Vec<Pixel>, workers: usize) -> (slices: Vec<Vec<Pixel>>)
    requires
        workers >= 1,
    ensures
        slices_view(slices@).flatten() == pixels@,
        slices@.len() == slice_count(pixels@.len() as int, workers as int),
        forall|i: int|
            0 <= i < slices@.len() ==> (#[trigger] slices@[i])@.len() == (if i + 1
                < slices@.len() {
                worker_share(pixels@.len() as int, workers as int)
            } else {
                pixels@.len() - (slices@.len() - 1) * worker_share(
                    pixels@.len() as int,
                    workers as int,
                )
            }),
        forall|i: int| 0 <= i < slices@.len() ==> (#[trigger] slices@[i])@.len() >= 1,
{
    let n = pixels.len();
    let base: usize = if n / workers >= 1 {
        n / workers
    } else {
        1
    };
    let count: usize = if n < workers {
        n
    } else {
        workers
    };
    proof {
        assert(base == worker_share(n as int, workers as int));
        if n >= workers {
            lemma_fundamental_div_mod(n as int, workers as int);
            lemma_mod_pos_bound(n as int, workers as int);
            assert(workers * base <= n);
            assert((count - 1) * base == workers * base - base) by (nonlinear_arith)
                requires
                    count == workers as int,
            ;
            assert((count - 1) * base < n);
        } else if n >= 1 {
            lemma_basic_div(n as int, workers as int);
            assert(base == 1);
            assert((count - 1) * base == n - 1) by (nonlinear_arith)
                requires
                    count == n as int,
                    base == 1,
            ;
        }
        assert((count - 1) * base < n || count == 0);
    }
    let mut slices: Vec<Vec<Pixel>> = Vec::new();
    let mut start: usize = 0;
    let mut s: usize = 0;
    while s < count
        invariant
            workers >= 1,
            base == worker_share(n as int, workers as int),
            base >= 1,
            count == slice_count(n as int, workers as int),
            count <= workers,
            n == pixels@.len(),
            (count - 1) * base < n || count == 0,
            slices@.len() == s,
            s <= count,
            start == if s < count { s * base } else { n as int },
            start <= n,
            slices_view(slices@).flatten() =~= pixels@.subrange(0, start as int),
            forall|i: int|
                0 <= i < s ==> (#[trigger] slices@[i])@.len() == (if i + 1 < count as int {
                    base as int
                } else {
                    n - (count - 1) * base
                }),
        decreases count - s,
    {
        proof {
            assert(s * base + base == (s + 1) * base) by (nonlinear_arith);
            assert(s + 1 < count ==> (s + 1) * base <= (count - 1) * base) by (nonlinear_arith)
                requires
                    base >= 1,
            ;
        }
        let end: usize = if s + 1 == count {
            n
        } else {
            start + base
        };
        let mut slice: Vec<Pixel> = Vec::new();
        let mut i: usize = start;
        while i < end
            invariant
                start <= i <= end,
                end <= n,
                n == pixels@.len(),
                slice@ =~= pixels@.subrange(start as int, i as int),
            decreases end - i,
        {
            let p = pixels[i];
            slice.push(p);
            i = i + 1;
        }
        proof {
            let ghost prior = slices_view(slices@);
            assert(slices_view(slices@.push(slice)) =~= prior.push(slice@));
            lemma_flatten_push(prior, slice@);
            assert(pixels@.subrange(0, start as int) + pixels@.subrange(start as int, end as int)
                =~= pixels@.subrange(0, end as int));
        }
        slices.push(slice);
        start = end;
        s = s + 1;
    }
    proof {
        assert(slices_view(slices@).flatten() =~= pixels@.subrange(0, n as int));
        assert(pixels@.subrange(0, n as int) =~= pixels@);
    }
    slices
}

/// Cut one worker slice into batches of at most `batch_size` pixels: every
/// batch but the last is full, and concatenated in order the batches give
/// back exactly the slice.
pub fn make_batches(slice: &Vec<Pixel>, batch_size: usize) -> (batches: Vec<Vec<Pixel>>)
    requires
        batch_size >= 1,
    ensures
        slices_view(batches@).flatten() == slice@,
        batches@.len() == batch_count(slice@.len() as int, batch_size as int),
        forall|i: int|
            0 <= i < batches@.len() ==> 1 <= (#[trigger] batches@[i])@.len() <= batch_size,
        forall|i: int|
            0 <= i < batches@.len() - 1 ==> (#[trigger] batches@[i])@.len() == batch_size,
{
    let n = slice.len();
    let mut batches: Vec<Vec<Pixel>> = Vec::new();
    let mut start: usize = 0;
    while start < n
        invariant
            n == slice@.len(),
            start <= n,
            slices_view(batches@).flatten() =~= slice@.subrange(0, start as int),
            batch_size >= 1,
            start == n || start == batches@.len() * batch_size,
            start == n ==> batches@.len() == batch_count(n as int, batch_size as int),
            forall|i: int|
                0 <= i < batches@.len() ==> 1 <= (#[trigger] batches@[i])@.len() <= batch_size,
            start < n ==> forall|i: int|
                0 <= i < batches@.len() ==> (#[trigger] batches@[i])@.len() == batch_size,
            forall|i: int|
                0 <= i < batches@.len() - 1 ==> (#[trigger] batches@[i])@.len() == batch_size,
        decreases n - start,
    {
        let end: usize = if n - start < batch_size {
            n
        } else {
            start + batch_size
        };
        proof {
            let ghost len0: int = batches@.len() as int;
            assert((len0 + 1) * batch_size == len0 * batch_size + batch_size)
                by (nonlinear_arith);
            if end == n {
                lemma_fundamental_div_mod_converse(
                    n + batch_size - 1,
                    batch_size as int,
                    len0 + 1,
                    n - 1 - len0 * batch_size,
                );
            }
        }
        let mut batch: Vec<Pixel> = Vec::new();
        let mut i: usize = start;
        while i < end
            invariant
                start <= i <= end,
                end <= n,
                n == slice@.len(),
                batch@ =~= slice@.subrange(start as int, i as int),
            decreases end - i,
        {
            let p = slice[i];
            batch.push(p);
            i = i + 1;
        }
        proof {
            let ghost prior = slices_view(batches@);
            assert(slices_view(batches@.push(batch)) =~= prior.push(batch@));
            lemma_flatten_push(prior, batch@);
            assert(slice@.subrange(0, start as int) + slice@.subrange(start as int, end as int)
                =~= slice@.subrange(0, end as int));
        }
        batches.push(batch);
        start = end;
    }
    proof {
        assert(slice@.subrange(0, n as int) =~= slice@);
    }
    batches
}

/// The finished plan of one render: the image size and one pixel slice per
/// worker, drawn from a uniformly shuffled enumeration of the frame.
pub struct RenderPlan {
    pub width: u32,
    pub height: u32,
    pub slices: Vec<Vec<Pixel>>,
}

impl RenderPlan {
    /// Every pixel the plan hands to some worker, slices concatenated in
    /// order.
    pub open spec fn planned(self) -> Seq<Pixel> {
        slices_view(self.slices@).flatten()
    }

    /// The plan holds every pixel of the frame exactly once, spread over
    /// nonempty slices.
    pub open spec fn wf(self) -> bool {
        &&& self.planned().to_multiset() == all_pixels(
            self.width as int,
            self.height as int,
        ).to_multiset()
        &&& forall|i: int| 0 <= i < self.slices@.len() ==> (#[trigger] self.slices@[i])@.len() >= 1
    }
}

/// Build the plan of one render: enumerate every pixel of the frame, shuffle
/// them so that completion order is spatially unbiased, and partition the
/// shuffled list into one contiguous slice per worker.
///
/// Whatever permutation the shuffle draws, the plan is well-formed: together
/// the slices hold every pixel of the frame exactly once.
pub fn plan_render(width: u32, height: u32, workers: usize) -> (plan: RenderPlan)
    requires
        workers >= 1,
        (width as int) * (height as int) <= usize::MAX,
    ensures
        plan.width == width,
        plan.height == height,
        plan.wf(),
        plan.slices@.len() == slice_count((width as int) * (height as int), workers as int),
        forall|i: int|
            0 <= i < plan.slices@.len() ==> (#[trigger] plan.slices@[i])@.len() == (if i + 1
                < plan.slices@.len() {
                worker_share((width as int) * (height as int), workers as int)
            } else {
                (width as int) * (height as int) - (plan.slices@.len() - 1) * worker_share(
                    (width as int) * (height as int),
                    workers as int,
                )
            }),
{
    let mut pixels = enumerate_pixels(width, height);
    let mut rng = fresh_rng();
    shuffle_pixels(&mut pixels, &mut rng);
    let slices = partition_pixels(&pixels, workers);
    RenderPlan { width, height, slices }
}

/// Every pixel of the frame is planned exactly once, and nothing outside the
/// frame is planned: the heart of the pipeline's one-writer-per-pixel
/// guarantee.
pub proof fn lemma_plan_pixel_coverage(plan: RenderPlan)
    requires
        plan.wf(),
    ensures
        plan.planned().len() == (plan.width as int) * (plan.height as int),
        forall|p: Pixel|
            p.in_frame(plan.width as int, plan.height as int)
                ==> plan.planned().to_multiset().count(p) == 1,
        forall|i: int|
            0 <= i < plan.planned().len() ==> (#[trigger] plan.planned()[i]).in_frame(
                plan.width as int,
                plan.height as int,
            ),
{
    broadcast use group_to_multiset_ensures;

    let w = plan.width as int;
    let h = plan.height as int;
    let frame = all_pixels(w, h);
    lemma_all_pixels_distinct(w, h);
    frame.lemma_multiset_has_no_duplicates();
    assert(plan.planned().len() == plan.planned().to_multiset().len());
    assert(frame.len() == frame.to_multiset().len());
    assert(frame.len() == w * h);
    assert forall|p: Pixel| p.in_frame(w, h) implies plan.planned().to_multiset().count(p)
        == 1 by {
        lemma_all_pixels_complete(w, h, p);
        assert(frame.to_multiset().count(p) == 1);
    }
    lemma_all_pixels_in_frame(w, h);
    assert forall|i: int| 0 <= i < plan.planned().len() implies (
    #[trigger] plan.planned()[i]).in_frame(w, h) by {
        let p = plan.planned()[i];
        assert(plan.planned().contains(p));
        assert(plan.planned().to_multiset().count(p) > 0);
        assert(frame.to_multiset().count(p) > 0);
        assert(frame.contains(p));
    }
}

/// The set of pixels a render covers does not depend on the worker count:
/// two well-formed plans for the same frame plan the same pixels the same
/// number of times, however many slices each spreads them over.
pub proof fn lemma_coverage_independent_of_workers(a: RenderPlan, b: RenderPlan)
    requires
        a.wf(),
        b.wf(),
        a.width == b.width,
        a.height == b.height,
    ensures
        a.planned().to_multiset() == b.planned().to_multiset(),
{
}

} // verus!
