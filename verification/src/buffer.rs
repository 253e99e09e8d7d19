//! The shared output buffer and the aggregation of traced batches.
//!
//! Workers never touch the buffer: they produce batches of finished pixel
//! samples, and a single aggregator writes each sample's four RGBA bytes at
//! offset `4 * (x * width + y)` and advances the progress counter by one per
//! delivered pixel.  The buffer's mathematical model is a fold of single
//! pixel writes over the delivered samples, from which the pipeline's laws
//! follow: the buffer keeps its exact length, no byte outside a delivered
//! pixel's cell is ever touched, and a pixel delivered exactly once holds
//! exactly its sample's bytes.

use vstd::prelude::*;

verus! {

use crate::pixel::Pixel;
use crate::plan::{lemma_flatten_push, lemma_flatten_split};

/// One finished pixel: its coordinate and its final RGBA bytes, as one
/// worker hands it to the aggregator.
#[derive(Clone, Copy, PartialEq, Eq, Structural, Debug)]
pub struct PixelColor {
    pub x: u32,
    pub y: u32,
    pub r: u8,
    pub g: u8,
    pub b: u8,
    pub a: u8,
}

impl PixelColor {
    /// The coordinate this sample colors.
    pub open spec fn pixel(self) -> Pixel {
        Pixel { x: self.x, y: self.y }
    }

    /// The four bytes this sample writes.
    pub open spec fn rgba(self) -> (u8, u8, u8, u8) {
        (self.r, self.g, self.b, self.a)
    }

    /// The sample's coordinate lies inside a `width` by `height` image.
    pub open spec fn in_frame(self, width: int, height: int) -> bool {
        self.pixel().in_frame(width, height)
    }
}

/// The coordinates of a batch of samples, in delivery order.
pub open spec fn sample_pixels(batch: Seq<PixelColor>) -> Seq<Pixel> {
    batch.map_values(|s: PixelColor| s.pixel())
}

/// One sample written into the raw bytes of a `width`-pixel-wide buffer.
pub open spec fn write_sample(data: Seq<u8>, width: int, s: PixelColor) -> Seq<u8> {
    let off = s.pixel().offset(width);
    data.update(off, s.r).update(off + 1, s.g).update(off + 2, s.b).update(off + 3, s.a)
}

/// A batch of samples written in delivery order: the buffer model that every
/// aggregation contract speaks of.
pub open spec fn apply_samples(data: Seq<u8>, width: int, batch: Seq<PixelColor>) -> Seq<u8>
    decreases batch.len(),
{
    if batch.len() == 0 {
        data
    } else {
        apply_samples(write_sample(data, width, batch.first()), width, batch.drop_first())
    }
}

/// Writing a batch and then one more sample is writing the extended batch.
pub proof fn lemma_apply_samples_push(data: Seq<u8>, width: int, batch: Seq<PixelColor>, s: PixelColor)
    ensures
        apply_samples(data, width, batch.push(s)) == write_sample(
            apply_samples(data, width, batch),
            width,
            s,
        ),
    decreases batch.len(),
{
    assert(batch.push(s)[0] == if batch.len() == 0 { s } else { batch[0] });
    if batch.len() == 0 {
        assert(batch.push(s).drop_first() =~= batch);
        assert(apply_samples(data, width, batch.push(s)) == apply_samples(
            write_sample(data, width, s),
            width,
            batch,
        ));
        assert(apply_samples(write_sample(data, width, s), width, batch) == write_sample(
            data,
            width,
            s,
        ));
        assert(apply_samples(data, width, batch) == data);
    } else {
        assert(batch.push(s).drop_first() =~= batch.drop_first().push(s));
        assert(apply_samples(data, width, batch.push(s)) == apply_samples(
            write_sample(data, width, batch.first()),
            width,
            batch.drop_first().push(s),
        ));
        lemma_apply_samples_push(
            write_sample(data, width, batch.first()),
            width,
            batch.drop_first(),
            s,
        );
        assert(apply_samples(data, width, batch) == apply_samples(
            write_sample(data, width, batch.first()),
            width,
            batch.drop_first(),
        ));
    }
}

/// Writing two batches in turn is writing their concatenation.
pub proof fn lemma_apply_samples_concat(
    data: Seq<u8>,
    width: int,
    left: Seq<PixelColor>,
    right: Seq<PixelColor>,
)
    ensures
        apply_samples(data, width, left + right) == apply_samples(
            apply_samples(data, width, left),
            width,
            right,
        ),
    decreases right.len(),
{
    if right.len() == 0 {
        assert(left + right =~= left);
    } else {
        assert(left + right =~= (left + right.drop_last()).push(right.last()));
        assert(right.drop_last().push(right.last()) =~= right);
        lemma_apply_samples_concat(data, width, left, right.drop_last());
        lemma_apply_samples_push(data, width, left + right.drop_last(), right.last());
        lemma_apply_samples_push(apply_samples(data, width, left), width, right.drop_last(), right.last());
    }
}

/// Every sample of the batch lies inside a `width` by `height` image.
pub open spec fn samples_in_frame(batch: Seq<PixelColor>, width: int, height: int) -> bool {
    forall|i: int| 0 <= i < batch.len() ==> (#[trigger] batch[i]).in_frame(width, height)
}

/// An in-frame sample's four bytes land inside a full-size buffer, so the
/// write keeps the buffer's length.
pub proof fn lemma_write_sample_len(data: Seq<u8>, width: int, height: int, s: PixelColor)
    requires
        s.in_frame(width, height),
        data.len() == 4 * width * height,
    ensures
        write_sample(data, width, s).len() == data.len(),
        0 <= s.pixel().offset(width),
        s.pixel().offset(width) + 4 <= data.len(),
{
    assert(0 <= 4 * ((s.x as int) * width + (s.y as int)) && 4 * ((s.x as int) * width + (
    s.y as int)) + 4 <= 4 * width * height) by (nonlinear_arith)
        requires
            0 <= (s.x as int) < height,
            0 <= (s.y as int) < width,
    ;
}

/// However many in-frame samples are written, a full-size buffer keeps its
/// exact length.
pub proof fn lemma_apply_samples_len(data: Seq<u8>, width: int, height: int, batch: Seq<PixelColor>)
    requires
        samples_in_frame(batch, width, height),
        data.len() == 4 * width * height,
    ensures
        apply_samples(data, width, batch).len() == data.len(),
    decreases batch.len(),
{
    if batch.len() > 0 {
        lemma_write_sample_len(data, width, height, batch.first());
        lemma_apply_samples_len(
            write_sample(data, width, batch.first()),
            width,
            height,
            batch.drop_first(),
        );
    }
}

/// The sample's write lands on byte `j` of the buffer.
pub open spec fn covers(s: PixelColor, width: int, j: int) -> bool {
    s.pixel().offset(width) <= j < s.pixel().offset(width) + 4
}

/// The four bytes a buffer holds for pixel `p`.
pub open spec fn cell(data: Seq<u8>, width: int, p: Pixel) -> (u8, u8, u8, u8) {
    let off = p.offset(width);
    (data[off], data[off + 1], data[off + 2], data[off + 3])
}

/// Writing one in-frame sample fills exactly its own cell.
pub proof fn lemma_write_sample_cell(data: Seq<u8>, width: int, height: int, s: PixelColor)
    requires
        s.in_frame(width, height),
        data.len() == 4 * width * height,
    ensures
        cell(write_sample(data, width, s), width, s.pixel()) == s.rgba(),
        forall|j: int|
            0 <= j < data.len() && !covers(s, width, j) ==> write_sample(data, width, s)[j]
                == data[j],
{
    lemma_write_sample_len(data, width, height, s);
}

/// A byte that no sample of the batch covers is left exactly as it was:
/// aggregation never writes outside the delivered pixels' cells.
pub proof fn lemma_apply_samples_untouched(
    data: Seq<u8>,
    width: int,
    height: int,
    batch: Seq<PixelColor>,
    j: int,
)
    requires
        samples_in_frame(batch, width, height),
        data.len() == 4 * width * height,
        0 <= j < data.len(),
        forall|k: int| 0 <= k < batch.len() ==> !covers(#[trigger] batch[k], width, j),
    ensures
        apply_samples(data, width, batch)[j] == data[j],
    decreases batch.len(),
{
    if batch.len() > 0 {
        lemma_write_sample_cell(data, width, height, batch.first());
        lemma_write_sample_len(data, width, height, batch.first());
        assert(forall|k: int|
            0 <= k < batch.drop_first().len() ==> batch.drop_first()[k] == batch[k + 1]);
        lemma_apply_samples_untouched(
            write_sample(data, width, batch.first()),
            width,
            height,
            batch.drop_first(),
            j,
        );
    }
}

/// A pixel delivered exactly once holds exactly its sample's bytes after
/// aggregation, whatever else the delivery contains: no other sample ever
/// touches its cell.
pub proof fn lemma_apply_samples_once(
    data: Seq<u8>,
    width: int,
    height: int,
    batch: Seq<PixelColor>,
    k: int,
)
    requires
        samples_in_frame(batch, width, height),
        data.len() == 4 * width * height,
        0 <= k < batch.len(),
        forall|k2: int|
            0 <= k2 < batch.len() && k2 != k ==> (#[trigger] batch[k2]).pixel()
                != batch[k].pixel(),
    ensures
        cell(apply_samples(data, width, batch), width, batch[k].pixel()) == batch[k].rgba(),
    decreases batch.len(),
{
    let s = batch[k];
    let off = s.pixel().offset(width);
    if k == 0 {
        let d1 = write_sample(data, width, s);
        lemma_write_sample_cell(data, width, height, s);
        lemma_write_sample_len(data, width, height, s);
        let rest = batch.drop_first();
        assert(forall|k2: int| 0 <= k2 < rest.len() ==> rest[k2] == batch[k2 + 1]);
        assert forall|k2: int, j: int|
            0 <= k2 < rest.len() && off <= j < off + 4 implies !covers(rest[k2], width, j) by {
            crate::pixel::lemma_offset_disjoint(width, height, rest[k2].pixel(), s.pixel());
        }
        assert forall|j: int| off <= j < off + 4 implies apply_samples(d1, width, rest)[j]
            == d1[j] by {
            lemma_apply_samples_untouched(d1, width, height, rest, j);
        }
    } else {
        let rest = batch.drop_first();
        assert(forall|k2: int| 0 <= k2 < rest.len() ==> rest[k2] == batch[k2 + 1]);
        lemma_write_sample_len(data, width, height, batch.first());
        lemma_apply_samples_once(
            write_sample(data, width, batch.first()),
            width,
            height,
            rest,
            k - 1,
        );
    }
}

/// The one shared render target: a row-major RGBA byte buffer of exactly
/// `4 * width * height` bytes, and the count of pixels delivered so far.
pub struct FrameBuffer {
    pub width: u32,
    pub height: u32,
    pub data: Vec<u8>,
    pub completed: usize,
}

impl FrameBuffer {
    /// The buffer has exactly four bytes per pixel of the frame, and that
    /// many bytes is addressable on this machine.
    pub open spec fn wf(self) -> bool {
        &&& self.data@.len() == 4 * (self.width as int) * (self.height as int)
        &&& 4 * (self.width as int) * (self.height as int) <= usize::MAX
    }

    /// A zeroed buffer for a `width` by `height` render with no pixel
    /// delivered yet.
    pub fn new(width: u32, height: u32) -> (buf: FrameBuffer)
        requires
            4 * (width as int) * (height as int) <= usize::MAX,
        ensures
            buf.wf(),
            buf.width == width,
            buf.height == height,
            buf.completed == 0,
            buf.data@ =~= Seq::new((4 * (width as int) * (height as int)) as nat, |i: int| 0u8),
    {
        proof {
            assert((width as int) * (height as int) >= 0) by (nonlinear_arith);
            assert((width as int) * (height as int) * 4 == 4 * (width as int) * (height as int))
                by (nonlinear_arith);
        }
        let len: usize = (width as usize) * (height as usize) * 4;
        let mut data: Vec<u8> = Vec::new();
        let mut i: usize = 0;
        while i < len
            invariant
                i <= len,
                data@ =~= Seq::new(i as nat, |j: int| 0u8),
            decreases len - i,
        {
            data.push(0u8);
            i = i + 1;
        }
        FrameBuffer { width, height, data, completed: 0 }
    }

    /// Pixel count of the frame: the denominator of every progress query,
    /// and what the progress counter reads after a full render.
    pub fn total_pixels(&self) -> (n: usize)
        requires
            self.wf(),
        ensures
            n == (self.width as int) * (self.height as int),
    {
        proof {
            assert((self.width as int) * (self.height as int) >= 0 && (self.width as int) * (
            self.height as int) * 4 == 4 * (self.width as int) * (self.height as int))
                by (nonlinear_arith);
        }
        (self.width as usize) * (self.height as usize)
    }

    /// Write one sample's four bytes at its offset.  Nothing else of the
    /// buffer, and not the progress counter, changes.
    pub fn write_pixel(&mut self, s: PixelColor)
        requires
            old(self).wf(),
            s.in_frame(old(self).width as int, old(self).height as int),
        ensures
            final(self).wf(),
            final(self).width == old(self).width,
            final(self).height == old(self).height,
            final(self).completed == old(self).completed,
            final(self).data@ == write_sample(
                old(self).data@,
                old(self).width as int,
                s,
            ),
    {
        let ghost w: int = self.width as int;
        let ghost h: int = self.height as int;
        proof {
            assert(0 <= (s.x as int) * w + (s.y as int) && 4 * ((s.x as int) * w + (s.y as int))
                + 4 <= 4 * w * h) by (nonlinear_arith)
                requires
                    0 <= (s.x as int) < h,
                    0 <= (s.y as int) < w,
            ;
        }
        let off: usize = 4 * ((s.x as usize) * (self.width as usize) + (s.y as usize));
        self.data.set(off, s.r);
        self.data.set(off + 1, s.g);
        self.data.set(off + 2, s.b);
        self.data.set(off + 3, s.a);
    }

    /// Aggregate one delivered batch: count its pixels as progress, then
    /// write every sample.  The progress counter never decreases, and the
    /// buffer becomes the old bytes with exactly this batch written.
    pub fn apply_batch(&mut self, batch: &Vec<PixelColor>)
        requires
            old(self).wf(),
            samples_in_frame(batch@, old(self).width as int, old(self).height as int),
            old(self).completed + batch@.len() <= usize::MAX,
        ensures
            final(self).wf(),
            final(self).width == old(self).width,
            final(self).height == old(self).height,
            final(self).completed >= old(self).completed,
            final(self).completed == old(self).completed + batch@.len(),
            final(self).data@ == apply_samples(
                old(self).data@,
                old(self).width as int,
                batch@,
            ),
    {
        self.completed = self.completed + batch.len();
        let ghost w0: u32 = self.width;
        let ghost h0: u32 = self.height;
        let ghost c0: usize = self.completed;
        let ghost orig: Seq<u8> = self.data@;
        let mut i: usize = 0;
        while i < batch.len()
            invariant
                i <= batch@.len(),
                self.wf(),
                self.width == w0,
                self.height == h0,
                self.completed == c0,
                samples_in_frame(batch@, w0 as int, h0 as int),
                self.data@ == apply_samples(orig, w0 as int, batch@.subrange(0, i as int)),
            decreases batch@.len() - i,
        {
            let s = batch[i];
            proof {
                lemma_apply_samples_push(orig, w0 as int, batch@.subrange(0, i as int), s);
                assert(batch@.subrange(0, i as int).push(s) =~= batch@.subrange(0, i + 1));
            }
            self.write_pixel(s);
            i = i + 1;
        }
        proof {
            assert(batch@.subrange(0, batch@.len() as int) =~= batch@);
        }
    }

    /// Aggregate a whole delivery in order.  The progress counter advances
    /// by exactly one per delivered pixel, and the buffer becomes the old
    /// bytes with every delivered sample written.
    pub fn apply_batches(&mut self, batches: &Vec<Vec<PixelColor>>)
        requires
            old(self).wf(),
            samples_in_frame(
                delivered(batches@),
                old(self).width as int,
                old(self).height as int,
            ),
            old(self).completed + delivered(batches@).len() <= usize::MAX,
        ensures
            final(self).wf(),
            final(self).width == old(self).width,
            final(self).height == old(self).height,
            final(self).completed >= old(self).completed,
            final(self).completed == old(self).completed + delivered(batches@).len(),
            final(self).data@ == apply_samples(
                old(self).data@,
                old(self).width as int,
                delivered(batches@),
            ),
    {
        let ghost w0: u32 = self.width;
        let ghost h0: u32 = self.height;
        let ghost c0: usize = self.completed;
        let ghost orig: Seq<u8> = self.data@;
        let ghost whole: Seq<PixelColor> = delivered(batches@);
        let mut i: usize = 0;
        while i < batches.len()
            invariant
                i <= batches@.len(),
                self.wf(),
                self.width == w0,
                self.height == h0,
                whole == delivered(batches@),
                samples_in_frame(whole, w0 as int, h0 as int),
                c0 + whole.len() <= usize::MAX,
                self.completed == c0 + batches_view(batches@).subrange(0, i as int).flatten().len(),
                self.data@ == apply_samples(
                    orig,
                    w0 as int,
                    batches_view(batches@).subrange(0, i as int).flatten(),
                ),
            decreases batches@.len() - i,
        {
            let ghost bs = batches_view(batches@);
            let ghost done = bs.subrange(0, i as int).flatten();
            let ghost rest = bs.subrange(i as int, bs.len() as int);
            proof {
                lemma_flatten_split(bs, i as int);
                assert(rest.drop_first() =~= bs.subrange(i + 1, bs.len() as int));
                assert(rest.flatten() == batches@[i as int]@ + rest.drop_first().flatten());
                assert(whole == done + (batches@[i as int]@ + rest.drop_first().flatten()));
                assert forall|j: int| 0 <= j < batches@[i as int]@.len() implies (
                #[trigger] batches@[i as int]@[j]).in_frame(w0 as int, h0 as int) by {
                    assert(whole[done.len() + j] == batches@[i as int]@[j]);
                }
                assert(done.len() + batches@[i as int]@.len() <= whole.len());
                lemma_apply_samples_concat(orig, w0 as int, done, batches@[i as int]@);
                lemma_flatten_push(bs.subrange(0, i as int), batches@[i as int]@);
                assert(bs.subrange(0, i as int).push(batches@[i as int]@) =~= bs.subrange(
                    0,
                    i + 1,
                ));
            }
            self.apply_batch(&batches[i]);
            i = i + 1;
        }
        proof {
            assert(batches_view(batches@).subrange(0, batches@.len() as int) =~= batches_view(
                batches@,
            ));
        }
    }
}

/// The sequences of samples held by a vector of delivered batches.
pub open spec fn batches_view(batches: Seq<Vec<PixelColor>>) -> Seq<Seq<PixelColor>> {
    batches.map_values(|b: Vec<PixelColor>| b@)
}

/// Every sample of a delivery, batches concatenated in order.
pub open spec fn delivered(batches: Seq<Vec<PixelColor>>) -> Seq<PixelColor> {
    batches_view(batches).flatten()
}

} // verus!
