//! Owned 2D pixel buffers.
//!
//! An [`ImageBuffer`] owns a contiguous row-major sequence of channel items:
//! pixel `(x, y)` (column `x`, row `y`) occupies the `channels` items starting
//! at `(y * width + x) * channels`.  The only mutation is the sub-rectangle
//! copy [`ImageBuffer::tex_sub`]; both rectangles must lie fully inside their
//! buffers, which is a caller obligation, not a recoverable error.

use vstd::prelude::*;

verus! {

/// An owned 2D pixel buffer.
#[derive(Debug)]
pub struct ImageBuffer<T> {
    /// Row-major channel items.
    pub data: Vec<T>,
    /// Width in pixels.
    pub width: i32,
    /// Height in pixels.
    pub height: i32,
    /// Channel items per pixel.
    pub channels: usize,
}

/// Index of channel `c` of pixel `(x, y)` in a row-major buffer of width `w`
/// with `ch` channels per pixel.
pub open spec fn pix_index(w: int, ch: int, x: int, y: int, c: int) -> int {
    (y * w + x) * ch + c
}

/// `pix_index` stays inside a `w × h` buffer.
pub proof fn lemma_pix_index_bounds(w: int, h: int, ch: int, x: int, y: int, c: int)
    requires
        0 <= x < w,
        0 <= y < h,
        0 <= c < ch,
    ensures
        0 <= pix_index(w, ch, x, y, c) < w * h * ch,
        y * w + x < w * h,
        w * h <= w * h * ch,
{
    assert(w * h <= w * h * ch) by (nonlinear_arith)
        requires 0 < w, 0 < h, 1 <= ch;
    assert(0 <= y * w + x < w * h) by (nonlinear_arith)
        requires 0 <= x < w, 0 <= y < h;
    assert(0 <= (y * w + x) * ch + c < (w * h) * ch) by (nonlinear_arith)
        requires 0 <= y * w + x, y * w + x < w * h, 0 <= c < ch;
    assert((w * h) * ch == w * h * ch) by (nonlinear_arith);
}

/// Distinct in-range channel coordinates occupy distinct buffer indices.
pub proof fn lemma_pix_index_injective(
    w: int, h: int, ch: int,
    x1: int, y1: int, c1: int,
    x2: int, y2: int, c2: int,
)
    requires
        0 <= x1 < w,
        0 <= y1 < h,
        0 <= c1 < ch,
        0 <= x2 < w,
        0 <= y2 < h,
        0 <= c2 < ch,
        pix_index(w, ch, x1, y1, c1) == pix_index(w, ch, x2, y2, c2),
    ensures
        x1 == x2 && y1 == y2 && c1 == c2,
{
    let p1 = y1 * w + x1;
    let p2 = y2 * w + x2;
    vstd::arithmetic::div_mod::lemma_fundamental_div_mod_converse(
        p1 * ch + c1, ch, p1, c1);
    vstd::arithmetic::div_mod::lemma_fundamental_div_mod_converse(
        p2 * ch + c2, ch, p2, c2);
    assert(p1 == p2 && c1 == c2);
    vstd::arithmetic::div_mod::lemma_fundamental_div_mod_converse(
        y1 * w + x1, w, y1, x1);
    vstd::arithmetic::div_mod::lemma_fundamental_div_mod_converse(
        y2 * w + x2, w, y2, x2);
}

impl<T: Copy> ImageBuffer<T> {
    /// Structural invariant: the backing storage holds exactly
    /// `width * height * channels` items, and the sizes stay within the
    /// machine limits every caller of this module relies on.
    pub open spec fn wf(self) -> bool {
        &&& 0 <= self.width <= 16384
        &&& 0 <= self.height <= 16384
        &&& 1 <= self.channels <= 4
        &&& self.data@.len() == self.width * self.height * self.channels
    }

    /// Channel `c` of the pixel at column `x`, row `y`.
    pub open spec fn pix(self, x: int, y: int, c: int) -> T {
        self.data@[pix_index(self.width as int, self.channels as int, x, y, c)]
    }

    /// The backing channel-item sequence, row-major.
    pub open spec fn view(self) -> Seq<T> {
        self.data@
    }

    /// Wraps existing row-major data; the data must have exactly
    /// `width * height * channels` items.
    pub fn new(data: Vec<T>, width: i32, height: i32, channels: usize) -> (r: ImageBuffer<T>)
        requires
            0 <= width <= 16384,
            0 <= height <= 16384,
            1 <= channels <= 4,
            data@.len() == width * height * channels,
        ensures
            r.wf(),
            r.width == width,
            r.height == height,
            r.channels == channels,
            r.view() == data@,
    {
        ImageBuffer { data, width, height, channels }
    }

    /// The empty buffer for a format with `channels` channels.
    pub fn empty(channels: usize) -> (r: ImageBuffer<T>)
        requires
            1 <= channels <= 4,
        ensures
            r.wf(),
            r.width == 0,
            r.height == 0,
            r.channels == channels,
            r.view().len() == 0,
    {
        let data: Vec<T> = Vec::new();
        proof {
            assert(data@.len() == 0);
            assert(0 * 0 * (channels as int) == 0) by (nonlinear_arith);
        }
        ImageBuffer { data, width: 0, height: 0, channels }
    }

    /// Allocates a `width × height` buffer in which every pixel holds the
    /// fill pixel `fill` (one item per channel).
    pub fn allocate(fill: &Vec<T>, width: i32, height: i32) -> (r: ImageBuffer<T>)
        requires
            0 <= width <= 16384,
            0 <= height <= 16384,
            1 <= fill@.len() <= 4,
        ensures
            r.wf(),
            r.width == width,
            r.height == height,
            r.channels == fill@.len(),
            forall|x: int, y: int, c: int|
                0 <= x < width && 0 <= y < height && 0 <= c < fill@.len()
                    ==> #[trigger] r.pix(x, y, c) == fill@[c],
    {
        let channels = fill.len();
        proof {
            assert((width * height) * channels == width * height * channels)
                by (nonlinear_arith);
            assert(width * height <= 16384 * 16384
                && width * height * channels <= 16384 * 16384 * 4) by (nonlinear_arith)
                requires 0 <= width <= 16384, 0 <= height <= 16384, 1 <= channels <= 4;
        }
        let total = (width as usize) * (height as usize) * channels;
        let mut data: Vec<T> = Vec::new();
        let mut i: usize = 0;
        while i < total
            invariant
                0 <= i <= total,
                total == width * height * channels,
                1 <= channels <= 4,
                channels == fill@.len(),
                data@.len() == i,
                forall|j: int| 0 <= j < i ==> #[trigger] data@[j] == fill@[j % channels as int],
            decreases total - i,
        {
            data.push(fill[i % channels]);
            i = i + 1;
        }
        let r = ImageBuffer { data, width, height, channels };
        proof {
            assert forall|x: int, y: int, c: int|
                0 <= x < width && 0 <= y < height && 0 <= c < fill@.len()
                    implies #[trigger] r.pix(x, y, c) == fill@[c] by {
                lemma_pix_index_bounds(width as int, height as int, channels as int, x, y, c);
                let p = y * width as int + x;
                assert((p * channels + c) % channels as int == c) by (nonlinear_arith)
                    requires 0 <= c < channels, 0 <= p;
            }
        }
        r
    }

    /// Copies the `sw × sh` rectangle of `src` whose top-left corner is
    /// `(sx, sy)` onto the rectangle of `self` whose top-left corner is
    /// `(dx, dy)`; the two rectangles must have the same size and lie fully
    /// inside their buffers.  Pixels outside the destination rectangle keep
    /// their value.
    pub fn tex_sub(&mut self, src: &ImageBuffer<T>,
        sx: i32, sy: i32, sw: i32, sh: i32,
        dx: i32, dy: i32, dw: i32, dh: i32)
        requires
            old(self).wf(),
            src.wf(),
            old(self).channels == src.channels,
            dw == sw,
            dh == sh,
            0 <= sx && 0 <= sy && 0 <= sw && 0 <= sh,
            sx + sw <= src.width,
            sy + sh <= src.height,
            0 <= dx && 0 <= dy,
            dx + sw <= old(self).width,
            dy + sh <= old(self).height,
        ensures
            final(self).wf(),
            final(self).width == old(self).width,
            final(self).height == old(self).height,
            final(self).channels == old(self).channels,
            forall|r: int, c: int, k: int|
                0 <= r < sh && 0 <= c < sw && 0 <= k < final(self).channels
                    ==> #[trigger] final(self).pix(dx + c, dy + r, k)
                        == src.pix(sx + c, sy + r, k),
            forall|x: int, y: int, k: int|
                0 <= x < final(self).width && 0 <= y < final(self).height
                    && 0 <= k < final(self).channels
                    && !(dx <= x < dx + sw && dy <= y < dy + sh)
                    ==> #[trigger] final(self).pix(x, y, k) == old(self).pix(x, y, k),
    {
        let ghost orig = *self;
        let mut r: i32 = 0;
        while r < sh
            invariant
                0 <= r <= sh,
                self.wf(),
                src.wf(),
                self.width == orig.width,
                self.height == orig.height,
                self.channels == orig.channels,
                self.channels == src.channels,
                0 <= sx && 0 <= sy && 0 <= sw && 0 <= sh,
                sx + sw <= src.width,
                sy + sh <= src.height,
                0 <= dx && 0 <= dy,
                dx + sw <= self.width,
                dy + sh <= self.height,
                forall|rr: int, cc: int, k: int|
                    0 <= rr < r && 0 <= cc < sw && 0 <= k < self.channels
                        ==> #[trigger] self.pix(dx + cc, dy + rr, k)
                            == src.pix(sx + cc, sy + rr, k),
                forall|x: int, y: int, k: int|
                    0 <= x < self.width && 0 <= y < self.height && 0 <= k < self.channels
                        && !(dx <= x < dx + sw && dy <= y < dy + r)
                        ==> #[trigger] self.pix(x, y, k) == orig.pix(x, y, k),
            decreases sh - r,
        {
            let mut c: i32 = 0;
            while c < sw
                invariant
                    0 <= r < sh,
                    0 <= c <= sw,
                    self.wf(),
                    src.wf(),
                    self.width == orig.width,
                    self.height == orig.height,
                    self.channels == orig.channels,
                    self.channels == src.channels,
                    0 <= sx && 0 <= sy && 0 <= sw && 0 <= sh,
                    sx + sw <= src.width,
                    sy + sh <= src.height,
                    0 <= dx && 0 <= dy,
                    dx + sw <= self.width,
                    dy + sh <= self.height,
                    forall|rr: int, cc: int, k: int|
                        0 <= rr < r && 0 <= cc < sw && 0 <= k < self.channels
                            ==> #[trigger] self.pix(dx + cc, dy + rr, k)
                                == src.pix(sx + cc, sy + rr, k),
                    forall|cc: int, k: int|
                        0 <= cc < c && 0 <= k < self.channels
                            ==> #[trigger] self.pix(dx + cc, dy + r, k)
                                == src.pix(sx + cc, sy + r, k),
                    forall|x: int, y: int, k: int|
                        0 <= x < self.width && 0 <= y < self.height && 0 <= k < self.channels
                            && !(dx <= x < dx + sw && dy <= y < dy + r)
                            && !(dx <= x < dx + c && y == dy + r)
                            ==> #[trigger] self.pix(x, y, k) == orig.pix(x, y, k),
                decreases sw - c,
            {
                let v0 = src.get_pix(sx + c, sy + r, 0);
                self.set_pix(dx + c, dy + r, 0, v0);
                let mut k: usize = 1;
                while k < self.channels_count()
                    invariant
                        1 <= k <= self.channels,
                        0 <= r < sh,
                        0 <= c < sw,
                        self.wf(),
                        src.wf(),
                        self.width == orig.width,
                        self.height == orig.height,
                        self.channels == orig.channels,
                        self.channels == src.channels,
                        0 <= sx && 0 <= sy && 0 <= sw && 0 <= sh,
                        sx + sw <= src.width,
                        sy + sh <= src.height,
                        0 <= dx && 0 <= dy,
                        dx + sw <= self.width,
                        dy + sh <= self.height,
                        forall|rr: int, cc: int, kk: int|
                            0 <= rr < r && 0 <= cc < sw && 0 <= kk < self.channels
                                ==> #[trigger] self.pix(dx + cc, dy + rr, kk)
                                    == src.pix(sx + cc, sy + rr, kk),
                        forall|cc: int, kk: int|
                            0 <= cc < c && 0 <= kk < self.channels
                                ==> #[trigger] self.pix(dx + cc, dy + r, kk)
                                    == src.pix(sx + cc, sy + r, kk),
                        forall|kk: int| 0 <= kk < k
                            ==> #[trigger] self.pix(dx + c, dy + r, kk)
                                == src.pix(sx + c, sy + r, kk),
                        forall|x: int, y: int, kk: int|
                            0 <= x < self.width && 0 <= y < self.height
                                && 0 <= kk < self.channels
                                && !(dx <= x < dx + sw && dy <= y < dy + r)
                                && !(dx <= x < dx + c && y == dy + r)
                                && !(x == dx + c && y == dy + r && kk < k)
                                ==> #[trigger] self.pix(x, y, kk) == orig.pix(x, y, kk),
                    decreases self.channels - k,
                {
                    let v = src.get_pix(sx + c, sy + r, k);
                    self.set_pix(dx + c, dy + r, k, v);
                    k = k + 1;
                }
                c = c + 1;
            }
            r = r + 1;
        }
    }

    /// Number of channel items per pixel.
    pub fn channels_count(&self) -> (r: usize)
        ensures r == self.channels,
    {
        self.channels
    }

    /// Channel `c` of the pixel at column `x`, row `y`.
    pub fn get_pix(&self, x: i32, y: i32, c: usize) -> (r: T)
        requires
            self.wf(),
            0 <= x < self.width,
            0 <= y < self.height,
            c < self.channels,
        ensures
            r == self.pix(x as int, y as int, c as int),
    {
        proof {
            lemma_pix_index_bounds(self.width as int, self.height as int,
                self.channels as int, x as int, y as int, c as int);
        }
        let n = self.data.len();
        let idx = ((y as usize) * (self.width as usize) + (x as usize)) * self.channels + c;
        self.data[idx]
    }

    /// Overwrites channel `c` of the pixel at column `x`, row `y`; every
    /// other channel item keeps its value.
    pub fn set_pix(&mut self, x: i32, y: i32, c: usize, v: T)
        requires
            old(self).wf(),
            0 <= x < old(self).width,
            0 <= y < old(self).height,
            c < old(self).channels,
        ensures
            final(self).wf(),
            final(self).width == old(self).width,
            final(self).height == old(self).height,
            final(self).channels == old(self).channels,
            final(self).pix(x as int, y as int, c as int) == v,
            final(self).view() == old(self).view().update(
                pix_index(final(self).width as int, final(self).channels as int,
                    x as int, y as int, c as int), v),
            forall|x2: int, y2: int, c2: int|
                0 <= x2 < final(self).width && 0 <= y2 < final(self).height
                    && 0 <= c2 < final(self).channels
                    && !(x2 == x && y2 == y && c2 == c)
                    ==> #[trigger] final(self).pix(x2, y2, c2) == old(self).pix(x2, y2, c2),
    {
        proof {
            lemma_pix_index_bounds(self.width as int, self.height as int,
                self.channels as int, x as int, y as int, c as int);
        }
        let n = self.data.len();
        let idx = ((y as usize) * (self.width as usize) + (x as usize)) * self.channels + c;
        self.data.set(idx, v);
        proof {
            assert forall|x2: int, y2: int, c2: int|
                0 <= x2 < self.width && 0 <= y2 < self.height && 0 <= c2 < self.channels
                    && !(x2 == x && y2 == y && c2 == c)
                    implies #[trigger] self.pix(x2, y2, c2) == old(self).pix(x2, y2, c2) by {
                lemma_pix_index_bounds(self.width as int, self.height as int,
                    self.channels as int, x2, y2, c2);
                if pix_index(self.width as int, self.channels as int, x2, y2, c2)
                    == pix_index(self.width as int, self.channels as int,
                        x as int, y as int, c as int) {
                    lemma_pix_index_injective(self.width as int, self.height as int,
                        self.channels as int, x2, y2, c2, x as int, y as int, c as int);
                }
            }
        }
    }

    /// Read-only access to the row-major channel items.
    pub fn get_data(&self) -> (r: &Vec<T>)
        ensures r@ == self.view(),
    {
        &self.data
    }

    /// Buffer width in pixels.
    pub fn width(&self) -> (r: i32)
        ensures r == self.width,
    {
        self.width
    }

    /// Buffer height in pixels.
    pub fn height(&self) -> (r: i32)
        ensures r == self.height,
    {
        self.height
    }
}

/// The closed set of pixel buffers the pipeline produces, one variant per
/// supported wire format.  Floating-point samples are carried as their raw
/// bit patterns; interpreting them is the GPU collaborator's business.
pub enum ImageBufferType {
    /// 3-channel 8-bit pixels.
    JPG(ImageBuffer<u8>),
    /// 4-channel 8-bit pixels.
    PNG(ImageBuffer<u8>),
    /// 1-channel 32-bit float samples, as raw bit patterns.
    R32F(ImageBuffer<u32>),
    /// 1-channel unsigned 8-bit samples.
    R8UI(ImageBuffer<u8>),
    /// 1-channel signed 16-bit samples.
    R16I(ImageBuffer<i16>),
    /// 1-channel signed 32-bit samples.
    R32I(ImageBuffer<i32>),
}

} // verus!
