use vstd::prelude::*;

use vstd::arithmetic::div_mod::{lemma_fundamental_div_mod, lemma_fundamental_div_mod_converse};

use crate::cnn::classifier::{infer_square_dimensions_and_channels, square_image_shape};
use crate::cnn::rng::{inclusive_draw, xorshift_step, TransformRng};

verus! {

/// The offset of channel `c` of pixel `(x, y)` in an image stored row by row.
pub open spec fn pixel_index(width: int, channels: int, x: int, y: int, c: int) -> int {
    (y * width + x) * channels + c
}

/// The column of the pixel an offset belongs to.
pub open spec fn column_of(width: int, channels: int, j: int) -> int {
    (j / channels) % width
}

/// The row of the pixel an offset belongs to.
pub open spec fn row_of(width: int, channels: int, j: int) -> int {
    (j / channels) / width
}

/// The channel an offset belongs to.
pub open spec fn channel_of(channels: int, j: int) -> int {
    j % channels
}

/// The offsets of an image's pixels lie inside it.
pub proof fn lemma_pixel_index_bounds(w: int, h: int, ch: int, x: int, y: int, c: int)
    requires
        0 <= x < w,
        0 <= y < h,
        0 <= c < ch,
    ensures
        0 <= pixel_index(w, ch, x, y, c) < h * w * ch,
{
    assert(0 <= y * w + x < h * w) by (nonlinear_arith)
        requires
            0 <= x < w,
            0 <= y < h,
    ;
    assert(0 <= (y * w + x) * ch + c < h * w * ch) by (nonlinear_arith)
        requires
            0 <= y * w + x < h * w,
            0 <= c < ch,
    ;
}

/// The pixel and channel of an offset give the offset back.
pub proof fn lemma_pixel_index_decompose(w: int, h: int, ch: int, j: int)
    requires
        w > 0,
        ch > 0,
        0 <= j < h * w * ch,
    ensures
        0 <= column_of(w, ch, j) < w,
        0 <= row_of(w, ch, j) < h,
        0 <= channel_of(ch, j) < ch,
        j == pixel_index(w, ch, column_of(w, ch, j), row_of(w, ch, j), channel_of(ch, j)),
{
    let p = j / ch;
    lemma_fundamental_div_mod(j, ch);
    lemma_fundamental_div_mod(p, w);
    assert(0 <= j % ch < ch) by (nonlinear_arith)
        requires
            ch > 0,
    ;
    assert(0 <= p % w < w) by (nonlinear_arith)
        requires
            w > 0,
    ;
    assert(0 <= p < h * w) by (nonlinear_arith)
        requires
            0 <= j < h * w * ch,
            ch > 0,
            p == j / ch,
    ;
    assert(0 <= p / w < h) by (nonlinear_arith)
        requires
            0 <= p < h * w,
            w > 0,
    ;
    assert(j == (p / w * w + p % w) * ch + j % ch) by (nonlinear_arith)
        requires
            j == ch * p + j % ch,
            p == w * (p / w) + p % w,
    ;
}

/// The offset of a pixel's channel decomposes into that pixel and channel.
pub proof fn lemma_pixel_index_compose(w: int, h: int, ch: int, x: int, y: int, c: int)
    requires
        0 <= x < w,
        0 <= y < h,
        0 <= c < ch,
    ensures
        column_of(w, ch, pixel_index(w, ch, x, y, c)) == x,
        row_of(w, ch, pixel_index(w, ch, x, y, c)) == y,
        channel_of(ch, pixel_index(w, ch, x, y, c)) == c,
{
    let j = pixel_index(w, ch, x, y, c);
    lemma_fundamental_div_mod_converse(j, ch, y * w + x, c);
    lemma_fundamental_div_mod_converse(y * w + x, w, y, x);
}

/// An image of `height × width` pixels of `channels` bytes each.
#[derive(Debug, Clone, PartialEq, Eq)]
pub struct ImageSample {
    pub height: usize,
    pub width: usize,
    pub channels: usize,
    pub bytes: Vec<u8>,
}

impl ImageSample {
    /// The bytes hold exactly the pixels.
    pub open spec fn wf(&self) -> bool {
        self.bytes@.len() == self.height * self.width * self.channels
    }

    /// A square image with its shape inferred from the number of bytes, if it has one.
    pub fn from_square_image_bytes(image_bytes: &[u8]) -> (r: Option<Self>)
        ensures
            match square_image_shape(image_bytes@.len() as int) {
                None => r is None,
                Some((h, w, c)) => r matches Some(s) && s.height == h && s.width == w && s.channels
                    == c && s.bytes@ == image_bytes@ && s.wf(),
            },
    {
        let (height, width, channels) = match infer_square_dimensions_and_channels(image_bytes) {
            Some(shape) => shape,
            None => {
                return None;
            },
        };
        let mut bytes: Vec<u8> = Vec::new();
        let mut i: usize = 0;
        while i < image_bytes.len()
            invariant
                i <= image_bytes.len(),
                bytes@ == image_bytes@.take(i as int),
            decreases image_bytes.len() - i,
        {
            bytes.push(image_bytes[i]);
            i = i + 1;
            assert(bytes@ =~= image_bytes@.take(i as int));
        }
        assert(image_bytes@.take(image_bytes.len() as int) =~= image_bytes@);
        let sample = Self { height, width, channels, bytes };
        proof {
            let n = image_bytes@.len() as int;
            let c = channels as int;
            let s = height as int;
            assert(s * s * c == n) by {
                if c == 1 {
                    assert(s * s == n);
                } else {
                    assert(s * s == n / c);
                    assert(n % c == 0);
                    lemma_fundamental_div_mod(n, c);
                    assert(s * s * c == c * (n / c)) by (nonlinear_arith)
                        requires
                            s * s == n / c,
                    ;
                }
            }
        }
        Some(sample)
    }
}

/// `(y * width + x) * channels + channel`.
pub fn index(width: usize, channels: usize, x: usize, y: usize, channel: usize) -> (r: usize)
    requires
        pixel_index(width as int, channels as int, x as int, y as int, channel as int) <= usize::MAX,
    ensures
        r == pixel_index(width as int, channels as int, x as int, y as int, channel as int),
{
    proof {
        assert(0 <= y * width <= (y * width + x) * channels + channel || channels == 0) by (nonlinear_arith);
        assert(y * width + x <= (y * width + x) * channels || channels == 0) by (nonlinear_arith);
        assert((y * width + x) * channels <= (y * width + x) * channels + channel);
    }
    if channels == 0 {
        assert(pixel_index(width as int, channels as int, x as int, y as int, channel as int) == channel) by (nonlinear_arith)
            requires
                channels == 0,
        ;
        return channel;
    }
    (y * width + x) * channels + channel
}

/// The offset a flipped image takes each of its bytes from: the same channel of the pixel
/// mirrored across the vertical axis.
pub open spec fn mirror_index(width: int, channels: int, j: int) -> int {
    pixel_index(width, channels, width - 1 - column_of(width, channels, j), row_of(width, channels, j), channel_of(channels, j))
}

/// The bytes of an image mirrored left to right.
pub open spec fn flipped(bytes: Seq<u8>, width: int, channels: int) -> Seq<u8> {
    Seq::new(bytes.len(), |j: int| bytes[mirror_index(width, channels, j)])
}

/// Mirrors the image left to right: each pixel `(x, y)` takes the pixel `(width - 1 - x, y)`.
pub fn horizontal_flip(sample: &mut ImageSample)
    requires
        old(sample).wf(),
    ensures
        final(sample).wf(),
        final(sample).height == old(sample).height,
        final(sample).width == old(sample).width,
        final(sample).channels == old(sample).channels,
        final(sample).bytes@ == flipped(old(sample).bytes@, old(sample).width as int, old(sample).channels as int),
        forall|x: int, y: int, c: int|
            0 <= x < old(sample).width && 0 <= y < old(sample).height && 0 <= c < old(sample).channels
                ==> #[trigger] final(sample).bytes@[pixel_index(old(sample).width as int, old(sample).channels as int, x, y, c)]
                == old(sample).bytes@[pixel_index(old(sample).width as int, old(sample).channels as int, old(sample).width - 1 - x, y, c)],
{
    let w = sample.width;
    let h = sample.height;
    let ch = sample.channels;
    let n = sample.bytes.len();
    let ghost b = sample.bytes@;
    let mut out: Vec<u8> = Vec::new();
    let mut j: usize = 0;
    while j < n
        invariant
            j <= n == b.len() == h * w * ch,
            b == sample.bytes@,
            w == sample.width,
            h == sample.height,
            ch == sample.channels,
            out@.len() == j,
            forall|k: int| 0 <= k < j ==> #[trigger] out@[k] == b[mirror_index(w as int, ch as int, k)],
        decreases n - j,
    {
        proof {
            assert(w > 0 && ch > 0) by (nonlinear_arith)
                requires
                    0 <= j < h * w * ch,
            ;
            lemma_pixel_index_decompose(w as int, h as int, ch as int, j as int);
        }
        let c = j % ch;
        let p = j / ch;
        let x = p % w;
        let y = p / w;
        proof {
            lemma_pixel_index_bounds(w as int, h as int, ch as int, (w - 1 - x) as int, y as int, c as int);
        }
        let src = index(w, ch, w - 1 - x, y, c);
        out.push(sample.bytes[src]);
        j = j + 1;
    }
    sample.bytes = out;
    proof {
        assert(sample.bytes@ =~= flipped(b, w as int, ch as int));
        assert forall|x: int, y: int, c: int| 0 <= x < w && 0 <= y < h && 0 <= c < ch implies #[trigger] sample.bytes@[pixel_index(w as int, ch as int, x, y, c)]
            == b[pixel_index(w as int, ch as int, w - 1 - x, y, c)] by {
            lemma_pixel_index_bounds(w as int, h as int, ch as int, x, y, c);
            lemma_pixel_index_compose(w as int, h as int, ch as int, x, y, c);
        }
    }
}

/// Mirroring an image twice gives it back.
pub proof fn lemma_flip_twice(bytes: Seq<u8>, width: int, height: int, channels: int)
    requires
        width > 0,
        channels > 0,
        height >= 0,
        bytes.len() == height * width * channels,
    ensures
        flipped(flipped(bytes, width, channels), width, channels) == bytes,
{
    let f = flipped(bytes, width, channels);
    let ff = flipped(f, width, channels);
    assert forall|j: int| 0 <= j < bytes.len() implies #[trigger] ff[j] == bytes[j] by {
        lemma_pixel_index_decompose(width, height, channels, j);
        let x = column_of(width, channels, j);
        let y = row_of(width, channels, j);
        let c = channel_of(channels, j);
        let m = mirror_index(width, channels, j);
        lemma_pixel_index_bounds(width, height, channels, width - 1 - x, y, c);
        lemma_pixel_index_compose(width, height, channels, width - 1 - x, y, c);
        assert(mirror_index(width, channels, m) == pixel_index(width, channels, x, y, c));
    }
    assert(ff =~= bytes);
}

/// The source coordinate that destination coordinate `d` takes along an axis of `src`
/// positions resized to `dst`: `d * src / dst`, at most the last.
pub open spec fn nearest_source(d: int, src: int, dst: int) -> int {
    if src - 1 < (d * src) / dst {
        src - 1
    } else {
        (d * src) / dst
    }
}

/// The source offset that offset `j` of the resized image takes.
pub open spec fn resize_source_index(j: int, src_w: int, src_h: int, dst_w: int, dst_h: int, ch: int) -> int {
    pixel_index(
        src_w,
        ch,
        nearest_source(column_of(dst_w, ch, j), src_w, dst_w),
        nearest_source(row_of(dst_w, ch, j), src_h, dst_h),
        channel_of(ch, j),
    )
}

/// An image resized by nearest neighbour.
pub open spec fn resized(source: Seq<u8>, src_w: int, src_h: int, dst_w: int, dst_h: int, ch: int) -> Seq<u8> {
    Seq::new((dst_w * dst_h * ch) as nat, |j: int| source[resize_source_index(j, src_w, src_h, dst_w, dst_h, ch)])
}

/// Resizes an image of `src_w × src_h` pixels to `dst_w × dst_h` by nearest neighbour: pixel
/// `(x, y)` takes source pixel `(min(src_w - 1, x * src_w / dst_w), min(src_h - 1, y * src_h / dst_h))`.
pub fn resize_nearest(
    source: &[u8],
    src_w: usize,
    src_h: usize,
    dst_w: usize,
    dst_h: usize,
    channels: usize,
) -> (r: Vec<u8>)
    requires
        dst_w * dst_h * channels == 0 || (src_w > 0 && src_h > 0),
        source@.len() >= src_w * src_h * channels,
        dst_w * dst_h <= usize::MAX,
        dst_w * dst_h * channels <= usize::MAX,
        dst_w * src_w <= usize::MAX,
        dst_h * src_h <= usize::MAX,
    ensures
        r@ == resized(source@, src_w as int, src_h as int, dst_w as int, dst_h as int, channels as int),
        forall|x: int, y: int, c: int|
            0 <= x < dst_w && 0 <= y < dst_h && 0 <= c < channels ==> #[trigger] r@[pixel_index(dst_w as int, channels as int, x, y, c)]
                == source@[pixel_index(
                src_w as int,
                channels as int,
                nearest_source(x, src_w as int, dst_w as int),
                nearest_source(y, src_h as int, dst_h as int),
                c,
            )],
{
    let n = dst_w * dst_h * channels;
    let mut out: Vec<u8> = Vec::new();
    let mut j: usize = 0;
    while j < n
        invariant
            j <= n,
            n == dst_w * dst_h * channels,
            n == 0 || (src_w > 0 && src_h > 0),
            source@.len() >= src_w * src_h * channels,
            dst_w * src_w <= usize::MAX,
            dst_h * src_h <= usize::MAX,
            out@.len() == j,
            forall|k: int|
                0 <= k < j ==> #[trigger] out@[k] == source@[resize_source_index(
                    k,
                    src_w as int,
                    src_h as int,
                    dst_w as int,
                    dst_h as int,
                    channels as int,
                )],
        decreases n - j,
    {
        proof {
            assert(dst_w > 0 && channels > 0 && dst_h > 0) by (nonlinear_arith)
                requires
                    0 <= j < dst_w * dst_h * channels,
            ;
            assert(dst_h * dst_w * channels == dst_w * dst_h * channels) by (nonlinear_arith);
            lemma_pixel_index_decompose(dst_w as int, dst_h as int, channels as int, j as int);
        }
        let c = j % channels;
        let p = j / channels;
        let x = p % dst_w;
        let y = p / dst_w;
        proof {
            assert(x * src_w <= dst_w * src_w) by (nonlinear_arith)
                requires
                    x < dst_w,
            ;
            assert(y * src_h <= dst_h * src_h) by (nonlinear_arith)
                requires
                    y < dst_h,
            ;
        }
        let sx_raw = (x * src_w) / dst_w;
        let sx = if src_w - 1 < sx_raw {
            src_w - 1
        } else {
            sx_raw
        };
        let sy_raw = (y * src_h) / dst_h;
        let sy = if src_h - 1 < sy_raw {
            src_h - 1
        } else {
            sy_raw
        };
        proof {
            lemma_pixel_index_bounds(src_w as int, src_h as int, channels as int, sx as int, sy as int, c as int);
            assert(src_h * src_w * channels == src_w * src_h * channels) by (nonlinear_arith);
            assert(source@.len() == source.len());
        }
        let src = index(src_w, channels, sx, sy, c);
        out.push(source[src]);
        j = j + 1;
    }
    proof {
        assert(out@ =~= resized(source@, src_w as int, src_h as int, dst_w as int, dst_h as int, channels as int));
        assert forall|x: int, y: int, c: int|
            0 <= x < dst_w && 0 <= y < dst_h && 0 <= c < channels implies #[trigger] out@[pixel_index(dst_w as int, channels as int, x, y, c)]
                == source@[pixel_index(
                src_w as int,
                channels as int,
                nearest_source(x, src_w as int, dst_w as int),
                nearest_source(y, src_h as int, dst_h as int),
                c,
            )] by {
            lemma_pixel_index_bounds(dst_w as int, dst_h as int, channels as int, x, y, c);
            assert(dst_h * dst_w * channels == dst_w * dst_h * channels) by (nonlinear_arith);
            lemma_pixel_index_compose(dst_w as int, dst_h as int, channels as int, x, y, c);
        }
    }
    out
}

/// The bytes of the square of `size` pixels a side whose top-left pixel is `(sx, sy)`.
pub open spec fn cropped(bytes: Seq<u8>, width: int, channels: int, size: int, sx: int, sy: int) -> Seq<u8> {
    Seq::new(
        (size * size * channels) as nat,
        |j: int|
            bytes[pixel_index(
                width,
                channels,
                sx + column_of(size, channels, j),
                sy + row_of(size, channels, j),
                channel_of(channels, j),
            )],
    )
}

/// The generator state after an inclusive draw from `[lo, hi]`: a draw of one value or none
/// leaves it as it was.
pub open spec fn state_after_draw(state: u64, lo: usize, hi: usize) -> u64 {
    if lo < hi {
        xorshift_step(state)
    } else {
        state
    }
}

/// The smallest crop side: the floor of the shorter side times the minimum scale, at least 2.
pub open spec fn min_crop_side(scaled_min_side: usize) -> usize {
    if scaled_min_side < 2 {
        2
    } else {
        scaled_min_side
    }
}

/// Copies the square of `size` pixels a side whose top-left pixel is `(sx, sy)`.
fn crop_square(sample: &ImageSample, size: usize, sx: usize, sy: usize) -> (r: Vec<u8>)
    requires
        sample.wf(),
        sample.channels > 0,
        0 < size,
        sx + size <= sample.width,
        sy + size <= sample.height,
    ensures
        r@ == cropped(sample.bytes@, sample.width as int, sample.channels as int, size as int, sx as int, sy as int),
{
    let w = sample.width;
    let h = sample.height;
    let ch = sample.channels;
    proof {
        assert(sample.bytes@.len() == sample.bytes.len());
        assert(size * size * ch <= h * w * ch) by (nonlinear_arith)
            requires
                size <= w,
                size <= h,
                ch > 0,
        ;
        assert(size * size <= size * size * ch) by (nonlinear_arith)
            requires
                ch > 0,
        ;
    }
    let n = size * size * ch;
    let ghost b = sample.bytes@;
    let mut out: Vec<u8> = Vec::new();
    let mut j: usize = 0;
    while j < n
        invariant
            j <= n == size * size * ch,
            n <= h * w * ch,
            h * w * ch <= usize::MAX,
            b == sample.bytes@,
            b.len() == h * w * ch,
            w == sample.width,
            h == sample.height,
            ch == sample.channels,
            ch > 0,
            0 < size,
            sx + size <= w,
            sy + size <= h,
            out@.len() == j,
            forall|k: int|
                0 <= k < j ==> #[trigger] out@[k] == b[pixel_index(
                    w as int,
                    ch as int,
                    sx + column_of(size as int, ch as int, k),
                    sy + row_of(size as int, ch as int, k),
                    channel_of(ch as int, k),
                )],
        decreases n - j,
    {
        proof {
            lemma_pixel_index_decompose(size as int, size as int, ch as int, j as int);
        }
        let c = j % ch;
        let p = j / ch;
        let x = p % size;
        let y = p / size;
        proof {
            lemma_pixel_index_bounds(w as int, h as int, ch as int, (sx + x) as int, (sy + y) as int, c as int);
        }
        let src = index(w, ch, sx + x, sy + y, c);
        out.push(sample.bytes[src]);
        j = j + 1;
    }
    proof {
        assert(out@ =~= cropped(b, w as int, ch as int, size as int, sx as int, sy as int));
    }
    out
}

/// Crops a random square and resizes it back to the image's size by nearest neighbour. The
/// side of the square is drawn from `[max(2, scaled_min_side), min(width, height)]`, where
/// `scaled_min_side` is the floor of the shorter side times the minimum scale; then its left
/// and top edges are drawn. An image 2 pixels or less across is left as it is.
pub fn random_crop_resize(sample: &mut ImageSample, scaled_min_side: usize, rng: &mut TransformRng)
    requires
        old(sample).wf(),
        scaled_min_side <= old(sample).width,
        scaled_min_side <= old(sample).height,
    ensures
        final(sample).wf(),
        final(sample).height == old(sample).height,
        final(sample).width == old(sample).width,
        final(sample).channels == old(sample).channels,
        ({
            let w = old(sample).width;
            let h = old(sample).height;
            let ch = old(sample).channels;
            let min_side = if w < h { w } else { h };
            if min_side <= 2 {
                &&& final(sample).bytes@ == old(sample).bytes@
                &&& final(rng).state() == old(rng).state()
            } else {
                let lo = min_crop_side(scaled_min_side);
                let s1 = state_after_draw(old(rng).state(), lo, min_side);
                let size = inclusive_draw(s1, lo, min_side);
                let s2 = state_after_draw(s1, 0, (w - size) as usize);
                let sx = inclusive_draw(s2, 0, (w - size) as usize);
                let s3 = state_after_draw(s2, 0, (h - size) as usize);
                let sy = inclusive_draw(s3, 0, (h - size) as usize);
                &&& 2 <= size <= min_side
                &&& sx + size <= w
                &&& sy + size <= h
                &&& final(rng).state() == s3
                &&& final(sample).bytes@ == resized(
                    cropped(old(sample).bytes@, w as int, ch as int, size as int, sx as int, sy as int),
                    size as int,
                    size as int,
                    w as int,
                    h as int,
                    ch as int,
                )
            }
        }),
{
    let w = sample.width;
    let h = sample.height;
    let ch = sample.channels;
    let min_side = if w < h {
        w
    } else {
        h
    };
    if min_side <= 2 {
        return;
    }
    let lo = if scaled_min_side < 2 {
        2
    } else {
        scaled_min_side
    };
    let size = rng.next_inclusive(lo, min_side);
    let sx = rng.next_inclusive(0, w - size);
    let sy = rng.next_inclusive(0, h - size);
    if ch == 0 {
        proof {
            assert(resized(
                cropped(sample.bytes@, w as int, 0, size as int, sx as int, sy as int),
                size as int,
                size as int,
                w as int,
                h as int,
                0,
            ) =~= sample.bytes@) by {
                assert(w * h * 0 == 0) by (nonlinear_arith);
                assert(h * w * 0 == 0) by (nonlinear_arith);
            }
        }
        return;
    }
    let crop = crop_square(sample, size, sx, sy);
    proof {
        assert(sample.bytes@.len() == sample.bytes.len());
        assert(w * h <= w * h * ch) by (nonlinear_arith)
            requires
                ch > 0,
        ;
        assert(w * h * ch == h * w * ch) by (nonlinear_arith);
        assert(w * size <= w * h) by (nonlinear_arith)
            requires
                size <= h,
        ;
        assert(h * size <= w * h) by (nonlinear_arith)
            requires
                size <= w,
        ;
    }
    let bytes = resize_nearest(crop.as_slice(), size, size, w, h, ch);
    sample.bytes = bytes;
}

/// Resizing an image to its own size gives it back.
pub proof fn lemma_resize_same_size(source: Seq<u8>, width: int, height: int, channels: int)
    requires
        width > 0,
        height > 0,
        channels > 0,
        source.len() == height * width * channels,
    ensures
        resized(source, width, height, width, height, channels) == source,
{
    let r = resized(source, width, height, width, height, channels);
    assert(width * height * channels == height * width * channels) by (nonlinear_arith);
    assert forall|j: int| 0 <= j < source.len() implies #[trigger] r[j] == source[j] by {
        lemma_pixel_index_decompose(width, height, channels, j);
        let x = column_of(width, channels, j);
        let y = row_of(width, channels, j);
        assert((x * width) / width == x) by (nonlinear_arith)
            requires
                width > 0,
        ;
        assert((y * height) / height == y) by (nonlinear_arith)
            requires
                height > 0,
        ;
        assert(resize_source_index(j, width, height, width, height, channels) == j);
    }
    assert(r =~= source);
}

} // verus!
