use vstd::prelude::*;

use vstd::arithmetic::div_mod::lemma_fundamental_div_mod_converse;

use crate::cnn::image_sample::{lemma_pixel_index_bounds, pixel_index, resize_nearest, resized};
use crate::tensor::errors::TensorAdapterError;

verus! {

/// The coordinate `d * src / dst` lies inside the source when `d` lies inside the destination.
proof fn lemma_scaled_coordinate_inside(d: int, src: int, dst: int)
    requires
        0 <= d < dst,
        src > 0,
    ensures
        0 <= (d * src) / dst < src,
{
    assert(0 <= d * src < dst * src) by (nonlinear_arith)
        requires
            0 <= d < dst,
            src > 0,
    ;
    assert(0 <= (d * src) / dst < src) by (nonlinear_arith)
        requires
            0 <= d * src < dst * src,
            dst > 0,
    ;
}

/// Resizes an image stored pixel by pixel, channels interleaved, by nearest neighbour: pixel
/// `(x, y)` of the result takes source pixel `(x * in_width / out_width, y * in_height / out_height)`.
pub fn resize_interleaved_nearest(
    image: &[u8],
    in_height: usize,
    in_width: usize,
    channels: usize,
    out_height: usize,
    out_width: usize,
) -> (r: Vec<u8>)
    requires
        out_height * out_width * channels == 0 || (in_height > 0 && in_width > 0),
        image@.len() >= in_height * in_width * channels,
        out_height * out_width <= usize::MAX,
        out_height * out_width * channels <= usize::MAX,
        out_width * in_width <= usize::MAX,
        out_height * in_height <= usize::MAX,
    ensures
        r@.len() == out_height * out_width * channels,
        r@ == resized(image@, in_width as int, in_height as int, out_width as int, out_height as int, channels as int),
        forall|x: int, y: int, c: int|
            0 <= x < out_width && 0 <= y < out_height && 0 <= c < channels ==> #[trigger] r@[pixel_index(
                out_width as int,
                channels as int,
                x,
                y,
                c,
            )] == image@[pixel_index(
                in_width as int,
                channels as int,
                (x * in_width) / out_width as int,
                (y * in_height) / out_height as int,
                c,
            )],
{
    proof {
        assert(out_width * out_height * channels == out_height * out_width * channels) by (nonlinear_arith);
        assert(in_width * in_height * channels == in_height * in_width * channels) by (nonlinear_arith);
    }
    if out_height == 0 || out_width == 0 || channels == 0 {
        proof {
            assert(out_height * out_width * channels == 0) by (nonlinear_arith)
                requires
                    out_height == 0 || out_width == 0 || channels == 0,
            ;
        }
        let empty: Vec<u8> = Vec::new();
        assert(empty@ =~= resized(
            image@,
            in_width as int,
            in_height as int,
            out_width as int,
            out_height as int,
            channels as int,
        ));
        return empty;
    }
    proof {
        assert(out_height * out_width * channels > 0) by (nonlinear_arith)
            requires
                out_height > 0,
                out_width > 0,
                channels > 0,
        ;
    }
    let r = resize_nearest(image, in_width, in_height, out_width, out_height, channels);
    proof {
        assert forall|x: int, y: int| 0 <= x < out_width && 0 <= y < out_height implies
            0 <= #[trigger] ((x * in_width) / out_width as int) < in_width
            && 0 <= #[trigger] ((y * in_height) / out_height as int) < in_height by {
            lemma_scaled_coordinate_inside(x, in_width as int, out_width as int);
            lemma_scaled_coordinate_inside(y, in_height as int, out_height as int);
        }
    }
    r
}

/// Image sizes are valid when both are positive.
pub fn validate_image_dimensions(height: usize, width: usize) -> (r: Result<(), TensorAdapterError>)
    ensures
        r == if height > 0 && width > 0 {
            Ok::<(), TensorAdapterError>(())
        } else {
            Err(TensorAdapterError::InvalidDimensions { height, width })
        },
{
    if height == 0 || width == 0 {
        return Err(TensorAdapterError::InvalidDimensions { height, width });
    }
    Ok(())
}

/// `a * b`, at most `usize::MAX`.
pub open spec fn saturating_product(a: int, b: int) -> int {
    if a * b > usize::MAX {
        usize::MAX as int
    } else {
        a * b
    }
}

/// The number of bytes an interleaved image calls for: `height * width * channels`, each step
/// saturating at `usize::MAX`.
pub open spec fn image_len_or_max(height: usize, width: usize, channels: usize) -> int {
    saturating_product(saturating_product(height as int, width as int), channels as int)
}

fn saturating_mul_usize(a: usize, b: usize) -> (r: usize)
    ensures
        r == saturating_product(a as int, b as int),
{
    match a.checked_mul(b) {
        Some(p) => p,
        None => usize::MAX,
    }
}

/// The source offset that offset `j` of the planar image takes: `j` walks the channels, then
/// the rows, then the columns.
pub open spec fn planar_source_index(height: int, width: int, channels: int, j: int) -> int {
    pixel_index(width, channels, (j % (height * width)) % width, (j % (height * width)) / width, j / (height * width))
}

/// An image stored pixel by pixel, channels interleaved, stored channel by channel instead.
pub open spec fn planar(image: Seq<u8>, height: int, width: int, channels: int) -> Seq<u8> {
    Seq::new((channels * (height * width)) as nat, |j: int| image[planar_source_index(height, width, channels, j)])
}

/// What converting an interleaved image to channel-major order checks: positive sizes, at
/// least one channel, and exactly the bytes the sizes call for.
pub open spec fn planar_check(len: int, height: usize, width: usize, channels: usize) -> Result<(), TensorAdapterError> {
    if !(height > 0 && width > 0) {
        Err(TensorAdapterError::InvalidDimensions { height, width })
    } else if channels == 0 {
        Err(TensorAdapterError::InvalidChannelCount { channels })
    } else if len != image_len_or_max(height, width, channels) {
        Err(TensorAdapterError::InvalidImageSize {
            expected: image_len_or_max(height, width, channels) as usize,
            actual: len as usize,
        })
    } else {
        Ok(())
    }
}

/// The bytes of an interleaved image in the channel-major order of an `NCHW` tensor: all of
/// channel 0 row by row, then channel 1, and so on.
pub fn planar_image_bytes(image: &[u8], height: usize, width: usize, channels: usize) -> (r: Result<Vec<u8>, TensorAdapterError>)
    requires
        image@.len() <= isize::MAX,
    ensures
        match planar_check(image@.len() as int, height, width, channels) {
            Err(e) => r == Err::<Vec<u8>, TensorAdapterError>(e),
            Ok(()) => r matches Ok(v) && v@ == planar(image@, height as int, width as int, channels as int),
        },
        r matches Ok(v) ==> forall|c: int, y: int, x: int|
            0 <= c < channels && 0 <= y < height && 0 <= x < width ==> #[trigger] v@[c * (height * width) + y * width + x]
                == image@[pixel_index(width as int, channels as int, x, y, c)],
{
    validate_image_dimensions(height, width)?;
    if channels == 0 {
        return Err(TensorAdapterError::InvalidChannelCount { channels });
    }
    let area_or_max = saturating_mul_usize(height, width);
    let expected = saturating_mul_usize(area_or_max, channels);
    if image.len() != expected {
        return Err(TensorAdapterError::InvalidImageSize { expected, actual: image.len() });
    }
    proof {
        assert(isize::MAX < usize::MAX);
        assert(height * width <= height * width * channels) by (nonlinear_arith)
            requires
                channels > 0,
        ;
        if height * width > usize::MAX {
            assert(area_or_max == usize::MAX);
            assert(usize::MAX <= usize::MAX * channels) by (nonlinear_arith)
                requires
                    channels > 0,
            ;
            assert(expected == usize::MAX);
        }
        assert(height * width <= usize::MAX);
        assert(area_or_max == height * width);
        assert(height * width * channels == channels * (height * width)) by (nonlinear_arith);
        assert(height * width > 0) by (nonlinear_arith)
            requires
                height > 0,
                width > 0,
        ;
    }
    let area = height * width;
    let n = image.len();
    let mut out: Vec<u8> = Vec::new();
    let mut j: usize = 0;
    while j < n
        invariant
            j <= n == image@.len() == channels * area,
            area == height * width,
            area > 0,
            height > 0,
            width > 0,
            channels > 0,
            height * width * channels == channels * area,
            out@.len() == j,
            forall|k: int|
                0 <= k < j ==> #[trigger] out@[k] == image@[planar_source_index(
                    height as int,
                    width as int,
                    channels as int,
                    k,
                )],
        decreases n - j,
    {
        let c = j / area;
        let p = j % area;
        let y = p / width;
        let x = p % width;
        proof {
            assert(c < channels) by (nonlinear_arith)
                requires
                    j < channels * area,
                    c == j / area,
                    area > 0,
            ;
            assert(p < area) by (nonlinear_arith)
                requires
                    p == j % area,
                    area > 0,
            ;
            assert(y < height) by (nonlinear_arith)
                requires
                    p < height * width,
                    y == p / width,
                    width > 0,
            ;
            assert(x < width) by (nonlinear_arith)
                requires
                    x == p % width,
                    width > 0,
            ;
            lemma_pixel_index_bounds(width as int, height as int, channels as int, x as int, y as int, c as int);
            assert(height * width * channels == width * height * channels) by (nonlinear_arith);
        }
        let src = crate::cnn::image_sample::index(width, channels, x, y, c);
        out.push(image[src]);
        j = j + 1;
    }
    proof {
        assert(out@ =~= planar(image@, height as int, width as int, channels as int));
        assert forall|c: int, y: int, x: int|
            0 <= c < channels && 0 <= y < height && 0 <= x < width implies #[trigger] out@[c * (height * width) + y * width + x]
                == image@[pixel_index(width as int, channels as int, x, y, c)] by {
            let k = c * (height * width) + y * width + x;
            assert(0 <= y * width + x < height * width) by (nonlinear_arith)
                requires
                    0 <= y < height,
                    0 <= x < width,
            ;
            assert(k < channels * (height * width)) by (nonlinear_arith)
                requires
                    0 <= c < channels,
                    k == c * (height * width) + y * width + x,
                    y * width + x < height * width,
            ;
            assert(0 <= k) by (nonlinear_arith)
                requires
                    0 <= c,
                    k == c * (height * width) + y * width + x,
                    0 <= y * width + x,
            ;
            lemma_fundamental_div_mod_converse(k, (height * width) as int, c, y * width + x);
            lemma_fundamental_div_mod_converse(y * width + x, width as int, y, x);
        }
    }
    Ok(out)
}

/// The index of the first image of the batch whose length is not `expected`.
pub open spec fn first_size_mismatch(images: Seq<Seq<u8>>, expected: int) -> Option<int>
    decreases images.len(),
{
    if images.len() == 0 {
        None
    } else if images[0].len() != expected {
        Some(0)
    } else {
        match first_size_mismatch(images.drop_first(), expected) {
            Some(i) => Some(i + 1),
            None => None,
        }
    }
}

/// The bytes of images.
pub open spec fn batch_views(images: Seq<Vec<u8>>) -> Seq<Seq<u8>> {
    images.map_values(|v: Vec<u8>| v@)
}

/// What building a batch tensor of grayscale images checks: positive sizes, at least one
/// image, and every image of `height * width` bytes (saturating); the first image of another
/// length is reported.
pub open spec fn batch_check(images: Seq<Seq<u8>>, height: usize, width: usize) -> Result<(), TensorAdapterError> {
    let expected = saturating_product(height as int, width as int);
    if !(height > 0 && width > 0) {
        Err(TensorAdapterError::InvalidDimensions { height, width })
    } else if images.len() == 0 {
        Err(TensorAdapterError::EmptyBatch)
    } else {
        match first_size_mismatch(images, expected) {
            Some(i) => Err(TensorAdapterError::InconsistentImageSize {
                index: i as usize,
                expected: expected as usize,
                actual: images[i].len() as usize,
            }),
            None => Ok(()),
        }
    }
}

/// A mismatch found after a prefix of images of the expected length lies past it.
proof fn lemma_first_size_mismatch_prefix(images: Seq<Seq<u8>>, expected: int, i: int)
    requires
        0 <= i <= images.len(),
        forall|k: int| 0 <= k < i ==> #[trigger] images[k].len() == expected,
    ensures
        i < images.len() && images[i].len() != expected ==> first_size_mismatch(images, expected) == Some(i),
        i == images.len() ==> first_size_mismatch(images, expected) is None,
    decreases i,
{
    if i > 0 {
        let rest = images.drop_first();
        assert forall|k: int| 0 <= k < i - 1 implies #[trigger] rest[k].len() == expected by {
            assert(rest[k] == images[k + 1]);
        }
        lemma_first_size_mismatch_prefix(rest, expected, i - 1);
        assert(images[0].len() == expected);
    }
}

/// The bytes of a batch of grayscale images, one image after the other, as a batch tensor
/// holds them.
pub fn image_batch_bytes(images: &Vec<Vec<u8>>, height: usize, width: usize) -> (r: Result<Vec<u8>, TensorAdapterError>)
    ensures
        match batch_check(batch_views(images@), height, width) {
            Err(e) => r == Err::<Vec<u8>, TensorAdapterError>(e),
            Ok(()) => r matches Ok(v) && v@ == batch_views(images@).flatten(),
        },
{
    validate_image_dimensions(height, width)?;
    if images.len() == 0 {
        return Err(TensorAdapterError::EmptyBatch);
    }
    let expected = saturating_mul_usize(height, width);
    let ghost views = batch_views(images@);
    let mut out: Vec<u8> = Vec::new();
    let mut i: usize = 0;
    while i < images.len()
        invariant
            i <= images.len(),
            views == batch_views(images@),
            views.len() == images.len(),
            images.len() > 0,
            height > 0,
            width > 0,
            expected == saturating_product(height as int, width as int),
            forall|k: int| 0 <= k < i ==> #[trigger] views[k].len() == expected,
            out@ == views.take(i as int).flatten(),
        decreases images.len() - i,
    {
        let image = &images[i];
        if image.len() != expected {
            proof {
                assert(views[i as int] == image@);
                lemma_first_size_mismatch_prefix(views, expected as int, i as int);
            }
            return Err(TensorAdapterError::InconsistentImageSize { index: i, expected, actual: image.len() });
        }
        let ghost before = out@;
        let mut k: usize = 0;
        while k < image.len()
            invariant
                k <= image.len(),
                out@ == before + image@.take(k as int),
            decreases image.len() - k,
        {
            out.push(image[k]);
            k = k + 1;
            assert(image@.take(k as int) =~= image@.take(k - 1).push(image@[k - 1]));
        }
        proof {
            assert(image@.take(image.len() as int) =~= image@);
            assert(views.take(i + 1) =~= views.take(i as int).push(views[i as int]));
            views.take(i as int).lemma_flatten_push(views[i as int]);
        }
        i = i + 1;
    }
    proof {
        lemma_first_size_mismatch_prefix(views, expected as int, images.len() as int);
        assert(views.take(images.len() as int) =~= views);
    }
    Ok(out)
}

} // verus!
