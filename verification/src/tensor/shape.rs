use vstd::prelude::*;

use crate::tensor::errors::TensorError;

verus! {

/// Whether a step of the product `n * c * h * w` overflows `usize`.
pub open spec fn product_overflows(n: usize, c: usize, h: usize, w: usize) -> bool {
    n * c > usize::MAX || n * c * h > usize::MAX || n * c * h * w > usize::MAX
}

/// `n * c * h * w`, or `usize::MAX` where a step of the product overflows.
pub open spec fn element_count_or_max(n: usize, c: usize, h: usize, w: usize) -> usize {
    if product_overflows(n, c, h, w) {
        usize::MAX
    } else {
        (n * c * h * w) as usize
    }
}

/// `n * c * h * w`, or `usize::MAX` where a step of the product overflows.
pub fn element_count(n: usize, c: usize, h: usize, w: usize) -> (r: usize)
    ensures
        r == element_count_or_max(n, c, h, w),
{
    match n.checked_mul(c) {
        None => usize::MAX,
        Some(x) => match x.checked_mul(h) {
            None => usize::MAX,
            Some(y) => match y.checked_mul(w) {
                None => usize::MAX,
                Some(z) => z,
            },
        },
    }
}

/// Whether `len` values fill a tensor of the shape.
pub fn check_element_count(shape: (usize, usize, usize, usize), len: usize) -> (r: Result<(), TensorError>)
    ensures
        r == if len == element_count_or_max(shape.0, shape.1, shape.2, shape.3) {
            Ok::<(), TensorError>(())
        } else {
            Err(TensorError::ShapeMismatch {
                expected: element_count_or_max(shape.0, shape.1, shape.2, shape.3),
                actual: len,
            })
        },
{
    let expected = element_count(shape.0, shape.1, shape.2, shape.3);
    if len != expected {
        return Err(TensorError::ShapeMismatch { expected, actual: len });
    }
    Ok(())
}

/// The offset of element `(n, c, h, w)` of a tensor stored batch by batch, channel by channel,
/// row by row.
pub open spec fn tensor_offset_of(shape: (usize, usize, usize, usize), n: int, c: int, h: int, w: int) -> int {
    ((n * shape.1 + c) * shape.2 + h) * shape.3 + w
}

/// The offset of an element of a tensor, or the error for an index outside it.
pub fn tensor_offset(shape: (usize, usize, usize, usize), n: usize, c: usize, h: usize, w: usize) -> (r: Result<usize, TensorError>)
    requires
        shape.0 * shape.1 * shape.2 * shape.3 <= usize::MAX,
    ensures
        (n < shape.0 && c < shape.1 && h < shape.2 && w < shape.3) ==> r == Ok::<usize, TensorError>(
            tensor_offset_of(shape, n as int, c as int, h as int, w as int) as usize,
        ) && tensor_offset_of(shape, n as int, c as int, h as int, w as int) < shape.0 * shape.1 * shape.2
            * shape.3,
        !(n < shape.0 && c < shape.1 && h < shape.2 && w < shape.3) ==> r == Err::<usize, TensorError>(
            TensorError::OutOfBounds { n, c, h, w },
        ),
{
    if n >= shape.0 || c >= shape.1 || h >= shape.2 || w >= shape.3 {
        return Err(TensorError::OutOfBounds { n, c, h, w });
    }
    let (sn, sc, sh, sw) = shape;
    proof {
        assert(n * sc + c < sn * sc) by (nonlinear_arith)
            requires
                n < sn,
                c < sc,
        ;
        assert((n * sc + c) * sh + h < sn * sc * sh) by (nonlinear_arith)
            requires
                n * sc + c < sn * sc,
                h < sh,
        ;
        assert(((n * sc + c) * sh + h) * sw + w < sn * sc * sh * sw) by (nonlinear_arith)
            requires
                (n * sc + c) * sh + h < sn * sc * sh,
                w < sw,
        ;
        assert(0 <= n * sc) by (nonlinear_arith);
        assert(0 <= (n * sc + c) * sh) by (nonlinear_arith);
        assert(0 <= ((n * sc + c) * sh + h) * sw) by (nonlinear_arith);
        assert(sn * sc <= sn * sc * sh) by (nonlinear_arith)
            requires
                sh >= 1,
        ;
        assert(sn * sc * sh <= sn * sc * sh * sw) by (nonlinear_arith)
            requires
                sw >= 1,
        ;
        assert((n * sc + c) * sh <= ((n * sc + c) * sh + h) * sw) by (nonlinear_arith)
            requires
                sw >= 1,
                0 <= (n * sc + c) * sh,
        ;
    }
    Ok(((n * sc + c) * sh + h) * sw + w)
}

/// Whether two tensors have the same shape, as an elementwise operation needs.
pub fn check_same_shape(left: (usize, usize, usize, usize), right: (usize, usize, usize, usize)) -> (r: Result<(), TensorError>)
    ensures
        r == if left == right {
            Ok::<(), TensorError>(())
        } else {
            Err(TensorError::IncompatibleShapes { left, right })
        },
{
    if left.0 != right.0 || left.1 != right.1 || left.2 != right.2 || left.3 != right.3 {
        return Err(TensorError::IncompatibleShapes { left, right });
    }
    Ok(())
}

/// The shape of a valid convolution of `input` by `kernels` (output channels, input channels,
/// height, width), or why it cannot be computed: a zero stride, kernels of other input
/// channels, empty kernels, kernels larger than the input, or a bias of another length.
pub open spec fn conv2d_shape(
    input: (usize, usize, usize, usize),
    kernels: (usize, usize, usize, usize),
    bias_len: Option<usize>,
    stride_h: usize,
    stride_w: usize,
) -> Result<(usize, usize, usize, usize), TensorError> {
    if stride_h == 0 || stride_w == 0 {
        Err(TensorError::InvalidArgument("stride must be greater than zero"))
    } else if input.1 != kernels.1 {
        Err(TensorError::IncompatibleShapes { left: input, right: kernels })
    } else if kernels.0 == 0 || kernels.2 == 0 || kernels.3 == 0 {
        Err(TensorError::InvalidArgument("kernel shape must have non-zero output channels and spatial size"))
    } else if input.2 < kernels.2 || input.3 < kernels.3 {
        Err(TensorError::InvalidArgument("kernel spatial size cannot exceed input spatial size"))
    } else if bias_len.is_some() && bias_len.unwrap() != kernels.0 {
        Err(TensorError::ShapeMismatch { expected: kernels.0, actual: bias_len.unwrap() })
    } else {
        Ok(
            (
                input.0,
                kernels.0,
                ((input.2 - kernels.2) / (stride_h as int) + 1) as usize,
                ((input.3 - kernels.3) / (stride_w as int) + 1) as usize,
            ),
        )
    }
}

pub fn conv2d_output_shape(
    input: (usize, usize, usize, usize),
    kernels: (usize, usize, usize, usize),
    bias_len: Option<usize>,
    stride_h: usize,
    stride_w: usize,
) -> (r: Result<(usize, usize, usize, usize), TensorError>)
    ensures
        r == conv2d_shape(input, kernels, bias_len, stride_h, stride_w),
{
    if stride_h == 0 || stride_w == 0 {
        return Err(TensorError::InvalidArgument("stride must be greater than zero"));
    }
    if input.1 != kernels.1 {
        return Err(TensorError::IncompatibleShapes { left: input, right: kernels });
    }
    if kernels.0 == 0 || kernels.2 == 0 || kernels.3 == 0 {
        return Err(TensorError::InvalidArgument("kernel shape must have non-zero output channels and spatial size"));
    }
    if input.2 < kernels.2 || input.3 < kernels.3 {
        return Err(TensorError::InvalidArgument("kernel spatial size cannot exceed input spatial size"));
    }
    if let Some(b) = bias_len {
        if b != kernels.0 {
            return Err(TensorError::ShapeMismatch { expected: kernels.0, actual: b });
        }
    }
    Ok((input.0, kernels.0, (input.2 - kernels.2) / stride_h + 1, (input.3 - kernels.3) / stride_w + 1))
}

/// The shape of a max pooling of `input`, or why it cannot be computed: an empty window, a
/// zero stride, or a window larger than the input.
pub open spec fn max_pool2d_shape(
    input: (usize, usize, usize, usize),
    window_h: usize,
    window_w: usize,
    stride_h: usize,
    stride_w: usize,
) -> Result<(usize, usize, usize, usize), TensorError> {
    if window_h == 0 || window_w == 0 {
        Err(TensorError::InvalidArgument("pooling window must be greater than zero"))
    } else if stride_h == 0 || stride_w == 0 {
        Err(TensorError::InvalidArgument("stride must be greater than zero"))
    } else if input.2 < window_h || input.3 < window_w {
        Err(TensorError::InvalidArgument("pooling window cannot exceed input spatial size"))
    } else {
        Ok(
            (
                input.0,
                input.1,
                ((input.2 - window_h) / (stride_h as int) + 1) as usize,
                ((input.3 - window_w) / (stride_w as int) + 1) as usize,
            ),
        )
    }
}

pub fn max_pool2d_output_shape(
    input: (usize, usize, usize, usize),
    window_h: usize,
    window_w: usize,
    stride_h: usize,
    stride_w: usize,
) -> (r: Result<(usize, usize, usize, usize), TensorError>)
    ensures
        r == max_pool2d_shape(input, window_h, window_w, stride_h, stride_w),
{
    if window_h == 0 || window_w == 0 {
        return Err(TensorError::InvalidArgument("pooling window must be greater than zero"));
    }
    if stride_h == 0 || stride_w == 0 {
        return Err(TensorError::InvalidArgument("stride must be greater than zero"));
    }
    if input.2 < window_h || input.3 < window_w {
        return Err(TensorError::InvalidArgument("pooling window cannot exceed input spatial size"));
    }
    Ok((input.0, input.1, (input.2 - window_h) / stride_h + 1, (input.3 - window_w) / stride_w + 1))
}

/// The shape of a global average pooling of `input`: one value per sample and channel; an
/// input without spatial extent is refused.
pub fn global_average_pool2d_output_shape(input: (usize, usize, usize, usize)) -> (r: Result<
    (usize, usize, usize, usize),
    TensorError,
>)
    ensures
        r == if input.2 == 0 || input.3 == 0 {
            Err::<(usize, usize, usize, usize), TensorError>(
                TensorError::InvalidArgument("global average pooling requires non-zero spatial dimensions"),
            )
        } else {
            Ok((input.0, input.1, 1usize, 1usize))
        },
{
    if input.2 == 0 || input.3 == 0 {
        return Err(TensorError::InvalidArgument("global average pooling requires non-zero spatial dimensions"));
    }
    Ok((input.0, input.1, 1, 1))
}

/// `a * b`, at most `usize::MAX`.
pub open spec fn saturating_mul_spec(a: int, b: int) -> int {
    if a * b > usize::MAX {
        usize::MAX as int
    } else {
        a * b
    }
}

/// The number of values of one sample: `c * h * w`, each step saturating at `usize::MAX`.
pub fn sample_len(shape: (usize, usize, usize, usize)) -> (r: usize)
    ensures
        r == saturating_mul_spec(saturating_mul_spec(shape.1 as int, shape.2 as int), shape.3 as int),
{
    let a = match shape.1.checked_mul(shape.2) {
        Some(p) => p,
        None => usize::MAX,
    };
    match a.checked_mul(shape.3) {
        Some(p) => p,
        None => usize::MAX,
    }
}

/// What a backward pass through a convolution block checks before it routes gradients: the
/// pooled gradient has the pooled shape, the input and the pre-activation have its batch, and
/// there is one pool index per pooled value.
pub open spec fn backward_check(
    pooled_shape: (usize, usize, usize, usize),
    pooled_grad_shape: (usize, usize, usize, usize),
    input_batch: usize,
    conv_shape: (usize, usize, usize, usize),
    indices_len: usize,
) -> Result<(), TensorError> {
    if pooled_grad_shape != pooled_shape {
        Err(TensorError::IncompatibleShapes { left: pooled_shape, right: pooled_grad_shape })
    } else if input_batch != pooled_shape.0 || conv_shape.0 != pooled_shape.0 {
        Err(TensorError::IncompatibleShapes { left: pooled_shape, right: conv_shape })
    } else if product_overflows(pooled_shape.0, pooled_shape.1, pooled_shape.2, pooled_shape.3) {
        Err(TensorError::InvalidArgument("pool index shape overflow"))
    } else if indices_len != pooled_shape.0 * pooled_shape.1 * pooled_shape.2 * pooled_shape.3 {
        Err(TensorError::ShapeMismatch {
            expected: (pooled_shape.0 * pooled_shape.1 * pooled_shape.2 * pooled_shape.3) as usize,
            actual: indices_len,
        })
    } else {
        Ok(())
    }
}

/// Every pool index points inside a feature map of `height × width`.
pub open spec fn indices_in_bounds(indices: Seq<(usize, usize)>, height: usize, width: usize) -> bool {
    forall|k: int| 0 <= k < indices.len() ==> #[trigger] indices[k].0 < height && indices[k].1 < width
}

/// The offset in the pre-activation feature maps that pooled value `k` came from: the map of
/// its sample and channel, at the row and column its pool index gives.
pub open spec fn gradient_target(k: int, pooled_plane: int, height: int, width: int, index: (usize, usize)) -> int {
    (k / pooled_plane) * (height * width) + index.0 * width + index.1
}

/// The checks of a backward pass through a convolution block, before any gradient is
/// routed: the errors that `backward_check` gives, in its order.
pub fn check_conv_block_backward(
    pooled_shape: (usize, usize, usize, usize),
    pooled_grad_shape: (usize, usize, usize, usize),
    input_batch: usize,
    conv_shape: (usize, usize, usize, usize),
    indices_len: usize,
) -> (r: Result<(), TensorError>)
    ensures
        r == backward_check(pooled_shape, pooled_grad_shape, input_batch, conv_shape, indices_len),
{
    if pooled_grad_shape.0 != pooled_shape.0 || pooled_grad_shape.1 != pooled_shape.1
        || pooled_grad_shape.2 != pooled_shape.2 || pooled_grad_shape.3 != pooled_shape.3 {
        return Err(TensorError::IncompatibleShapes { left: pooled_shape, right: pooled_grad_shape });
    }
    let (batch, channels, pooled_h, pooled_w) = pooled_shape;
    if input_batch != batch || conv_shape.0 != batch {
        return Err(TensorError::IncompatibleShapes { left: pooled_shape, right: conv_shape });
    }
    let expected = match batch.checked_mul(channels) {
        None => None,
        Some(a) => match a.checked_mul(pooled_h) {
            None => None,
            Some(b) => b.checked_mul(pooled_w),
        },
    };
    let expected = match expected {
        Some(e) => e,
        None => {
            return Err(TensorError::InvalidArgument("pool index shape overflow"));
        },
    };
    if indices_len != expected {
        return Err(TensorError::ShapeMismatch { expected, actual: indices_len });
    }
    proof {
        assert(pooled_grad_shape == pooled_shape);
    }
    Ok(())
}

/// Where the backward pass of a convolution block routes each pooled gradient: for pooled
/// value `k`, the offset of the pre-activation value its max pooling took, or why the
/// gradients cannot be routed.
pub fn pool_gradient_targets(
    pooled_shape: (usize, usize, usize, usize),
    pooled_grad_shape: (usize, usize, usize, usize),
    input_batch: usize,
    conv_shape: (usize, usize, usize, usize),
    pool_indices: &Vec<(usize, usize)>,
) -> (r: Result<Vec<usize>, TensorError>)
    requires
        backward_check(pooled_shape, pooled_grad_shape, input_batch, conv_shape, pool_indices@.len() as usize)
            is Ok ==> pooled_shape.0 * pooled_shape.1 * conv_shape.2 * conv_shape.3 <= usize::MAX,
    ensures
        match backward_check(pooled_shape, pooled_grad_shape, input_batch, conv_shape, pool_indices@.len() as usize) {
            Err(e) => r == Err::<Vec<usize>, TensorError>(e),
            Ok(()) => if indices_in_bounds(pool_indices@, conv_shape.2, conv_shape.3) {
                r matches Ok(t) && t@.len() == pool_indices@.len() && forall|k: int|
                    0 <= k < t@.len() ==> #[trigger] t@[k] == gradient_target(
                        k,
                        pooled_shape.2 * pooled_shape.3,
                        conv_shape.2 as int,
                        conv_shape.3 as int,
                        pool_indices@[k],
                    ) && t@[k] < pooled_shape.0 * pooled_shape.1 * conv_shape.2 * conv_shape.3
            } else {
                r == Err::<Vec<usize>, TensorError>(
                    TensorError::InvalidArgument("pool indices exceed relu feature map bounds"),
                )
            },
        },
{
    match check_conv_block_backward(pooled_shape, pooled_grad_shape, input_batch, conv_shape, pool_indices.len()) {
        Err(e) => {
            return Err(e);
        },
        Ok(()) => {},
    }
    let (batch, channels, pooled_h, pooled_w) = pooled_shape;
    let relu_h = conv_shape.2;
    let relu_w = conv_shape.3;
    proof {
        assert(pooled_grad_shape == pooled_shape);
        assert(!product_overflows(batch, channels, pooled_h, pooled_w));
        assert(backward_check(pooled_shape, pooled_grad_shape, input_batch, conv_shape, pool_indices@.len() as usize)
            == Ok::<(), TensorError>(()));
    }
    if pool_indices.len() == 0 {
        return Ok(Vec::new());
    }
    proof {
        assert(pooled_h * pooled_w <= batch * channels * pooled_h * pooled_w && batch * channels >= 1
            && pooled_h * pooled_w >= 1) by (nonlinear_arith)
            requires
                batch * channels * pooled_h * pooled_w >= 1,
        ;
        assert(relu_h * relu_w <= batch * channels * relu_h * relu_w) by (nonlinear_arith)
            requires
                batch * channels >= 1,
        ;
        assert(0 <= relu_h * relu_w) by (nonlinear_arith);
        assert(batch * channels * (relu_h * relu_w) == batch * channels * relu_h * relu_w) by (nonlinear_arith);
        assert(batch * channels * pooled_h * pooled_w == batch * channels * (pooled_h * pooled_w)) by (nonlinear_arith);
    }
    let pooled_plane = pooled_h * pooled_w;
    let relu_plane = relu_h * relu_w;
    let n = pool_indices.len();
    let ghost idx = pool_indices@;
    let mut targets: Vec<usize> = Vec::new();
    let mut k: usize = 0;
    while k < n
        invariant
            k <= n == idx.len() == batch * channels * pooled_plane,
            pooled_plane > 0,
            idx == pool_indices@,
            relu_h == conv_shape.2,
            relu_w == conv_shape.3,
            backward_check(pooled_shape, pooled_grad_shape, input_batch, conv_shape, n) == Ok::<(), TensorError>(()),
            pooled_plane == pooled_h * pooled_w,
            relu_plane == relu_h * relu_w,
            batch * channels * relu_plane <= usize::MAX,
            targets@.len() == k,
            forall|j: int| 0 <= j < k ==> #[trigger] idx[j].0 < relu_h && idx[j].1 < relu_w,
            forall|j: int|
                0 <= j < k ==> #[trigger] targets@[j] == gradient_target(
                    j,
                    pooled_h * pooled_w,
                    relu_h as int,
                    relu_w as int,
                    idx[j],
                ) && targets@[j] < batch * channels * relu_plane,
        decreases n - k,
    {
        let (src_y, src_x) = pool_indices[k];
        if src_y >= relu_h || src_x >= relu_w {
            proof {
                assert(!(idx[k as int].0 < relu_h && idx[k as int].1 < relu_w));
            }
            return Err(TensorError::InvalidArgument("pool indices exceed relu feature map bounds"));
        }
        let map = k / pooled_plane;
        proof {
            assert(map < batch * channels) by (nonlinear_arith)
                requires
                    k < batch * channels * pooled_plane,
                    map == k / pooled_plane,
                    pooled_plane > 0,
            ;
            assert(map * relu_plane + src_y * relu_w + src_x < batch * channels * relu_plane) by (nonlinear_arith)
                requires
                    map < batch * channels,
                    src_y < relu_h,
                    src_x < relu_w,
                    relu_plane == relu_h * relu_w,
            ;
            assert(0 <= map * relu_plane) by (nonlinear_arith);
            assert(map * relu_plane <= map * relu_plane + src_y * relu_w) by (nonlinear_arith);
        }
        targets.push(map * relu_plane + src_y * relu_w + src_x);
        proof {
            assert(idx[k as int] == (src_y, src_x));
            assert forall|j: int| 0 <= j < k + 1 implies #[trigger] idx[j].0 < relu_h && idx[j].1 < relu_w by {
                if j == k {
                    assert(idx[j] == (src_y, src_x));
                }
            }
        }
        k = k + 1;
    }
    proof {
        assert(indices_in_bounds(pool_indices@, conv_shape.2, conv_shape.3));
        assert(batch * channels * relu_plane == pooled_shape.0 * pooled_shape.1 * conv_shape.2 * conv_shape.3);
    }
    Ok(targets)
}

/// Elements are stored sample by sample, channel by channel, row by row: the first element is
/// at offset 0, the next column is the next offset, the next row is `W` further on, the next
/// channel a plane of `H × W` further on and the next sample `C × H × W` further on; every
/// element lies inside the tensor's `N × C × H × W` values.
pub proof fn lemma_tensor_offset_layout(shape: (usize, usize, usize, usize), n: int, c: int, h: int, w: int)
    requires
        0 <= n < shape.0,
        0 <= c < shape.1,
        0 <= h < shape.2,
        0 <= w < shape.3,
    ensures
        tensor_offset_of(shape, 0, 0, 0, 0) == 0,
        w + 1 < shape.3 ==> tensor_offset_of(shape, n, c, h, w + 1) == tensor_offset_of(shape, n, c, h, w) + 1,
        h + 1 < shape.2 ==> tensor_offset_of(shape, n, c, h + 1, w) == tensor_offset_of(shape, n, c, h, w)
            + shape.3,
        c + 1 < shape.1 ==> tensor_offset_of(shape, n, c + 1, h, w) == tensor_offset_of(shape, n, c, h, w)
            + shape.2 * shape.3,
        n + 1 < shape.0 ==> tensor_offset_of(shape, n + 1, c, h, w) == tensor_offset_of(shape, n, c, h, w)
            + shape.1 * shape.2 * shape.3,
        0 <= tensor_offset_of(shape, n, c, h, w) < shape.0 * shape.1 * shape.2 * shape.3,
{
    let (sn, sc, sh, sw) = (shape.0 as int, shape.1 as int, shape.2 as int, shape.3 as int);
    assert(((0 * sc + 0) * sh + 0) * sw + 0 == 0) by (nonlinear_arith);
    assert(((n * sc + c) * sh + (h + 1)) * sw + w == ((n * sc + c) * sh + h) * sw + w + sw) by (nonlinear_arith);
    assert(((n * sc + (c + 1)) * sh + h) * sw + w == ((n * sc + c) * sh + h) * sw + w + sh * sw)
        by (nonlinear_arith);
    assert((((n + 1) * sc + c) * sh + h) * sw + w == ((n * sc + c) * sh + h) * sw + w + sc * sh * sw)
        by (nonlinear_arith);
    assert(n * sc + c < sn * sc) by (nonlinear_arith)
        requires
            0 <= n < sn,
            0 <= c < sc,
    ;
    assert((n * sc + c) * sh + h < sn * sc * sh) by (nonlinear_arith)
        requires
            n * sc + c < sn * sc,
            0 <= h < sh,
    ;
    assert(((n * sc + c) * sh + h) * sw + w < sn * sc * sh * sw) by (nonlinear_arith)
        requires
            (n * sc + c) * sh + h < sn * sc * sh,
            0 <= w < sw,
    ;
    assert(0 <= ((n * sc + c) * sh + h) * sw + w) by (nonlinear_arith)
        requires
            0 <= n,
            0 <= c,
            0 <= h,
            0 <= w,
            0 <= sc,
            0 <= sh,
            0 <= sw,
    ;
}

/// `count` windows of `window` positions fit along `len` positions when each moves `stride`
/// further: the windows at `0, stride, .., (count - 1) * stride` fit, and the next one does not.
pub open spec fn window_count_fits(len: int, window: int, stride: int, count: int) -> bool {
    &&& count >= 1
    &&& (count - 1) * stride + window <= len
    &&& len < count * stride + window
}

/// The number of window positions, `(len - window) / stride + 1`, is the one that fits.
proof fn lemma_window_count(len: int, window: int, stride: int)
    requires
        1 <= window <= len,
        stride >= 1,
    ensures
        window_count_fits(len, window, stride, (len - window) / stride + 1),
        (len - window) / stride + 1 <= len,
{
    let d = len - window;
    let q = d / stride;
    vstd::arithmetic::div_mod::lemma_fundamental_div_mod(d, stride);
    vstd::arithmetic::div_mod::lemma_mod_pos_bound(d, stride);
    assert(q >= 0 && q <= d && q * stride + window <= len && len < (q + 1) * stride + window)
        by (nonlinear_arith)
        requires
            d == stride * q + d % stride,
            0 <= d % stride < stride,
            stride >= 1,
            d >= 0,
            d == len - window,
    ;
}

/// Max pooling refuses exactly an empty window, a zero stride, or a window larger than the
/// input; otherwise it keeps the samples and channels, and along each axis gives as many
/// positions as windows of that axis, moved by that axis's stride, fit in the input.
pub proof fn lemma_max_pool2d_shape_law(
    input: (usize, usize, usize, usize),
    window_h: usize,
    window_w: usize,
    stride_h: usize,
    stride_w: usize,
)
    ensures
        max_pool2d_shape(input, window_h, window_w, stride_h, stride_w) is Ok <==> (window_h > 0 && window_w > 0
            && stride_h > 0 && stride_w > 0 && window_h <= input.2 && window_w <= input.3),
        max_pool2d_shape(input, window_h, window_w, stride_h, stride_w) matches Ok(out) ==> {
            &&& out.0 == input.0
            &&& out.1 == input.1
            &&& window_count_fits(input.2 as int, window_h as int, stride_h as int, out.2 as int)
            &&& window_count_fits(input.3 as int, window_w as int, stride_w as int, out.3 as int)
        },
{
    if window_h > 0 && window_w > 0 && stride_h > 0 && stride_w > 0 && window_h <= input.2 && window_w <= input.3 {
        lemma_window_count(input.2 as int, window_h as int, stride_h as int);
        lemma_window_count(input.3 as int, window_w as int, stride_w as int);
    }
}

/// A valid convolution refuses exactly a zero stride, kernels of other input channels, empty
/// kernels, kernels larger than the input, or a bias of another length; otherwise it keeps the
/// samples, gives one channel per kernel, and along each axis as many positions as the
/// kernel's extent on that axis, moved by that axis's stride, fit in the input.
pub proof fn lemma_conv2d_shape_law(
    input: (usize, usize, usize, usize),
    kernels: (usize, usize, usize, usize),
    bias_len: Option<usize>,
    stride_h: usize,
    stride_w: usize,
)
    ensures
        conv2d_shape(input, kernels, bias_len, stride_h, stride_w) is Ok <==> (stride_h > 0 && stride_w > 0
            && input.1 == kernels.1 && kernels.0 > 0 && kernels.2 > 0 && kernels.3 > 0 && kernels.2
            <= input.2 && kernels.3 <= input.3 && (bias_len is None || bias_len == Some(kernels.0))),
        conv2d_shape(input, kernels, bias_len, stride_h, stride_w) matches Ok(out) ==> {
            &&& out.0 == input.0
            &&& out.1 == kernels.0
            &&& window_count_fits(input.2 as int, kernels.2 as int, stride_h as int, out.2 as int)
            &&& window_count_fits(input.3 as int, kernels.3 as int, stride_w as int, out.3 as int)
        },
{
    if stride_h > 0 && stride_w > 0 && kernels.2 > 0 && kernels.3 > 0 && kernels.2 <= input.2 && kernels.3
        <= input.3 {
        lemma_window_count(input.2 as int, kernels.2 as int, stride_h as int);
        lemma_window_count(input.3 as int, kernels.3 as int, stride_w as int);
    }
}

} // verus!
