use vstd::prelude::*;

use crate::brain::framing::{frame_tagged, tagged, unframe_tagged, untagged};
use crate::collections::{first_position, lemma_first_position_absent, lemma_first_position_found};
use crate::tensor::errors::{tensor_adapter_error_text, tensor_error_text, TensorAdapterError, TensorError};
use crate::text::{
    lemma_normalize_key_idempotent,
    append_decimal,
    append_tuple4_debug,
    decimal_seq,
    normalize_key,
    normalize_key_seq,
    tuple4_debug_seq,
};

verus! {

/// Errors of the CNN image classifier.
#[derive(Debug)]
pub enum CnnImageClassifierError {
    InvalidConfiguration(&'static str),
    UnsupportedImageShape { byte_len: usize },
    InputChannelMismatch { expected: usize, actual: usize },
    UnknownLabel(String),
    GradientShapeMismatch { expected: usize, actual: usize },
    GradientTensorShapeMismatch {
        expected: (usize, usize, usize, usize),
        actual: (usize, usize, usize, usize),
    },
    TensorAdapter(TensorAdapterError),
    Tensor(TensorError),
}

pub open spec fn classifier_error_text(e: CnnImageClassifierError) -> Seq<char> {
    match e {
        CnnImageClassifierError::InvalidConfiguration(m) => "invalid cnn classifier configuration: "@
            + m@,
        CnnImageClassifierError::UnsupportedImageShape { byte_len } =>
            "unsupported image shape for CNN classifier (expected square bytes with 1, 3, or 4 channels): "@
            + decimal_seq(byte_len as nat) + " bytes"@,
        CnnImageClassifierError::InputChannelMismatch { expected, actual } =>
            "cnn classifier input channel mismatch: expected "@ + decimal_seq(expected as nat)
            + ", got "@ + decimal_seq(actual as nat),
        CnnImageClassifierError::UnknownLabel(label) => "unknown CNN classifier label: "@ + label@,
        CnnImageClassifierError::GradientShapeMismatch { expected, actual } =>
            "cnn classifier gradient shape mismatch: expected "@ + decimal_seq(expected as nat)
            + ", got "@ + decimal_seq(actual as nat),
        CnnImageClassifierError::GradientTensorShapeMismatch { expected, actual } =>
            "cnn classifier tensor gradient shape mismatch: expected "@ + tuple4_debug_seq(expected)
            + ", got "@ + tuple4_debug_seq(actual),
        CnnImageClassifierError::TensorAdapter(err) => "cnn classifier adapter error: "@
            + tensor_adapter_error_text(err),
        CnnImageClassifierError::Tensor(err) => "cnn classifier tensor error: "@ + tensor_error_text(
            err,
        ),
    }
}

impl CnnImageClassifierError {
    /// The text that the error displays.
    pub fn message(&self) -> (r: String)
        ensures
            r@ == classifier_error_text(*self),
    {
        let mut out = String::new();
        match self {
            CnnImageClassifierError::InvalidConfiguration(m) => {
                out.append("invalid cnn classifier configuration: ");
                out.append(m);
            },
            CnnImageClassifierError::UnsupportedImageShape { byte_len } => {
                out.append(
                    "unsupported image shape for CNN classifier (expected square bytes with 1, 3, or 4 channels): ",
                );
                append_decimal(&mut out, *byte_len as u64);
                out.append(" bytes");
            },
            CnnImageClassifierError::InputChannelMismatch { expected, actual } => {
                out.append("cnn classifier input channel mismatch: expected ");
                append_decimal(&mut out, *expected as u64);
                out.append(", got ");
                append_decimal(&mut out, *actual as u64);
            },
            CnnImageClassifierError::UnknownLabel(label) => {
                out.append("unknown CNN classifier label: ");
                out.append(label.as_str());
            },
            CnnImageClassifierError::GradientShapeMismatch { expected, actual } => {
                out.append("cnn classifier gradient shape mismatch: expected ");
                append_decimal(&mut out, *expected as u64);
                out.append(", got ");
                append_decimal(&mut out, *actual as u64);
            },
            CnnImageClassifierError::GradientTensorShapeMismatch { expected, actual } => {
                out.append("cnn classifier tensor gradient shape mismatch: expected ");
                append_tuple4_debug(&mut out, *expected);
                out.append(", got ");
                append_tuple4_debug(&mut out, *actual);
            },
            CnnImageClassifierError::TensorAdapter(err) => {
                out.append("cnn classifier adapter error: ");
                let inner = err.message();
                out.append(inner.as_str());
            },
            CnnImageClassifierError::Tensor(err) => {
                out.append("cnn classifier tensor error: ");
                let inner = err.message();
                out.append(inner.as_str());
            },
        }
        out
    }
}

impl From<TensorAdapterError> for CnnImageClassifierError {
    fn from(value: TensorAdapterError) -> (r: Self) {
        CnnImageClassifierError::TensorAdapter(value)
    }
}

impl vstd::std_specs::convert::FromSpecImpl<TensorAdapterError> for CnnImageClassifierError {
    open spec fn obeys_from_spec() -> bool {
        true
    }

    open spec fn from_spec(v: TensorAdapterError) -> Self {
        CnnImageClassifierError::TensorAdapter(v)
    }
}

impl From<TensorError> for CnnImageClassifierError {
    fn from(value: TensorError) -> (r: Self) {
        CnnImageClassifierError::Tensor(value)
    }
}

impl vstd::std_specs::convert::FromSpecImpl<TensorError> for CnnImageClassifierError {
    open spec fn obeys_from_spec() -> bool {
        true
    }

    open spec fn from_spec(v: TensorError) -> Self {
        CnnImageClassifierError::Tensor(v)
    }
}

/// Whether batched preprocessing is on for a setting (`NEURALNET_CNN_BATCH_PREPROCESS`): on
/// unless the trimmed, lower-cased setting is `0`, `false`, `no`, `off` or `legacy`.
pub open spec fn batch_preprocess_on(setting: Option<Seq<char>>) -> bool {
    match setting {
        None => true,
        Some(v) => {
            let n = normalize_key_seq(v);
            !(n == "0"@ || n == "false"@ || n == "no"@ || n == "off"@ || n == "legacy"@)
        },
    }
}

pub fn batch_preprocess_enabled(setting: Option<&str>) -> (r: bool)
    ensures
        r == batch_preprocess_on(
            match setting {
                Some(s) => Some(s@),
                None => None,
            },
        ),
{
    match setting {
        None => true,
        Some(value) => {
            let n = normalize_key(value);
            !(n == "0".to_string() || n == "false".to_string() || n == "no".to_string() || n
                == "off".to_string() || n == "legacy".to_string())
        },
    }
}

/// How a batch prediction cuts the images into micro-batches.
#[derive(Debug, Clone, Copy, PartialEq, Eq, Structural)]
pub struct CnnBatchPredictOptions {
    pub max_micro_batch_size: usize,
    pub enable_batch_preprocess: bool,
}

impl CnnBatchPredictOptions {
    /// The default options under a batch-preprocessing setting: micro-batches of 32.
    pub fn with_preprocess_setting(setting: Option<&str>) -> (r: Self)
        ensures
            r.max_micro_batch_size == 32,
            r.enable_batch_preprocess == batch_preprocess_on(
                match setting {
                    Some(s) => Some(s@),
                    None => None,
                },
            ),
    {
        Self { max_micro_batch_size: 32, enable_batch_preprocess: batch_preprocess_enabled(setting) }
    }
}

/// How a coalescing predictor queues and batches images.
#[derive(Debug, Clone, Copy, PartialEq, Eq, Structural)]
pub struct CnnCoalescingPredictOptions {
    pub max_micro_batch_size: usize,
    pub max_queue_size: usize,
    pub max_queue_delay_ms: u64,
    pub enable_batch_preprocess: bool,
}

impl CnnCoalescingPredictOptions {
    /// The default options under a batch-preprocessing setting: micro-batches of 32, a queue
    /// of 64, a delay of 2 ms.
    pub fn with_preprocess_setting(setting: Option<&str>) -> (r: Self)
        ensures
            r.max_micro_batch_size == 32,
            r.max_queue_size == 64,
            r.max_queue_delay_ms == 2,
            r.enable_batch_preprocess == batch_preprocess_on(
                match setting {
                    Some(s) => Some(s@),
                    None => None,
                },
            ),
    {
        Self {
            max_micro_batch_size: 32,
            max_queue_size: 64,
            max_queue_delay_ms: 2,
            enable_batch_preprocess: batch_preprocess_enabled(setting),
        }
    }
}

/// The input channels of a classifier built without them: grayscale.
pub fn default_input_channels() -> (r: usize)
    ensures
        r == 1,
{
    1
}

/// The number of elements of a tensor shape, saturating at `usize::MAX`.
pub open spec fn saturating_product(shape: (usize, usize, usize, usize)) -> int {
    let a = if shape.0 * shape.1 > usize::MAX {
        usize::MAX as int
    } else {
        shape.0 * shape.1
    };
    let b = if a * shape.2 > usize::MAX {
        usize::MAX as int
    } else {
        a * shape.2
    };
    if b * shape.3 > usize::MAX {
        usize::MAX as int
    } else {
        b * shape.3
    }
}

fn saturating_mul_usize(a: usize, b: usize) -> (r: usize)
    ensures
        r == if a * b > usize::MAX {
            usize::MAX as int
        } else {
            a * b
        },
{
    match a.checked_mul(b) {
        Some(p) => p,
        None => usize::MAX,
    }
}

pub fn tensor_shape_element_count(shape: (usize, usize, usize, usize)) -> (r: usize)
    ensures
        r == saturating_product(shape),
{
    let a = saturating_mul_usize(shape.0, shape.1);
    let b = saturating_mul_usize(a, shape.2);
    saturating_mul_usize(b, shape.3)
}

/// `s * s`.
pub open spec fn square(s: int) -> int {
    s * s
}

/// The side of a square of `n` cells, when `n` is a perfect square.
pub open spec fn square_side(n: int) -> Option<int> {
    if exists|s: int| 0 <= s && #[trigger] square(s) == n {
        Some(choose|s: int| 0 <= s && #[trigger] square(s) == n)
    } else {
        None
    }
}

proof fn lemma_square_monotone(a: int, b: int)
    requires
        0 <= a <= b,
    ensures
        square(a) <= square(b),
{
    assert(a * a <= b * b) by (nonlinear_arith)
        requires
            0 <= a <= b,
    ;
}

proof fn lemma_square_unique(a: int, b: int)
    requires
        0 <= a,
        0 <= b,
        square(a) == square(b),
    ensures
        a == b,
{
    if a < b {
        assert(a * a < b * b) by (nonlinear_arith)
            requires
                0 <= a < b,
        ;
    } else if b < a {
        assert(b * b < a * a) by (nonlinear_arith)
            requires
                0 <= b < a,
        ;
    }
}

/// The exact square root of `n`, when `n` is a perfect square.
pub fn exact_square_root(n: usize) -> (r: Option<usize>)
    ensures
        match r {
            Some(s) => square_side(n as int) == Some(s as int),
            None => square_side(n as int) is None,
        },
{
    let target: u128 = n as u128;
    let mut lo: u128 = 0;
    let mut hi: u128 = 0x1_0000_0000;
    assert(square(hi as int) == 0x1_0000_0000_0000_0000);
    assert(square(0) == 0);
    while lo + 1 < hi
        invariant
            lo < hi <= 0x1_0000_0000,
            target == n,
            square(lo as int) <= target,
            target < square(hi as int),
        decreases hi - lo,
    {
        let mid = lo + (hi - lo) / 2;
        assert(mid * mid == square(mid as int));
        assert(mid * mid <= 0x1_0000_0000_0000_0000) by (nonlinear_arith)
            requires
                mid <= 0x1_0000_0000,
        ;
        if mid * mid <= target {
            lo = mid;
        } else {
            hi = mid;
        }
    }
    assert(hi == lo + 1);
    let lo_sq = lo * lo;
    assert(lo_sq == square(lo as int));
    if lo_sq == target {
        proof {
            assert(square(lo as int) == n as int);
            assert forall|s: int| 0 <= s && #[trigger] square(s) == n implies s == lo by {
                lemma_square_unique(s, lo as int);
            }
        }
        Some(lo as usize)
    } else {
        proof {
            assert forall|s: int| 0 <= s implies #[trigger] square(s) != n by {
                if s <= lo {
                    lemma_square_monotone(s, lo as int);
                } else {
                    lemma_square_monotone(hi as int, s);
                }
            }
        }
        None
    }
}

/// The shape of square image bytes: one channel when the bytes form a square, else three,
/// else four, where they divide into a square of pixels.
pub open spec fn square_image_shape(len: int) -> Option<(int, int, int)> {
    if len <= 0 {
        None
    } else if square_side(len) is Some {
        Some((square_side(len)->0, square_side(len)->0, 1))
    } else if len % 3 == 0 && square_side(len / 3) is Some {
        Some((square_side(len / 3)->0, square_side(len / 3)->0, 3))
    } else if len % 4 == 0 && square_side(len / 4) is Some {
        Some((square_side(len / 4)->0, square_side(len / 4)->0, 4))
    } else {
        None
    }
}

pub open spec fn shape_view(o: Option<(usize, usize, usize)>) -> Option<(int, int, int)> {
    match o {
        Some((h, w, c)) => Some((h as int, w as int, c as int)),
        None => None,
    }
}

/// Height, width and channels of square image bytes.
pub fn infer_square_dimensions_and_channels(image_bytes: &[u8]) -> (r: Option<(usize, usize, usize)>)
    ensures
        shape_view(r) == square_image_shape(image_bytes@.len() as int),
{
    let len = image_bytes.len();
    if len == 0 {
        return None;
    }
    match exact_square_root(len) {
        Some(s) => {
            return Some((s, s, 1));
        },
        None => {},
    }
    if len % 3 == 0 {
        match exact_square_root(len / 3) {
            Some(s) => {
                return Some((s, s, 3));
            },
            None => {},
        }
    }
    if len % 4 == 0 {
        match exact_square_root(len / 4) {
            Some(s) => {
                return Some((s, s, 4));
            },
            None => {},
        }
    }
    None
}

/// The shape that every image of a micro-batch has, with the classifier's input channels:
/// the shape of the first image, when all share it.
pub open spec fn common_square_shape(lens: Seq<int>, input_channels: int) -> Option<(int, int, int)> {
    if lens.len() == 0 {
        None
    } else {
        match square_image_shape(lens[0]) {
            Some(shape) => if shape.2 == input_channels && forall|k: int|
                0 <= k < lens.len() ==> square_image_shape(#[trigger] lens[k]) == Some(shape) {
                Some(shape)
            } else {
                None
            },
            None => None,
        }
    }
}

/// One micro-batch of a batch prediction: the images `start..end`, and the shape under which
/// they are preprocessed together, if they are.
#[derive(Debug, Clone, Copy, PartialEq, Eq)]
pub struct MicroBatchPlan {
    pub start: usize,
    pub end: usize,
    pub shared_shape: Option<(usize, usize, usize)>,
}

pub open spec fn image_lens(images: Seq<Vec<u8>>) -> Seq<int> {
    images.map_values(|v: Vec<u8>| v@.len() as int)
}

/// The micro-batches of `n` images of the given lengths: consecutive runs of `size` images
/// (the last one shorter), preprocessed together when that is enabled and they share a
/// square shape with the input channels.
pub open spec fn is_micro_batch_plan(
    plans: Seq<MicroBatchPlan>,
    lens: Seq<int>,
    size: int,
    enabled: bool,
    input_channels: int,
) -> bool {
    &&& (lens.len() == 0 <==> plans.len() == 0)
    &&& plans.len() > 0 ==> plans[0].start == 0 && plans.last().end == lens.len()
    &&& forall|k: int| 0 <= k < plans.len() - 1 ==> #[trigger] plans[k].end == plans[k + 1].start
    &&& forall|k: int|
        0 <= k < plans.len() ==> {
            let p = #[trigger] plans[k];
            &&& p.start < p.end
            &&& p.end - p.start <= size
            &&& k < plans.len() - 1 ==> p.end - p.start == size
            &&& shape_view(p.shared_shape) == if enabled {
                common_square_shape(lens.subrange(p.start as int, p.end as int), input_channels)
            } else {
                None
            }
        }
}

/// The shape the images `start..end` share with the input channels, if any.
fn shared_square_shape(images: &Vec<Vec<u8>>, start: usize, end: usize, input_channels: usize) -> (r:
    Option<(usize, usize, usize)>)
    requires
        start < end <= images.len(),
    ensures
        shape_view(r) == common_square_shape(
            image_lens(images@).subrange(start as int, end as int),
            input_channels as int,
        ),
{
    let ghost lens = image_lens(images@).subrange(start as int, end as int);
    assert(lens[0] == images@[start as int]@.len());
    let first = match infer_square_dimensions_and_channels(images[start].as_slice()) {
        Some(shape) => shape,
        None => {
            return None;
        },
    };
    if first.2 != input_channels {
        return None;
    }
    let mut i: usize = start;
    while i < end
        invariant
            start <= i <= end <= images.len(),
            lens == image_lens(images@).subrange(start as int, end as int),
            shape_view(Some(first)) == square_image_shape(lens[0]),
            forall|k: int| 0 <= k < i - start ==> square_image_shape(#[trigger] lens[k]) == shape_view(
                Some(first),
            ),
        decreases end - i,
    {
        let shape = infer_square_dimensions_and_channels(images[i].as_slice());
        assert(lens[i - start] == images@[i as int]@.len());
        match shape {
            Some(s) => {
                if s.0 != first.0 || s.1 != first.1 || s.2 != first.2 {
                    return None;
                }
            },
            None => {
                return None;
            },
        }
        i = i + 1;
    }
    Some(first)
}

/// Plans the micro-batches of a batch prediction: runs of at least one and at most
/// `max_micro_batch_size` images, each preprocessed as one batch when that is enabled and its
/// images share a square shape with `input_channels` channels.
pub fn plan_micro_batches(images: &Vec<Vec<u8>>, options: CnnBatchPredictOptions, input_channels: usize) -> (r: Vec<MicroBatchPlan>)
    ensures
        is_micro_batch_plan(
            r@,
            image_lens(images@),
            if options.max_micro_batch_size == 0 {
                1
            } else {
                options.max_micro_batch_size as int
            },
            options.enable_batch_preprocess,
            input_channels as int,
        ),
{
    let size: usize = if options.max_micro_batch_size == 0 {
        1
    } else {
        options.max_micro_batch_size
    };
    let n = images.len();
    let ghost lens = image_lens(images@);
    let mut plans: Vec<MicroBatchPlan> = Vec::new();
    let mut start: usize = 0;
    while start < n
        invariant
            start <= n == images.len(),
            size >= 1,
            lens == image_lens(images@),
            lens.len() == n,
            plans@.len() == 0 <==> start == 0,
            plans@.len() > 0 ==> plans@[0].start == 0 && plans@.last().end == start,
            forall|k: int| 0 <= k < plans@.len() - 1 ==> #[trigger] plans@[k].end == plans@[k + 1].start,
            forall|k: int|
                0 <= k < plans@.len() ==> {
                    let p = #[trigger] plans@[k];
                    &&& p.start < p.end
                    &&& p.end - p.start <= size
                    &&& k < plans@.len() - 1 ==> p.end - p.start == size
                    &&& shape_view(p.shared_shape) == if options.enable_batch_preprocess {
                        common_square_shape(lens.subrange(p.start as int, p.end as int), input_channels as int)
                    } else {
                        None
                    }
                },
            plans@.len() > 0 && start < n ==> plans@.last().end - plans@.last().start == size,
        decreases n - start,
    {
        let end = if n - start < size {
            n
        } else {
            start + size
        };
        let shared = if options.enable_batch_preprocess {
            shared_square_shape(images, start, end, input_channels)
        } else {
            None
        };
        let ghost before = plans@;
        plans.push(MicroBatchPlan { start, end, shared_shape: shared });
        proof {
            assert forall|k: int| 0 <= k < plans@.len() - 1 implies #[trigger] plans@[k].end
                == plans@[k + 1].start by {
                if k < before.len() - 1 {
                    assert(plans@[k] == before[k]);
                    assert(plans@[k + 1] == before[k + 1]);
                }
            }
            assert forall|k: int| 0 <= k < plans@.len() implies {
                let p = #[trigger] plans@[k];
                &&& p.start < p.end
                &&& p.end - p.start <= size
                &&& k < plans@.len() - 1 ==> p.end - p.start == size
                &&& shape_view(p.shared_shape) == if options.enable_batch_preprocess {
                    common_square_shape(lens.subrange(p.start as int, p.end as int), input_channels as int)
                } else {
                    None
                }
            } by {
                if k < before.len() {
                    assert(plans@[k] == before[k]);
                }
            }
        }
        start = end;
    }
    plans
}

/// `CNN1`, the first bytes of a saved classifier.
pub open spec fn classifier_magic() -> Seq<u8> {
    seq![67u8, 78u8, 78u8, 49u8]
}

fn classifier_tag() -> (r: [u8; 4])
    ensures
        r@ == classifier_magic(),
{
    let tag = [67u8, 78u8, 78u8, 49u8];
    assert(tag@ =~= classifier_magic());
    tag
}

/// The bytes of a saved classifier: `CNN1`, then the encoded snapshot.
pub fn frame_classifier_snapshot(encoded: &[u8]) -> (r: Vec<u8>)
    ensures
        r@ == tagged(classifier_magic(), encoded@),
{
    frame_tagged(classifier_tag(), encoded)
}

pub open spec fn bad_magic_text(path: Seq<char>) -> Seq<char> {
    "invalid CNN classifier snapshot magic in '"@ + path + "'"@
}

/// The encoded snapshot of a saved classifier read from `path`, or the error for bytes that
/// do not start with `CNN1`.
pub fn classifier_snapshot_payload(path: &str, bytes: &[u8]) -> (r: Result<Vec<u8>, String>)
    ensures
        match untagged(classifier_magic(), bytes@) {
            Some(p) => r matches Ok(q) && q@ == p,
            None => r matches Err(m) && m@ == bad_magic_text(path@),
        },
{
    match unframe_tagged(classifier_tag(), bytes) {
        Some(p) => Ok(p),
        None => {
            let mut m = "invalid CNN classifier snapshot magic in '".to_string();
            m.append(path);
            m.append("'");
            Err(m)
        },
    }
}

/// The sizes of a decoded classifier snapshot that loading checks.
#[derive(Debug, Clone)]
pub struct ClassifierSnapshotShape {
    pub class_label_count: usize,
    pub label_map_len: usize,
    pub input_channels: usize,
    /// The kernel shape of each feature block: output channels, input channels, height, width.
    pub block_kernel_shapes: Vec<(usize, usize, usize, usize)>,
    pub block_bias_lens: Vec<usize>,
    /// The input dimension of the linear head.
    pub head_input_dim: usize,
    /// The output dimension of the linear head.
    pub head_output_dim: usize,
}

/// The first feature block whose output channels and bias length differ.
pub open spec fn first_bias_mismatch(kernels: Seq<(usize, usize, usize, usize)>, biases: Seq<usize>) -> Option<int>
    decreases kernels.len(),
{
    if kernels.len() == 0 || biases.len() == 0 {
        None
    } else if kernels[0].0 != biases[0] {
        Some(0)
    } else {
        match first_bias_mismatch(kernels.drop_first(), biases.drop_first()) {
            Some(i) => Some(i + 1),
            None => None,
        }
    }
}

/// The reason a snapshot shape is refused, by the first check that fails, or `None`.
pub open spec fn snapshot_shape_problem(s: ClassifierSnapshotShape) -> Option<Seq<char>> {
    let kernels = s.block_kernel_shapes@;
    let biases = s.block_bias_lens@;
    if s.class_label_count < 2 {
        Some("requires at least two class labels"@)
    } else if s.label_map_len != s.class_label_count {
        Some("label map and labels mismatch"@)
    } else if kernels.len() == 0 {
        Some("feature block stack is empty"@)
    } else if kernels.len() != biases.len() {
        Some("feature block kernels/biases length mismatch"@)
    } else if first_bias_mismatch(kernels, biases) is Some {
        Some("feature block "@ + decimal_seq(first_bias_mismatch(kernels, biases)->0 as nat)
            + " channels and bias mismatch"@)
    } else if kernels[0].1 != s.input_channels {
        Some("first feature block input channels and model input channels mismatch"@)
    } else if s.head_input_dim != kernels.last().0 || s.head_output_dim != s.class_label_count {
        Some("head dimensions do not match model state"@)
    } else {
        None
    }
}

pub open spec fn snapshot_problem_text(path: Seq<char>, reason: Seq<char>) -> Seq<char> {
    "invalid CNN classifier snapshot '"@ + path + "' ("@ + reason + ")"@
}

fn snapshot_problem(path: &str, reason: &str) -> (r: String)
    ensures
        r@ == snapshot_problem_text(path@, reason@),
{
    let mut m = "invalid CNN classifier snapshot '".to_string();
    m.append(path);
    m.append("' (");
    m.append(reason);
    m.append(")");
    m
}

/// Checks that a decoded snapshot read from `path` describes a usable classifier: at least
/// two labels, a label map of the same size, a non-empty stack of feature blocks whose
/// biases match their output channels, a first block that reads the input channels, and a
/// head from the last block's channels to the labels.
pub fn validate_classifier_snapshot(path: &str, shape: &ClassifierSnapshotShape) -> (r: Result<(), String>)
    ensures
        match snapshot_shape_problem(*shape) {
            None => r is Ok,
            Some(reason) => r matches Err(m) && m@ == snapshot_problem_text(path@, reason),
        },
{
    proof {
        reveal_strlit("requires at least two class labels");
        reveal_strlit("label map and labels mismatch");
        reveal_strlit("feature block stack is empty");
        reveal_strlit("feature block kernels/biases length mismatch");
        reveal_strlit("first feature block input channels and model input channels mismatch");
        reveal_strlit("head dimensions do not match model state");
        reveal_strlit(" channels and bias mismatch");
        reveal_strlit("feature block ");
    }
    if shape.class_label_count < 2 {
        return Err(snapshot_problem(path, "requires at least two class labels"));
    }
    if shape.label_map_len != shape.class_label_count {
        return Err(snapshot_problem(path, "label map and labels mismatch"));
    }
    let kernels = &shape.block_kernel_shapes;
    let biases = &shape.block_bias_lens;
    if kernels.len() == 0 {
        return Err(snapshot_problem(path, "feature block stack is empty"));
    }
    if kernels.len() != biases.len() {
        return Err(snapshot_problem(path, "feature block kernels/biases length mismatch"));
    }
    let mut i: usize = 0;
    assert(kernels@.skip(0) =~= kernels@);
    assert(biases@.skip(0) =~= biases@);
    while i < kernels.len()
        invariant
            i <= kernels.len() == biases.len(),
            kernels == &shape.block_kernel_shapes,
            biases == &shape.block_bias_lens,
            kernels.len() > 0,
            shape.class_label_count >= 2,
            shape.label_map_len == shape.class_label_count,
            first_bias_mismatch(kernels@, biases@) == match first_bias_mismatch(
                kernels@.skip(i as int),
                biases@.skip(i as int),
            ) {
                Some(j) => Some(j + i),
                None => None,
            },
        decreases kernels.len() - i,
    {
        assert(kernels@.skip(i as int)[0] == kernels@[i as int]);
        assert(biases@.skip(i as int)[0] == biases@[i as int]);
        if kernels[i].0 != biases[i] {
            let mut reason = "feature block ".to_string();
            append_decimal(&mut reason, i as u64);
            reason.append(" channels and bias mismatch");
            return Err(snapshot_problem(path, reason.as_str()));
        }
        assert(kernels@.skip(i as int).drop_first() =~= kernels@.skip(i + 1));
        assert(biases@.skip(i as int).drop_first() =~= biases@.skip(i + 1));
        i = i + 1;
    }
    if kernels[0].1 != shape.input_channels {
        return Err(
            snapshot_problem(path, "first feature block input channels and model input channels mismatch"),
        );
    }
    let last = kernels[kernels.len() - 1].0;
    if shape.head_input_dim != last || shape.head_output_dim != shape.class_label_count {
        return Err(snapshot_problem(path, "head dimensions do not match model state"));
    }
    Ok(())
}

/// The distinct labels, trimmed and lower-cased, in the order they first appear; empty ones
/// are dropped.
pub open spec fn distinct_labels(labels: Seq<Seq<char>>) -> Seq<Seq<char>>
    decreases labels.len(),
{
    if labels.len() == 0 {
        Seq::empty()
    } else {
        let prev = distinct_labels(labels.drop_last());
        let l = normalize_key_seq(labels.last());
        if l.len() == 0 || prev.contains(l) {
            prev
        } else {
            prev.push(l)
        }
    }
}

pub open spec fn label_views(v: Seq<String>) -> Seq<Seq<char>> {
    v.map_values(|s: String| s@)
}

/// The class labels of a classifier: each label trimmed and lower-cased, empty ones dropped,
/// each kept once, in the order they first appear. A label's index is its position.
pub fn classifier_labels(class_labels: &Vec<String>) -> (r: Vec<String>)
    ensures
        label_views(r@) == distinct_labels(label_views(class_labels@)),
{
    let ghost all = label_views(class_labels@);
    let mut out: Vec<String> = Vec::new();
    let mut i: usize = 0;
    while i < class_labels.len()
        invariant
            i <= class_labels.len(),
            all == label_views(class_labels@),
            label_views(out@) == distinct_labels(all.take(i as int)),
        decreases class_labels.len() - i,
    {
        let ghost before = out@;
        let label = normalize_key(class_labels[i].as_str());
        proof {
            assert(all.take(i + 1).drop_last() =~= all.take(i as int));
            assert(all.take(i + 1).last() == class_labels@[i as int]@);
        }
        if !label.as_str().is_empty() {
            let mut seen = false;
            let mut j: usize = 0;
            while j < out.len()
                invariant
                    j <= out.len(),
                    label_views(out@) == distinct_labels(all.take(i as int)),
                    !seen ==> forall|k: int| 0 <= k < j ==> #[trigger] label_views(out@)[k] != label@,
                    seen ==> label_views(out@).contains(label@),
                decreases out.len() - j,
            {
                if out[j] == label {
                    seen = true;
                    assert(label_views(out@)[j as int] == label@);
                }
                j = j + 1;
            }
            if !seen {
                out.push(label);
                assert(label_views(out@) =~= label_views(before).push(label_views(out@).last()));
            }
        }
        i = i + 1;
    }
    assert(all.take(class_labels.len() as int) =~= all);
    out
}

/// Why a classifier cannot be built with the given configuration, if it can.
pub open spec fn classifier_config_problem(
    labels: Seq<Seq<char>>,
    input_height: usize,
    input_width: usize,
    input_channels: usize,
    feature_channels: Seq<usize>,
    kernel_height: usize,
    kernel_width: usize,
) -> Option<&'static str> {
    if input_height == 0 || input_width == 0 {
        Some("input height and width must be greater than zero")
    } else if input_channels == 0 {
        Some("input channels must be greater than zero")
    } else if kernel_height == 0 || kernel_width == 0 {
        Some("kernel height and width must be greater than zero")
    } else if feature_channels.len() == 0 {
        Some("feature channel configuration must contain at least one layer")
    } else if feature_channels.contains(0usize) {
        Some("feature channel counts must be greater than zero")
    } else if distinct_labels(labels).len() < 2 {
        Some("at least two distinct class labels are required")
    } else {
        None
    }
}

/// The kernel shape of each feature block: block `i` maps the channels of the block before
/// it (the input's for the first) to `feature_channels[i]`.
pub open spec fn block_kernel_shapes(input_channels: usize, feature_channels: Seq<usize>, kernel_height: usize, kernel_width: usize) -> Seq<
    (usize, usize, usize, usize),
> {
    Seq::new(
        feature_channels.len(),
        |i: int|
            (
                feature_channels[i],
                if i == 0 {
                    input_channels
                } else {
                    feature_channels[i - 1]
                },
                kernel_height,
                kernel_width,
            ),
    )
}

/// What building a classifier checks, in order, and what it is built from: the class labels
/// and the kernel shapes of its feature blocks.
pub fn plan_classifier(
    class_labels: &Vec<String>,
    input_height: usize,
    input_width: usize,
    input_channels: usize,
    feature_channels: &Vec<usize>,
    kernel_height: usize,
    kernel_width: usize,
) -> (r: Result<(Vec<String>, Vec<(usize, usize, usize, usize)>), CnnImageClassifierError>)
    ensures
        match classifier_config_problem(
            label_views(class_labels@),
            input_height,
            input_width,
            input_channels,
            feature_channels@,
            kernel_height,
            kernel_width,
        ) {
            Some(m) => r matches Err(CnnImageClassifierError::InvalidConfiguration(e)) && e == m,
            None => r matches Ok((labels, shapes)) && label_views(labels@) == distinct_labels(label_views(class_labels@))
                && shapes@ == block_kernel_shapes(input_channels, feature_channels@, kernel_height, kernel_width),
        },
{
    if input_height == 0 || input_width == 0 {
        return Err(CnnImageClassifierError::InvalidConfiguration("input height and width must be greater than zero"));
    }
    if input_channels == 0 {
        return Err(CnnImageClassifierError::InvalidConfiguration("input channels must be greater than zero"));
    }
    if kernel_height == 0 || kernel_width == 0 {
        return Err(CnnImageClassifierError::InvalidConfiguration("kernel height and width must be greater than zero"));
    }
    if feature_channels.len() == 0 {
        return Err(CnnImageClassifierError::InvalidConfiguration(
            "feature channel configuration must contain at least one layer",
        ));
    }
    let mut i: usize = 0;
    while i < feature_channels.len()
        invariant
            i <= feature_channels.len(),
            input_height > 0 && input_width > 0 && input_channels > 0,
            kernel_height > 0 && kernel_width > 0,
            feature_channels.len() > 0,
            forall|k: int| 0 <= k < i ==> #[trigger] feature_channels@[k] != 0,
        decreases feature_channels.len() - i,
    {
        if feature_channels[i] == 0 {
            assert(feature_channels@.contains(0usize));
            return Err(CnnImageClassifierError::InvalidConfiguration("feature channel counts must be greater than zero"));
        }
        i = i + 1;
    }
    assert(!feature_channels@.contains(0usize));
    let labels = classifier_labels(class_labels);
    if labels.len() < 2 {
        return Err(CnnImageClassifierError::InvalidConfiguration("at least two distinct class labels are required"));
    }
    let mut shapes: Vec<(usize, usize, usize, usize)> = Vec::new();
    let mut in_channels = input_channels;
    let mut k: usize = 0;
    while k < feature_channels.len()
        invariant
            k <= feature_channels.len(),
            in_channels == if k == 0 {
                input_channels
            } else {
                feature_channels@[k - 1]
            },
            shapes@ == block_kernel_shapes(input_channels, feature_channels@, kernel_height, kernel_width).take(k as int),
        decreases feature_channels.len() - k,
    {
        let out_channels = feature_channels[k];
        shapes.push((out_channels, in_channels, kernel_height, kernel_width));
        in_channels = out_channels;
        k = k + 1;
        assert(shapes@ =~= block_kernel_shapes(input_channels, feature_channels@, kernel_height, kernel_width).take(k as int));
    }
    assert(block_kernel_shapes(input_channels, feature_channels@, kernel_height, kernel_width).take(
        feature_channels.len() as int,
    ) =~= block_kernel_shapes(input_channels, feature_channels@, kernel_height, kernel_width));
    Ok((labels, shapes))
}

/// The index of a label among the class labels, once trimmed and lower-cased, or the error
/// for a label the classifier does not know.
pub fn class_index(class_labels: &Vec<String>, label: &str) -> (r: Result<usize, CnnImageClassifierError>)
    ensures
        match first_position(label_views(class_labels@), normalize_key_seq(label@)) {
            Some(i) => r matches Ok(k) && k == i,
            None => r matches Err(CnnImageClassifierError::UnknownLabel(l)) && l@ == normalize_key_seq(label@),
        },
{
    let normalized = normalize_key(label);
    let ghost views = label_views(class_labels@);
    let mut i: usize = 0;
    while i < class_labels.len()
        invariant
            i <= class_labels.len(),
            views == label_views(class_labels@),
            normalized@ == normalize_key_seq(label@),
            forall|j: int| 0 <= j < i ==> #[trigger] views[j] != normalized@,
        decreases class_labels.len() - i,
    {
        if class_labels[i] == normalized {
            proof {
                lemma_first_position_found(views, normalized@, i as int);
            }
            return Ok(i);
        }
        i = i + 1;
    }
    proof {
        lemma_first_position_absent(views, normalized@);
    }
    Err(CnnImageClassifierError::UnknownLabel(normalized))
}

/// What training on a batch of images under one label starts from: the label's class index,
/// and the square shape that all the images share with the input channels, under which they
/// are preprocessed as one batch when that is enabled.
#[derive(Debug, Clone, Copy, PartialEq, Eq)]
pub struct TrainingBatchPlan {
    pub class_index: usize,
    pub shared_shape: Option<(usize, usize, usize)>,
}

/// Checks a training batch and plans it: an empty batch is refused, then an unknown label.
pub fn plan_training_batch(
    class_labels: &Vec<String>,
    label: &str,
    images: &Vec<Vec<u8>>,
    input_channels: usize,
    batch_preprocess: bool,
) -> (r: Result<TrainingBatchPlan, CnnImageClassifierError>)
    ensures
        images@.len() == 0 ==> (r matches Err(CnnImageClassifierError::InvalidConfiguration(m))
            && m == "cannot train on an empty image batch"),
        images@.len() > 0 ==> match first_position(label_views(class_labels@), normalize_key_seq(label@)) {
            Some(i) => r matches Ok(p) && p.class_index == i && shape_view(p.shared_shape) == if batch_preprocess {
                common_square_shape(image_lens(images@), input_channels as int)
            } else {
                None
            },
            None => r matches Err(CnnImageClassifierError::UnknownLabel(l)) && l@ == normalize_key_seq(label@),
        },
{
    if images.len() == 0 {
        return Err(CnnImageClassifierError::InvalidConfiguration("cannot train on an empty image batch"));
    }
    let index = match class_index(class_labels, label) {
        Ok(i) => i,
        Err(e) => {
            return Err(e);
        },
    };
    let shared_shape = if batch_preprocess {
        let shape = shared_square_shape(images, 0, images.len(), input_channels);
        assert(image_lens(images@).subrange(0, images@.len() as int) =~= image_lens(images@));
        shape
    } else {
        None
    };
    Ok(TrainingBatchPlan { class_index: index, shared_shape })
}

/// The labels of `distinct_labels` are normalized keys, and none occurs twice.
proof fn lemma_distinct_labels_normalized_unique(labels: Seq<Seq<char>>)
    ensures
        forall|i: int| 0 <= i < distinct_labels(labels).len() ==> normalize_key_seq(#[trigger] distinct_labels(labels)[i])
            == distinct_labels(labels)[i],
        forall|i: int, j: int|
            0 <= i < j < distinct_labels(labels).len() ==> #[trigger] distinct_labels(labels)[i]
                != #[trigger] distinct_labels(labels)[j],
    decreases labels.len(),
{
    if labels.len() > 0 {
        let prev = distinct_labels(labels.drop_last());
        lemma_distinct_labels_normalized_unique(labels.drop_last());
        let l = normalize_key_seq(labels.last());
        lemma_normalize_key_idempotent(labels.last());
        if !(l.len() == 0 || prev.contains(l)) {
            let d = prev.push(l);
            assert forall|i: int, j: int| 0 <= i < j < d.len() implies #[trigger] d[i] != #[trigger] d[j] by {
                if j == d.len() - 1 {
                    assert(d[i] == prev[i]);
                    assert(prev.contains(prev[i]));
                }
            }
        }
    }
}

/// Every class label of a classifier is found at its own index: looking up the label at
/// position `i` of `distinct_labels` gives `i`.
pub proof fn lemma_class_labels_indexed(labels: Seq<Seq<char>>, i: int)
    requires
        0 <= i < distinct_labels(labels).len(),
    ensures
        first_position(distinct_labels(labels), normalize_key_seq(distinct_labels(labels)[i])) == Some(i),
{
    let d = distinct_labels(labels);
    lemma_distinct_labels_normalized_unique(labels);
    assert(normalize_key_seq(d[i]) == d[i]);
    assert forall|j: int| 0 <= j < i implies #[trigger] d[j] != d[i] by {}
    lemma_first_position_found(d, d[i], i);
}

} // verus!
