use vstd::prelude::*;

use crate::text::{append_decimal, append_tuple4_debug, decimal_seq, tuple4_debug_seq};

verus! {

/// Errors of tensor operations.
#[derive(Debug, Clone, Copy, PartialEq, Eq)]
pub enum TensorError {
    ShapeMismatch { expected: usize, actual: usize },
    IncompatibleShapes { left: (usize, usize, usize, usize), right: (usize, usize, usize, usize) },
    OutOfBounds { n: usize, c: usize, h: usize, w: usize },
    InvalidArgument(&'static str),
}

pub open spec fn tensor_error_text(e: TensorError) -> Seq<char> {
    match e {
        TensorError::ShapeMismatch { expected, actual } => "tensor shape mismatch: expected "@
            + decimal_seq(expected as nat) + " elements, got "@ + decimal_seq(actual as nat),
        TensorError::IncompatibleShapes { left, right } => "incompatible tensor shapes: left="@
            + tuple4_debug_seq(left) + ", right="@ + tuple4_debug_seq(right),
        TensorError::OutOfBounds { n, c, h, w } => "tensor index out of bounds at n="@
            + decimal_seq(n as nat) + ", c="@ + decimal_seq(c as nat) + ", h="@ + decimal_seq(
            h as nat,
        ) + ", w="@ + decimal_seq(w as nat),
        TensorError::InvalidArgument(message) => "invalid tensor argument: "@ + message@,
    }
}

impl TensorError {
    /// The text that the error displays.
    pub fn message(&self) -> (r: String)
        ensures
            r@ == tensor_error_text(*self),
    {
        let mut out = String::new();
        match *self {
            TensorError::ShapeMismatch { expected, actual } => {
                out.append("tensor shape mismatch: expected ");
                append_decimal(&mut out, expected as u64);
                out.append(" elements, got ");
                append_decimal(&mut out, actual as u64);
            },
            TensorError::IncompatibleShapes { left, right } => {
                out.append("incompatible tensor shapes: left=");
                append_tuple4_debug(&mut out, left);
                out.append(", right=");
                append_tuple4_debug(&mut out, right);
            },
            TensorError::OutOfBounds { n, c, h, w } => {
                out.append("tensor index out of bounds at n=");
                append_decimal(&mut out, n as u64);
                out.append(", c=");
                append_decimal(&mut out, c as u64);
                out.append(", h=");
                append_decimal(&mut out, h as u64);
                out.append(", w=");
                append_decimal(&mut out, w as u64);
            },
            TensorError::InvalidArgument(message) => {
                out.append("invalid tensor argument: ");
                out.append(message);
            },
        }
        out
    }
}

/// Errors of turning images into tensors.
#[derive(Debug, Clone, Copy, PartialEq, Eq, Structural)]
pub enum TensorAdapterError {
    InvalidDimensions { height: usize, width: usize },
    InvalidImageSize { expected: usize, actual: usize },
    EmptyBatch,
    InconsistentImageSize { index: usize, expected: usize, actual: usize },
    UnsupportedInputType,
    InvalidChannelCount { channels: usize },
}

pub open spec fn tensor_adapter_error_text(e: TensorAdapterError) -> Seq<char> {
    match e {
        TensorAdapterError::InvalidDimensions { height, width } => "invalid image dimensions: height="@
            + decimal_seq(height as nat) + ", width="@ + decimal_seq(width as nat)
            + " (must both be > 0)"@,
        TensorAdapterError::InvalidImageSize { expected, actual } =>
            "invalid image size for tensor conversion: expected "@ + decimal_seq(expected as nat)
            + ", got "@ + decimal_seq(actual as nat),
        TensorAdapterError::EmptyBatch => "cannot build tensor from empty image batch"@,
        TensorAdapterError::InconsistentImageSize { index, expected, actual } =>
            "inconsistent image size at batch index "@ + decimal_seq(index as nat) + ": expected "@
            + decimal_seq(expected as nat) + ", got "@ + decimal_seq(actual as nat),
        TensorAdapterError::UnsupportedInputType =>
            "only MultiModalInput::ImageBytes can be adapted to NCHW tensor"@,
        TensorAdapterError::InvalidChannelCount { channels } => "invalid image channel count: "@
            + decimal_seq(channels as nat) + " (must be > 0)"@,
    }
}

impl TensorAdapterError {
    /// The text that the error displays.
    pub fn message(&self) -> (r: String)
        ensures
            r@ == tensor_adapter_error_text(*self),
    {
        let mut out = String::new();
        match *self {
            TensorAdapterError::InvalidDimensions { height, width } => {
                out.append("invalid image dimensions: height=");
                append_decimal(&mut out, height as u64);
                out.append(", width=");
                append_decimal(&mut out, width as u64);
                out.append(" (must both be > 0)");
            },
            TensorAdapterError::InvalidImageSize { expected, actual } => {
                out.append("invalid image size for tensor conversion: expected ");
                append_decimal(&mut out, expected as u64);
                out.append(", got ");
                append_decimal(&mut out, actual as u64);
            },
            TensorAdapterError::EmptyBatch => {
                out.append("cannot build tensor from empty image batch");
            },
            TensorAdapterError::InconsistentImageSize { index, expected, actual } => {
                out.append("inconsistent image size at batch index ");
                append_decimal(&mut out, index as u64);
                out.append(": expected ");
                append_decimal(&mut out, expected as u64);
                out.append(", got ");
                append_decimal(&mut out, actual as u64);
            },
            TensorAdapterError::UnsupportedInputType => {
                out.append("only MultiModalInput::ImageBytes can be adapted to NCHW tensor");
            },
            TensorAdapterError::InvalidChannelCount { channels } => {
                out.append("invalid image channel count: ");
                append_decimal(&mut out, channels as u64);
                out.append(" (must be > 0)");
            },
        }
        out
    }
}

} // verus!
