use vstd::prelude::*;

use crate::tensor::errors::{tensor_adapter_error_text, tensor_error_text, TensorAdapterError, TensorError};
use crate::text::{append_decimal, decimal_seq};

verus! {

/// Errors of the CNN feature extractor.
#[derive(Debug)]
pub enum CnnFeatureExtractorError {
    UnsupportedImageShape { byte_len: usize },
    TensorAdapter(TensorAdapterError),
    Tensor(TensorError),
}

pub open spec fn extractor_error_text(e: CnnFeatureExtractorError) -> Seq<char> {
    match e {
        CnnFeatureExtractorError::UnsupportedImageShape { byte_len } =>
            "unsupported image shape for CNN extractor (expected square bytes with 1, 3, or 4 channels): "@
            + decimal_seq(byte_len as nat) + " bytes"@,
        CnnFeatureExtractorError::TensorAdapter(err) => "cnn extractor adapter error: "@
            + tensor_adapter_error_text(err),
        CnnFeatureExtractorError::Tensor(err) => "cnn extractor tensor error: "@ + tensor_error_text(err),
    }
}

impl CnnFeatureExtractorError {
    /// The text that the error displays.
    pub fn message(&self) -> (r: String)
        ensures
            r@ == extractor_error_text(*self),
    {
        let mut out = String::new();
        match self {
            CnnFeatureExtractorError::UnsupportedImageShape { byte_len } => {
                out.append(
                    "unsupported image shape for CNN extractor (expected square bytes with 1, 3, or 4 channels): ",
                );
                append_decimal(&mut out, *byte_len as u64);
                out.append(" bytes");
            },
            CnnFeatureExtractorError::TensorAdapter(err) => {
                out.append("cnn extractor adapter error: ");
                let inner = err.message();
                out.append(inner.as_str());
            },
            CnnFeatureExtractorError::Tensor(err) => {
                out.append("cnn extractor tensor error: ");
                let inner = err.message();
                out.append(inner.as_str());
            },
        }
        out
    }
}

impl From<TensorAdapterError> for CnnFeatureExtractorError {
    fn from(value: TensorAdapterError) -> (r: Self) {
        CnnFeatureExtractorError::TensorAdapter(value)
    }
}

impl vstd::std_specs::convert::FromSpecImpl<TensorAdapterError> for CnnFeatureExtractorError {
    open spec fn obeys_from_spec() -> bool {
        true
    }

    open spec fn from_spec(v: TensorAdapterError) -> Self {
        CnnFeatureExtractorError::TensorAdapter(v)
    }
}

impl From<TensorError> for CnnFeatureExtractorError {
    fn from(value: TensorError) -> (r: Self) {
        CnnFeatureExtractorError::Tensor(value)
    }
}

impl vstd::std_specs::convert::FromSpecImpl<TensorError> for CnnFeatureExtractorError {
    open spec fn obeys_from_spec() -> bool {
        true
    }

    open spec fn from_spec(v: TensorError) -> Self {
        CnnFeatureExtractorError::Tensor(v)
    }
}

} // verus!
