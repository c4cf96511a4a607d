use vstd::prelude::*;

verus! {

/// An input in one of the supported modalities.
#[derive(Debug, Clone, PartialEq, Eq)]
pub enum MultiModalInput {
    Text(String),
    ImageBytes(Vec<u8>),
    FeatureTokens { modality: String, tokens: Vec<String> },
}

} // verus!
