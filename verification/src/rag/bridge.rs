use vstd::prelude::*;

use crate::input::MultiModalInput;
use crate::text::{
    append_decimal,
    chars_of,
    decimal_seq,
    join_seq,
    join_strings,
    lower_chars,
    lower_seq,
    string_from_chars,
    string_views,
    trim_chars,
    trim_seq,
};

verus! {

/// Turns brain inputs into retrieval queries.
pub struct BrainRagBridge;

/// The query for an input: trimmed text; `image-bytes:<len>` for an image; the trimmed,
/// lower-cased modality, followed by the tokens separated by spaces when there are any.
pub open spec fn query_text(input: MultiModalInput) -> Seq<char> {
    match input {
        MultiModalInput::Text(t) => trim_seq(t@),
        MultiModalInput::ImageBytes(b) => "image-bytes:"@ + decimal_seq(b@.len()),
        MultiModalInput::FeatureTokens { modality, tokens } => if tokens@.len() == 0 {
            lower_seq(trim_seq(modality@))
        } else {
            lower_seq(trim_seq(modality@)) + " "@ + join_seq(string_views(tokens@), " "@)
        },
    }
}

impl BrainRagBridge {
    pub fn query_from_input(input: &MultiModalInput) -> (r: String)
        ensures
            r@ == query_text(*input),
    {
        match input {
            MultiModalInput::Text(text) => string_from_chars(&trim_chars(&chars_of(text.as_str()))),
            MultiModalInput::ImageBytes(bytes) => {
                let mut out = "image-bytes:".to_string();
                append_decimal(&mut out, bytes.len() as u64);
                out
            },
            MultiModalInput::FeatureTokens { modality, tokens } => {
                let m = string_from_chars(&lower_chars(&trim_chars(&chars_of(modality.as_str()))));
                if tokens.len() == 0 {
                    m
                } else {
                    let mut out = m;
                    out.append(" ");
                    let joined = join_strings(tokens, " ");
                    out.append(joined.as_str());
                    out
                }
            },
        }
    }
}

} // verus!
