use vstd::prelude::*;

use crate::collections::StrMap;
use crate::text::opt_text;

verus! {

/// A document to retrieve from: an id, its text and metadata by key.
#[derive(Debug, Clone, PartialEq, Eq)]
pub struct RagDocument {
    pub id: String,
    pub text: String,
    pub metadata: StrMap<String>,
}

impl RagDocument {
    /// The metadata value of a key, as text.
    pub open spec fn meta(&self, k: Seq<char>) -> Option<Seq<char>> {
        opt_text(self.metadata.spec_get(k))
    }
}

} // verus!
