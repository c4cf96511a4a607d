use vstd::prelude::*;

use crate::input::MultiModalInput;

verus! {

/// Whether a question is worth storing.
#[derive(Debug, Clone, Copy, PartialEq, Eq, Structural)]
pub enum QuestionStoreDecision {
    Store,
    DoNotStore,
    Defer,
}

/// Which parts of a brain a snapshot restored.
#[derive(Debug, Clone, Copy, PartialEq, Eq, Structural)]
pub struct SnapshotLoadStatus {
    pub cognitive_loaded: bool,
    pub memory_loaded: bool,
    pub classifier_loaded: bool,
}

/// A labeled input for supervised training.
#[derive(Debug, Clone)]
pub struct SupervisedSample {
    pub label: String,
    pub content: MultiModalInput,
}

impl SupervisedSample {
    pub fn new(label: &str, content: MultiModalInput) -> (r: Self)
        ensures
            r.label@ == label@,
            r.content == content,
    {
        Self { label: label.to_string(), content }
    }
}

/// A labeled input a pattern classifier learned from.
#[derive(Debug, Clone)]
pub struct LabeledPattern {
    pub label: String,
    pub content: MultiModalInput,
}

} // verus!
