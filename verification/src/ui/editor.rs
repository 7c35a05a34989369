use vstd::prelude::*;

verus! {

/// What the snippet editor holds while a snippet is being written.
pub struct EditorState {
    /// The trigger being typed.
    pub trigger: String,
    /// The label being typed; empty means no label.
    pub label: String,
    /// The expansion text being typed.
    pub body: String,
    /// Position in the snippet list of the snippet being edited, or `None`
    /// for a new snippet.
    pub editing_index: Option<usize>,
}

impl EditorState {
    /// The editor holds nothing typed yet.
    pub open spec fn is_blank(&self) -> bool {
        &&& self.trigger@.len() == 0
        &&& self.label@.len() == 0
        &&& self.body@.len() == 0
        &&& self.editing_index is None
    }

    /// An empty editor for a new snippet.
    pub fn new() -> (e: Self)
        ensures
            e.is_blank(),
    {
        EditorState {
            trigger: String::new(),
            label: String::new(),
            body: String::new(),
            editing_index: None,
        }
    }

    /// An editor filled with a snippet's fields, for editing the snippet at
    /// `index` of the snippet list.
    pub fn edit(trigger: String, label: String, body: String, index: usize) -> (e: Self)
        ensures
            e.trigger == trigger,
            e.label == label,
            e.body == body,
            e.editing_index == Some(index),
    {
        EditorState { trigger, label, body, editing_index: Some(index) }
    }

    /// Both required fields, the trigger and the body, are filled.
    pub fn is_valid(&self) -> (r: bool)
        ensures
            r == (self.trigger@.len() > 0 && self.body@.len() > 0),
    {
        !self.trigger.as_str().is_empty() && !self.body.as_str().is_empty()
    }
}

} // verus!
