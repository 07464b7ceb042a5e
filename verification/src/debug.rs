//! Purely observational diagnostics: a per-frame buffer of status messages
//! no collaborator ever parses.

use vstd::prelude::*;

verus! {

/// A frame-scoped diagnostics sink.
pub struct Debug {
    pub messages: Vec<String>,
    pub layer: i32,
    pub permanent: bool,
}

impl Debug {
    pub fn new() -> (r: Debug)
        ensures
            r.messages@.len() == 0,
            r.layer == 0,
            !r.permanent,
    {
        Debug { messages: Vec::new(), layer: 0, permanent: false }
    }

    /// Sets the annotation options of the frame being built.
    pub fn options(&mut self, layer: i32, permanent: bool)
        ensures
            final(self).layer == layer,
            final(self).permanent == permanent,
            final(self).messages == old(self).messages,
    {
        self.layer = layer;
        self.permanent = permanent;
    }

    /// Appends one free-form status message to the current frame.
    pub fn message(&mut self, text: &str)
        ensures
            final(self).messages@.len() == old(self).messages@.len() + 1,
            final(self).messages@.last()@ == text@,
            forall|i: int|
                0 <= i < old(self).messages@.len() ==> #[trigger] final(self).messages@[i] == old(
                    self,
                ).messages@[i],
            final(self).layer == old(self).layer,
            final(self).permanent == old(self).permanent,
    {
        self.messages.push(text.to_owned());
    }

    /// Closes the frame: its messages are dropped.
    pub fn end_frame(&mut self)
        ensures
            final(self).messages@.len() == 0,
            final(self).layer == old(self).layer,
            final(self).permanent == old(self).permanent,
    {
        self.messages.clear();
    }
}

} // verus!
