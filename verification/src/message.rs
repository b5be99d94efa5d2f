//! The entry a producer hands to the logger.

use vstd::prelude::*;
use crate::text::texts_of;

verus! {

/// What a `Message` holds: the path of module names, in the order given,
/// and the text.
pub struct MessageView {
    pub modules: Seq<Seq<char>>,
    pub text: Seq<char>,
}

/// One log entry: a path of module names and a text.
pub struct Message {
    modules: Vec<String>,
    text: String,
}

impl View for Message {
    type V = MessageView;

    closed spec fn view(&self) -> MessageView {
        MessageView { modules: texts_of(self.modules@), text: self.text@ }
    }
}

impl Message {
    pub fn new(modules: &Vec<String>, text: &str) -> (r: Self)
        ensures
            r@.modules == texts_of(modules@),
            r@.text == text@,
    {
        let mut copy: Vec<String> = Vec::new();
        let mut i: usize = 0;
        while i < modules.len()
            invariant
                i <= modules.len(),
                copy@.len() == i,
                forall|j: int| 0 <= j < i ==> copy@[j]@ == modules@[j]@,
            decreases modules.len() - i,
        {
            copy.push(modules[i].clone());
            i += 1;
        }
        assert(texts_of(copy@) =~= texts_of(modules@));
        Message { modules: copy, text: text.to_owned() }
    }

    pub fn modules(&self) -> (r: &Vec<String>)
        ensures
            texts_of(r@) == self@.modules,
    {
        &self.modules
    }

    pub fn text(&self) -> (r: &String)
        ensures
            r@ == self@.text,
    {
        &self.text
    }
}

} // verus!
