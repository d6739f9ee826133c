//! A task: one record holding free-form text content.
use vstd::prelude::*;

verus! {

/// The placeholder content used when a task is added without text.
pub open spec fn default_content() -> Seq<char> {
    "To Be Determined\nwrite something to do here."@
}

pub struct Task {
    pub content: String,
}

impl Task {
    /// A task holding the given text.
    pub fn new(text: &str) -> (t: Task)
        ensures
            t.content@ == text@,
    {
        Task { content: text.to_owned() }
    }

    /// Replaces the content, returning the previous content.
    pub fn modify(&mut self, content: String) -> (prev: String)
        ensures
            final(self).content == content,
            prev == old(self).content,
    {
        let prev = self.content.clone();
        self.content = content;
        prev
    }
}

impl Clone for Task {
    fn clone(&self) -> (t: Self)
        ensures
            t == *self,
    {
        Task { content: self.content.clone() }
    }
}

impl Default for Task {
    /// A task holding the placeholder content.
    fn default() -> (t: Self)
        ensures
            t.content@ == default_content(),
    {
        Task { content: "To Be Determined\nwrite something to do here.".to_owned() }
    }
}

} // verus!
