use vstd::prelude::*;

verus! {

/// A message waiting in a channel's reaction queue.
pub struct QueuedItem {
    /// The text to send.
    pub content: String,
    /// The count number the text stands for, 0 where none was given.
    pub number: i64,
    /// Whether the queue was empty when the item was added.
    pub was_empty: bool,
}

impl Clone for QueuedItem {
    fn clone(&self) -> (r: Self)
        ensures
            r == *self,
    {
        QueuedItem { content: self.content.clone(), number: self.number, was_empty: self.was_empty }
    }
}

/// How long to wait before a reaction is sent.
#[derive(Clone, Copy, Debug, PartialEq, Eq, Structural)]
pub enum ReactionDelayMode {
    /// 200 to 300 ms.
    Normal,
    /// 0 to 200 ms.
    Fast,
    /// No delay.
    Instant,
    /// 0 to 300 ms.
    Random,
}

} // verus!
