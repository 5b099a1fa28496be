use vstd::prelude::*;

use crate::command::AgentEvent;

verus! {

/// What the clipboard monitor remembers between polls: the last text it
/// reported.
pub struct ClipboardTracker {
    last: String,
}

impl View for ClipboardTracker {
    type V = Seq<char>;

    closed spec fn view(&self) -> Seq<char> {
        self.last@
    }
}

/// A poll reports new text: it differs from the last report and is not empty.
pub open spec fn is_change(last: Seq<char>, current: Seq<char>) -> bool {
    current != last && current.len() > 0
}

impl ClipboardTracker {
    /// Nothing reported yet.
    pub fn new() -> (r: ClipboardTracker)
        ensures
            r@ == Seq::<char>::empty(),
    {
        ClipboardTracker { last: String::new() }
    }

    /// Takes the text that a poll read and the time of the poll, in seconds.
    /// New non-empty text is reported once, as a `ClipboardChanged` event,
    /// and remembered; anything else reports nothing and changes nothing.
    pub fn observe(&mut self, current: String, timestamp: u64) -> (r: Option<AgentEvent>)
        ensures
            r is Some <==> is_change(old(self)@, current@),
            match r {
                Some(AgentEvent::ClipboardChanged { text, timestamp: t }) => text@ == current@ && t == timestamp,
                Some(_) => false,
                None => true,
            },
            final(self)@ == if is_change(old(self)@, current@) {
                current@
            } else {
                old(self)@
            },
    {
        if current == self.last || current.as_str().unicode_len() == 0 {
            return None;
        }
        let text = current.clone();
        self.last = current;
        Some(AgentEvent::ClipboardChanged { text, timestamp })
    }
}

} // verus!
