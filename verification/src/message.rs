//! Chat messages.

use vstd::prelude::*;

use crate::util::{is_blank, is_space, is_space_char};

verus! {

/// One chat message: who sent it, its text, and a timestamp in minutes since
/// the Unix epoch. Immutable after construction.
#[derive(Debug)]
pub struct Message {
    pub sender: String,
    pub content: String,
    pub timestamp: u32,
    pub sender_id: u16,
}

/// A message the server accepts for broadcast: the content fits in
/// `max_len` bytes and is not only whitespace.
pub open spec fn valid_message(content: Seq<char>, max_len: int) -> bool {
    &&& vstd::utf8::encode_utf8(content).len() <= max_len
    &&& !is_blank(content)
}

impl Message {
    /// The content fits in `max_len` bytes and is not blank.
    pub fn is_valid(&self, max_len: usize) -> (r: bool)
        ensures
            r == valid_message(self.content@, max_len as int),
    {
        if self.content.as_str().as_bytes().len() > max_len {
            return false;
        }
        if self.is_empty() {
            return false;
        }
        true
    }

    /// The content is empty or all whitespace.
    pub fn is_empty(&self) -> (r: bool)
        ensures
            r == is_blank(self.content@),
    {
        let chars = crate::util::chars_vec(self.content.as_str());
        let n = chars.len();
        let mut i: usize = 0;
        while i < n
            invariant
                n == chars@.len(),
                chars@ =~= self.content@,
                i <= n,
                forall|j: int| 0 <= j < i ==> is_space(#[trigger] self.content@[j]),
            decreases n - i,
        {
            if !is_space_char(chars[i]) {
                return false;
            }
            i = i + 1;
        }
        true
    }
}

impl Clone for Message {
    fn clone(&self) -> (r: Self)
        ensures
            r == *self,
    {
        Message {
            sender: self.sender.clone(),
            content: self.content.clone(),
            timestamp: self.timestamp,
            sender_id: self.sender_id,
        }
    }
}

} // verus!
