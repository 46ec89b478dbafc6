//! Checks shared by the script-facing API.
use vstd::prelude::*;
use crate::json_format::{decimal, push_text, push_u64};

verus! {

/// The message for an index past the end of a collection of `what`.
pub open spec fn index_error_text(what: Seq<char>, index: nat, len: nat) -> Seq<char> {
    what + " index "@ + decimal(index) + " is out of bounds for length "@ + decimal(len)
}

/// The index as a `usize` when it is below `len`; otherwise the message
/// saying which index of what was out of bounds.
pub fn require_index(index: u32, len: usize, what: &str) -> (res: Result<usize, String>)
    ensures
        index < len ==> res == Ok::<usize, String>(index as usize),
        index >= len ==> (res matches Err(m) && m@ == index_error_text(what@, index as nat, len as nat)),
{
    let index = index as usize;
    if index < len {
        Ok(index)
    } else {
        let mut message = String::new();
        push_text(&mut message, what);
        push_text(&mut message, " index ");
        push_u64(&mut message, index as u64);
        push_text(&mut message, " is out of bounds for length ");
        push_u64(&mut message, len as u64);
        Err(message)
    }
}

} // verus!
