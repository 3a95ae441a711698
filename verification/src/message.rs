//! The append-only narrated event log.

use vstd::prelude::*;
use crate::tile::Color;

verus! {

/// One narrated event: text plus a presentation color.
#[derive(Clone, Debug)]
pub struct Message {
    pub text: String,
    pub color: Color,
}

impl Message {
    /// A white message with the given text.
    pub fn new(text: String) -> (m: Message)
        ensures
            m.text@ == text@,
            m.color == Color::White,
    {
        Message { text, color: Color::White }
    }
}

} // verus!
