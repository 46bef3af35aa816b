//! Event stream decoders.

use vstd::prelude::*;

use crate::events::{EventCD, ExtTrigger};

pub mod bitfield;
pub mod enum_layout;
pub mod evt20;
pub mod layout;
pub mod word;

pub use evt20::Evt20Decoder;
pub use word::Word;

verus! {

/// A decoder that turns a buffer of encoded words into the events it carries.
pub trait EvtDecoder {
    fn decode(&mut self, buf: &[u8]) -> (Vec<EventCD>, Vec<ExtTrigger>);
}

} // verus!
