//! The kind of an elementary stream.

use vstd::prelude::*;

verus! {

/// The `stream_type` code that a Program Map Table gives an elementary
/// stream, such as `0x1B` for H.264 video.
#[derive(Clone, Copy, Debug, PartialEq, Eq, Structural, Hash)]
pub struct StreamType(pub u8);

impl StreamType {
    /// The code as it stands in the table.
    pub fn code(&self) -> (r: u8)
        ensures
            r == self.0,
    {
        self.0
    }
}

impl From<u8> for StreamType {
    fn from(code: u8) -> (r: StreamType) {
        StreamType(code)
    }
}

impl vstd::std_specs::convert::FromSpecImpl<u8> for StreamType {
    open spec fn obeys_from_spec() -> bool {
        true
    }

    open spec fn from_spec(code: u8) -> StreamType {
        StreamType(code)
    }
}

} // verus!
