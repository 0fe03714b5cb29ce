//! Options of a DWARF expression evaluation, and the bytes of the words read
//! for it.

use vstd::prelude::*;

verus! {

/// Byte `k` (0 for the lowest) of a 64 bit word.
pub open spec fn word_byte(val: u64, k: int) -> u8 {
    (val >> (8 * k) as u64) as u8
}

/// The bytes of a 64 bit word in memory order (little endian).
pub fn u64_to_bytes(val: u64) -> (r: [u8; 8])
    ensures
        forall|k: int| 0 <= k < 8 ==> #[trigger] r@[k] == word_byte(val, k),
{
    let r = [
        val as u8,
        (val >> 8u64) as u8,
        (val >> 16u64) as u8,
        (val >> 24u64) as u8,
        (val >> 32u64) as u8,
        (val >> 40u64) as u8,
        (val >> 48u64) as u8,
        (val >> 56u64) as u8,
    ];
    assert(val >> 0u64 == val) by (bit_vector);
    r
}

/// What an evaluation may need: the base of the frame and the value at the
/// location of the expression.
pub struct EvalOption {
    base_frame: Option<usize>,
    at_location: Option<Vec<u8>>,
}

impl EvalOption {
    pub closed spec fn base_frame_view(&self) -> Option<usize> {
        self.base_frame
    }

    pub closed spec fn at_location_view(&self) -> Option<Seq<u8>> {
        match self.at_location {
            Some(v) => Some(v@),
            None => None,
        }
    }

    /// No option set.
    pub fn new() -> (r: Self)
        ensures
            r.base_frame_view() is None,
            r.at_location_view() is None,
    {
        EvalOption { base_frame: None, at_location: None }
    }

    /// The same options with the base of the frame set.
    pub fn with_base_frame(self, base_frame: usize) -> (r: Self)
        ensures
            r.base_frame_view() == Some(base_frame),
            r.at_location_view() == self.at_location_view(),
    {
        EvalOption { base_frame: Some(base_frame), ..self }
    }

    /// The same options with the value at the location set.
    pub fn with_at_location(self, bytes: Vec<u8>) -> (r: Self)
        ensures
            r.base_frame_view() == self.base_frame_view(),
            r.at_location_view() == Some(bytes@),
    {
        EvalOption { at_location: Some(bytes), ..self }
    }

    /// The base of the frame, if set.
    pub fn base_frame(&self) -> (r: Option<usize>)
        ensures
            r == self.base_frame_view(),
    {
        self.base_frame
    }

    /// The value at the location, if set.
    pub fn at_location(&self) -> (r: Option<&Vec<u8>>)
        ensures
            match r {
                Some(v) => self.at_location_view() == Some(v@),
                None => self.at_location_view() is None,
            },
    {
        match &self.at_location {
            Some(v) => Some(v),
            None => None,
        }
    }
}

} // verus!
