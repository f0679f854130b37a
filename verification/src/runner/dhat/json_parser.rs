//! The parser of the json output file of DHAT: which benchmark run it reads and which frames
//! its data is restricted to.
use vstd::prelude::*;

use crate::api::EntryPoint;

verus! {

/// The parser of DHAT's json output file
#[derive(Debug)]
pub struct JsonParser {
    entry_point: EntryPoint,
    frames: Vec<String>,
    output_path: String,
}

impl JsonParser {
    /// The entry point the data is restricted to
    pub closed spec fn entry_point_view(&self) -> EntryPoint {
        self.entry_point
    }

    /// The patterns of the frames the data is restricted to
    pub closed spec fn frames_view(&self) -> Seq<String> {
        self.frames@
    }

    /// The output file
    pub closed spec fn output_path_view(&self) -> Seq<char> {
        self.output_path@
    }

    /// Create a new `JsonParser`
    pub fn new(output_path: String, entry_point: EntryPoint, frames: Vec<String>) -> (r: JsonParser)
        ensures
            r.entry_point_view() == entry_point,
            r.frames_view() == frames@,
            r.output_path_view() == output_path@,
    {
        JsonParser { entry_point, frames, output_path }
    }
}

} // verus!
