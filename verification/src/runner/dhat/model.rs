//! The structs that model the content of a DHAT output file.
use vstd::prelude::*;

use crate::pattern::{capture_group, compile, is_match, regex_capture, regex_is_match, regex_valid};
use crate::text::{append_str, eq_str, from_chars, owned, to_chars, to_lowercase, lowercase};

verus! {

/// The dhat invocation mode
#[derive(Debug, Clone, Copy, PartialEq, Eq, Structural)]
pub enum Mode {
    /// --mode=heap
    Heap,
    /// --mode=ad-hoc
    AdHoc,
    /// --mode=copy
    Copy,
}

/// A `ProgramPoint`
#[derive(Debug, Clone, PartialEq)]
pub struct ProgramPoint {
    /// Total bytes
    pub total_bytes: u64,
    /// Total blocks
    pub total_blocks: u64,
    /// Total lifetimes of all blocks allocated at this `ProgramPoint`.
    pub total_lifetimes: Option<u128>,
    /// The maximum bytes for this `ProgramPoint`
    pub maximum_bytes: Option<u64>,
    /// The maximum blocks for this `ProgramPoint`
    pub maximum_blocks: Option<u64>,
    /// The bytes at t-gmax for this `ProgramPoint`
    pub bytes_at_max: Option<u64>,
    /// The blocks at t-gmax for this `ProgramPoint`
    pub blocks_at_max: Option<u64>,
    /// The bytes at t-end for this `ProgramPoint`
    pub bytes_at_end: Option<u64>,
    /// The blocks at t-end for this `ProgramPoint`
    pub blocks_at_end: Option<u64>,
    /// The reads of blocks for this `ProgramPoint`
    pub blocks_read: Option<u64>,
    /// The writes of blocks for this `ProgramPoint`
    pub blocks_write: Option<u64>,
    /// The exact accesses of blocks for this `ProgramPoint`. A negative element indicates
    /// run-length encoding of the following integer.
    pub accesses: Option<Vec<i64>>,
    /// Frames. Each element is an index into the [`DhatData::frame_table`]
    pub frames: Vec<usize>,
}

/// The regular expression of an entry of the frame table: the root frame or an address, a
/// function and a location.
pub const FRAME_PATTERN: &'static str = r"^(?<root>\[root\])|(?<addr>0x[0-9a-fA-F]+):\s*(?<func>.*)\s\((?<in>.*)\)$";

/// A [`Frame`] in the [`DhatData::frame_table`]
#[derive(Debug, Clone, PartialEq)]
pub enum Frame {
    /// The root frame
    Root,
    /// All other frames than the root are leafs: the address, the function and the location
    Leaf(String, String, String),
}

/// The view of a frame: `None` for the root, the address, function and location otherwise.
pub open spec fn frame_view(f: Frame) -> Option<(Seq<char>, Seq<char>, Seq<char>)> {
    match f {
        Frame::Root => None,
        Frame::Leaf(a, b, c) => Some((a@, b@, c@)),
    }
}

/// The text of a frame as the frame table holds it.
pub open spec fn frame_text(f: Frame) -> Seq<char> {
    match f {
        Frame::Root => "[root]"@,
        Frame::Leaf(addr, func, loc) => addr@ + ": "@ + func@ + " ("@ + loc@ + ")"@,
    }
}

/// The frame made of the capture groups of a match of [`FRAME_PATTERN`]: the root frame if the
/// `root` group took part, a leaf if the three other groups did.
pub open spec fn frame_from_groups(
    root: bool,
    addr: Option<Seq<char>>,
    func: Option<Seq<char>>,
    location: Option<Seq<char>>,
) -> Option<Option<(Seq<char>, Seq<char>, Seq<char>)>> {
    if root {
        Some(None)
    } else {
        match (addr, func, location) {
            (Some(a), Some(f), Some(l)) => Some(Some((a, f, l))),
            _ => None,
        }
    }
}

/// What the frame parser gives for `haystack`, given the named results of the `regex` crate:
/// `None` for an error, the frame view otherwise.
pub open spec fn frame_parse_spec(haystack: Seq<char>) -> Option<Option<(Seq<char>, Seq<char>, Seq<char>)>> {
    let p = FRAME_PATTERN@;
    if !regex_valid(p) || !regex_is_match(p, haystack) {
        None
    } else {
        frame_from_groups(
            regex_capture(p, haystack, "root"@).unwrap() is Some,
            regex_capture(p, haystack, "addr"@).unwrap(),
            regex_capture(p, haystack, "func"@).unwrap(),
            regex_capture(p, haystack, "in"@).unwrap(),
        )
    }
}

impl Frame {
    /// A leaf frame of an address, a function and a location
    pub fn leaf(addr: &str, func: &str, location: &str) -> (r: Frame)
        ensures
            frame_view(r) == Some((addr@, func@, location@)),
    {
        Frame::Leaf(owned(addr), owned(func), owned(location))
    }

    /// The frame of the capture groups of a match of the frame pattern
    pub fn from_groups(
        root: bool,
        addr: Option<String>,
        func: Option<String>,
        location: Option<String>,
    ) -> (r: Option<Frame>)
        ensures
            r matches Some(f) ==> frame_from_groups(
                root,
                match addr { Some(s) => Some(s@), None => None },
                match func { Some(s) => Some(s@), None => None },
                match location { Some(s) => Some(s@), None => None },
            ) == Some(frame_view(f)),
            r is None ==> frame_from_groups(
                root,
                match addr { Some(s) => Some(s@), None => None },
                match func { Some(s) => Some(s@), None => None },
                match location { Some(s) => Some(s@), None => None },
            ) is None,
    {
        if root {
            Some(Frame::Root)
        } else {
            match (addr, func, location) {
                (Some(a), Some(f), Some(l)) => Some(Frame::Leaf(a, f, l)),
                _ => None,
            }
        }
    }

    /// Parse an entry of the frame table: the root frame `[root]` or
    /// `<address>: <function> (<location>)`
    pub fn parse(haystack: &str) -> (r: Result<Frame, String>)
        ensures
            r is Ok <==> frame_parse_spec(haystack@) is Some,
            r matches Ok(f) ==> frame_parse_spec(haystack@) == Some(frame_view(f)),
            r matches Err(e) ==> e@ == "invalid frame format"@,
    {
        let re = match compile(FRAME_PATTERN) {
            Ok(re) => re,
            Err(_) => return Err(owned("invalid frame format")),
        };
        if !is_match(&re, haystack) {
            return Err(owned("invalid frame format"));
        }
        let root = capture_group(&re, haystack, "root");
        let addr = capture_group(&re, haystack, "addr");
        let func = capture_group(&re, haystack, "func");
        let location = capture_group(&re, haystack, "in");
        match (root, addr, func, location) {
            (Some(root), Some(addr), Some(func), Some(location)) => {
                match Frame::from_groups(root.is_some(), addr, func, location) {
                    Some(frame) => Ok(frame),
                    None => Err(owned("invalid frame format")),
                }
            },
            _ => Err(owned("invalid frame format")),
        }
    }

    /// The text of this frame as the frame table holds it
    pub fn to_string(&self) -> (r: String)
        ensures
            r@ == frame_text(*self),
    {
        match self {
            Frame::Root => owned("[root]"),
            Frame::Leaf(addr, func, loc) => {
                let mut v = to_chars(addr.as_str());
                append_str(&mut v, ": ");
                append_str(&mut v, func.as_str());
                append_str(&mut v, " (");
                append_str(&mut v, loc.as_str());
                append_str(&mut v, ")");
                from_chars(&v)
            },
        }
    }
}

impl std::str::FromStr for Frame {
    type Err = String;

    fn from_str(haystack: &str) -> (r: Result<Frame, String>)
        ensures
            r is Ok <==> frame_parse_spec(haystack@) is Some,
            r matches Ok(f) ==> frame_parse_spec(haystack@) == Some(frame_view(f)),
            r matches Err(e) ==> e@ == "invalid frame format"@,
    {
        Frame::parse(haystack)
    }
}

impl Mode {
    /// The mode named by the lowercase form of a name
    pub open spec fn spec_from_lowercase(s: Seq<char>) -> Option<Mode> {
        if s == "ad-hoc"@ {
            Some(Mode::AdHoc)
        } else if s == "heap"@ {
            Some(Mode::Heap)
        } else if s == "copy"@ {
            Some(Mode::Copy)
        } else {
            None
        }
    }

    /// The name of this mode in the DHAT output
    pub open spec fn spec_name(self) -> Seq<char> {
        match self {
            Mode::Heap => "heap"@,
            Mode::AdHoc => "ad-hoc"@,
            Mode::Copy => "copy"@,
        }
    }

    /// The mode named by `value`, without regard to case
    pub fn from_name(value: &str) -> (r: Option<Mode>)
        ensures
            r == Mode::spec_from_lowercase(lowercase(value@)),
    {
        let lower = to_lowercase(value);
        let v = to_chars(lower.as_str());
        if eq_str(&v, "ad-hoc") {
            Some(Mode::AdHoc)
        } else if eq_str(&v, "heap") {
            Some(Mode::Heap)
        } else if eq_str(&v, "copy") {
            Some(Mode::Copy)
        } else {
            None
        }
    }

    /// The name of this mode in the DHAT output
    pub fn name(&self) -> (r: String)
        ensures
            r@ == self.spec_name(),
    {
        match self {
            Mode::Heap => owned("heap"),
            Mode::AdHoc => owned("ad-hoc"),
            Mode::Copy => owned("copy"),
        }
    }
}

impl Default for Mode {
    fn default() -> (r: Mode)
        ensures
            r == Mode::Heap,
    {
        Mode::Heap
    }
}

/// The top-level data extracted from dhat json output
#[derive(Debug, Clone, PartialEq)]
pub struct DhatData {
    /// Version number of the format
    pub dhat_file_version: usize,
    /// The invocation mode
    pub mode: Mode,
    /// The verb used before above stack frames
    pub verb: String,
    /// Are block lifetimes recorded? Affects whether some other fields are present.
    pub has_block_lifetimes: bool,
    /// Are block accesses recorded? Affects whether some other fields are present
    pub has_block_accesses: bool,
    /// Byte units. "byte" is the values used if these fields are omitted.
    pub byte_unit: Option<String>,
    /// Bytes units. "bytes" is the values used if these fields are omitted.
    pub bytes_unit: Option<String>,
    /// Blocks units. "blocks" is the values used if these fields are omitted.
    pub block_unit: Option<String>,
    /// Time units (individual)
    pub time_unit: String,
    /// Time units (1,000,000x)
    pub time_unit_m: String,
    /// The "short-lived" time threshold, measures in "tu"s (`time_unit`).
    pub time_threshold: Option<usize>,
    /// The executed command
    pub command: String,
    /// The process ID
    pub pid: i32,
    /// The time at the end of execution (t-end)
    pub time_end: u128,
    /// The time of the global max (t-gmax)
    pub time_global_max: Option<u128>,
    /// The [`ProgramPoint`]s
    pub program_points: Vec<ProgramPoint>,
    /// [`Frame`] table
    pub frame_table: Vec<Frame>,
}

} // verus!
