use vstd::prelude::*;
use crate::text::{ends_with, is_suffix, last_index_of, rfind_char, same_text, lemma_last_index_bounds};

verus! {

/// Whole seconds of a timestamp.
#[derive(Copy, Clone, PartialEq, Eq, Structural, PartialOrd, Ord, Debug, Hash)]
pub struct Secs(pub u64);

/// The sub-second part of a timestamp, in nanoseconds.
#[derive(Copy, Clone, PartialEq, Eq, Structural, PartialOrd, Ord, Debug, Hash)]
pub struct FractNanos(pub u32);

/// A timestamp: seconds and the nanoseconds beyond them.
#[derive(Copy, Clone, PartialEq, Eq, Structural, PartialOrd, Ord, Debug)]
pub struct Timeval {
    pub secs: Secs,
    pub fract_nsecs: FractNanos,
}

/// When and on which thread an allocation was freed.
#[derive(Copy, Clone, PartialEq, Eq, Structural, Debug)]
pub struct Deallocation {
    pub timestamp: Timeval,
    pub thread: u32,
}

/// One frame of a backtrace, innermost first; the symbol fields are empty
/// where the address could not be resolved.
#[derive(PartialEq, Debug)]
pub struct Frame {
    pub address: u64,
    pub address_s: String,
    pub count: u64,
    pub library: Option<String>,
    pub function: Option<String>,
    pub raw_function: Option<String>,
    pub source: Option<String>,
    pub line: Option<u32>,
    pub column: Option<u32>,
    pub is_inline: bool,
}

/// An allocation as the query server reports it, with its deallocation where
/// it was freed. The relative timestamp's fraction of the whole capture is
/// left to the transport layer, which alone reads it.
#[derive(PartialEq, Debug)]
pub struct Allocation {
    pub address: u64,
    pub address_s: String,
    pub timestamp: Timeval,
    pub timestamp_relative: Timeval,
    pub thread: u32,
    pub size: u64,
    pub backtrace_id: u32,
    pub deallocation: Option<Deallocation>,
    pub backtrace: Vec<Frame>,
    pub is_mmaped: bool,
    pub in_main_arena: bool,
    pub extra_space: u32,
}

/// The server's answer to a query for the allocations of a log.
#[derive(Debug)]
pub struct ResponseAllocations {
    pub allocations: Vec<Allocation>,
    pub total_count: u64,
}

/// The allocations that one log holds.
pub struct Analysis {
    pub response: ResponseAllocations,
}

/// A frame lies in a source file whose path ends with `expected`.
pub open spec fn frame_from_source(frame: Frame, expected: Seq<char>) -> bool {
    match frame.source {
        Some(source) => is_suffix(source@, expected),
        None => false,
    }
}

/// Some frame of the allocation's backtrace lies in the source file `expected`.
pub open spec fn from_source(alloc: Allocation, expected: Seq<char>) -> bool {
    exists|i: int| 0 <= i < alloc.backtrace@.len() && frame_from_source(alloc.backtrace@[i], expected)
}

/// A frame's raw symbol is `expected`.
pub open spec fn frame_from_function(frame: Frame, expected: Seq<char>) -> bool {
    match frame.raw_function {
        Some(symbol) => symbol@ == expected,
        None => false,
    }
}

/// Some frame of the allocation's backtrace is in the function `expected`.
pub open spec fn from_function(alloc: Allocation, expected: Seq<char>) -> bool {
    exists|i: int|
        0 <= i < alloc.backtrace@.len() && frame_from_function(alloc.backtrace@[i], expected)
}

/// Whether an allocation was made from code in the source file `expected`.
pub fn is_from_source(alloc: &Allocation, expected: &str) -> (r: bool)
    ensures
        r == from_source(*alloc, expected@),
{
    let mut i: usize = 0;
    while i < alloc.backtrace.len()
        invariant
            i <= alloc.backtrace@.len(),
            forall|j: int| 0 <= j < i ==> !frame_from_source(#[trigger] alloc.backtrace@[j], expected@),
        decreases alloc.backtrace@.len() - i,
    {
        let frame = &alloc.backtrace[i];
        match &frame.source {
            Some(source) => {
                if ends_with(source.as_str(), expected) {
                    assert(frame_from_source(alloc.backtrace@[i as int], expected@));
                    return true;
                }
            },
            None => {},
        }
        i = i + 1;
    }
    false
}

/// Whether an allocation was made with the function `expected` on its stack.
pub fn is_from_function(alloc: &Allocation, expected: &str) -> (r: bool)
    ensures
        r == from_function(*alloc, expected@),
{
    let mut i: usize = 0;
    while i < alloc.backtrace.len()
        invariant
            i <= alloc.backtrace@.len(),
            forall|j: int|
                0 <= j < i ==> !frame_from_function(#[trigger] alloc.backtrace@[j], expected@),
        decreases alloc.backtrace@.len() - i,
    {
        let frame = &alloc.backtrace[i];
        match &frame.raw_function {
            Some(symbol) => {
                if same_text(symbol.as_str(), expected) {
                    assert(frame_from_function(alloc.backtrace@[i as int], expected@));
                    return true;
                }
            },
            None => {},
        }
        i = i + 1;
    }
    false
}

/// The positions, in order, of the allocations made from the source file `expected`.
pub open spec fn source_positions(allocs: Seq<Allocation>, expected: Seq<char>) -> Seq<int>
    decreases allocs.len(),
{
    if allocs.len() == 0 {
        Seq::empty()
    } else if from_source(allocs.last(), expected) {
        source_positions(allocs.drop_last(), expected).push(allocs.len() - 1)
    } else {
        source_positions(allocs.drop_last(), expected)
    }
}

/// What each position of a list holds, as a mathematical integer.
pub open spec fn positions(v: Seq<usize>) -> Seq<int> {
    v.map_values(|i: usize| i as int)
}

impl Analysis {
    /// The allocations of the log, in the server's order.
    pub open spec fn allocs(&self) -> Seq<Allocation> {
        self.response.allocations@
    }

    /// The positions, in order, of the allocations made from the source file `source`.
    pub fn allocations_from_source(&self, source: &str) -> (r: Vec<usize>)
        ensures
            positions(r@) == source_positions(self.allocs(), source@),
    {
        let allocs = &self.response.allocations;
        let mut r: Vec<usize> = Vec::new();
        let mut i: usize = 0;
        while i < allocs.len()
            invariant
                i <= allocs@.len(),
                allocs@ == self.allocs(),
                positions(r@) == source_positions(allocs@.subrange(0, i as int), source@),
            decreases allocs@.len() - i,
        {
            let ghost prefix = allocs@.subrange(0, i + 1);
            assert(prefix.drop_last() == allocs@.subrange(0, i as int));
            if is_from_source(&allocs[i], source) {
                r.push(i);
                assert(positions(r@) =~= source_positions(prefix, source@));
            }
            i = i + 1;
        }
        assert(allocs@.subrange(0, allocs@.len() as int) == allocs@);
        r
    }
}

/// A frame's raw symbol, empty where it was not resolved.
pub open spec fn raw_name(frame: Frame) -> Seq<char> {
    match frame.raw_function {
        Some(symbol) => symbol@,
        None => Seq::empty(),
    }
}

/// The allocation's call chain, read from the outermost caller inwards,
/// starts with the functions `expected`.
pub open spec fn backtrace_starts_with(alloc: Allocation, expected: Seq<Seq<char>>) -> bool {
    let n = alloc.backtrace@.len();
    n >= expected.len() && forall|i: int|
        0 <= i < expected.len() ==> raw_name(#[trigger] alloc.backtrace@[n - 1 - i]) == expected[i]
}

/// Whether the allocation's call chain, outermost caller first, starts with
/// the functions `expected`.
pub fn allocation_backtrace_matches(alloc: &Allocation, expected: &[&str]) -> (r: bool)
    ensures
        r == backtrace_starts_with(*alloc, expected@.map_values(|s: &str| s@)),
{
    let ghost want = expected@.map_values(|s: &str| s@);
    let n = alloc.backtrace.len();
    if n < expected.len() {
        return false;
    }
    let mut i: usize = 0;
    while i < expected.len()
        invariant
            n == alloc.backtrace@.len(),
            n >= expected@.len(),
            i <= expected@.len(),
            want == expected@.map_values(|s: &str| s@),
            forall|j: int|
                0 <= j < i ==> raw_name(#[trigger] alloc.backtrace@[n - 1 - j]) == want[j],
        decreases expected@.len() - i,
    {
        let frame = &alloc.backtrace[n - 1 - i];
        let same = match &frame.raw_function {
            Some(symbol) => same_text(symbol.as_str(), expected[i]),
            None => expected[i].unicode_len() == 0,
        };
        if !same {
            assert(raw_name(alloc.backtrace@[n - 1 - i]) != want[i as int]);
            return false;
        }
        i = i + 1;
    }
    true
}

/// The file name at the end of a path.
pub open spec fn file_name(path: Seq<char>) -> Seq<char> {
    path.subrange(last_index_of(path, '/') + 1, path.len() as int)
}

/// Whether the executable at `path` is named `name`.
pub fn executable_name_matches(path: &str, name: &str) -> (r: bool)
    ensures
        r == (file_name(path@) == name@),
{
    proof {
        lemma_last_index_bounds(path@, '/');
    }
    let n = path.unicode_len();
    let start = match rfind_char(path, '/') {
        Some(index) => index + 1,
        None => 0,
    };
    same_text(path.substring_char(start, n), name)
}

} // verus!
