use vstd::prelude::*;
use crate::report::{Allocation, Analysis, positions, source_positions};

verus! {

/// What `str::to_uppercase` makes of a text.
pub uninterp spec fn upper_of(s: Seq<char>) -> Seq<char>;

/// Relies on `str::to_uppercase`: the upper-case form of a text, which
/// depends on its characters alone; an empty text stays empty.
#[verifier::external_body]
fn to_upper(s: &str) -> (r: String)
    ensures
        r@ == upper_of(s@),
        s@.len() == 0 ==> r@.len() == 0,
{
    s.to_uppercase()
}

/// Every position of `source_positions` points into the list.
pub proof fn lemma_source_positions_in_range(allocs: Seq<Allocation>, expected: Seq<char>)
    ensures
        forall|k: int|
            0 <= k < source_positions(allocs, expected).len() ==> 0 <= #[trigger] source_positions(
                allocs,
                expected,
            )[k] < allocs.len(),
    decreases allocs.len(),
{
    if allocs.len() > 0 {
        let rest = allocs.drop_last();
        lemma_source_positions_in_range(rest, expected);
        let p = source_positions(rest, expected);
        assert forall|k: int| 0 <= k < p.len() implies #[trigger] p[k] < allocs.len() by {
            assert(p[k] < rest.len());
        }
    }
}

/// A list of positions, read as mathematical integers, holds the same values.
pub proof fn lemma_positions(v: Seq<usize>)
    ensures
        positions(v).len() == v.len(),
        forall|i: int| 0 <= i < v.len() ==> #[trigger] positions(v)[i] == v[i] as int,
{
}

/// Positions that a search by source file returned point into the list.
pub proof fn lemma_found_in_range(found: Seq<usize>, allocs: Seq<Allocation>, expected: Seq<char>)
    requires
        positions(found) == source_positions(allocs, expected),
    ensures
        forall|i: int| 0 <= i < found.len() ==> #[trigger] found[i] < allocs.len(),
        forall|i: int|
            0 <= i < found.len() ==> source_allocs(allocs, expected)[i] == allocs[#[trigger] found[i] as int],
        source_allocs(allocs, expected).len() == found.len(),
{
    lemma_source_positions_in_range(allocs, expected);
    lemma_positions(found);
    assert forall|i: int| 0 <= i < found.len() implies #[trigger] found[i] < allocs.len() by {
        assert(positions(found)[i] == found[i] as int);
    }
}

/// The allocations made from the source file `expected`, in order.
pub open spec fn source_allocs(allocs: Seq<Allocation>, expected: Seq<char>) -> Seq<Allocation> {
    source_positions(allocs, expected).map_values(|i: int| allocs[i])
}

/// The names that one run of the start/stop program uses.
pub struct StartStopRun {
    /// The program's name, which is also its output file.
    pub output: String,
    /// The preprocessor symbol that picks how the program starts and stops tracing.
    pub define: String,
    /// The log's file name, with a placeholder for the segment number.
    pub output_template: String,
    /// The log files of the first and of the second segment.
    pub segments: Vec<String>,
}

/// The names for a run of the start/stop program in the variant `kind`.
pub fn start_stop_run(kind: &str) -> (r: StartStopRun)
    ensures
        r.output@ == "start-stop_"@ + kind@,
        r.define@ == "VARIANT_"@ + upper_of(kind@),
        r.output_template@ == "start-stop_"@ + kind@ + "_%n.dat"@,
        r.segments@.len() == 2,
        r.segments@[0]@ == "start-stop_"@ + kind@ + "_0.dat"@,
        r.segments@[1]@ == "start-stop_"@ + kind@ + "_1.dat"@,
{
    let output = String::from_str("start-stop_").concat(kind);
    let define = String::from_str("VARIANT_").concat(to_upper(kind).as_str());
    let output_template = String::from_str("start-stop_").concat(kind).concat("_%n.dat");
    let mut segments: Vec<String> = Vec::new();
    segments.push(String::from_str("start-stop_").concat(kind).concat("_0.dat"));
    segments.push(String::from_str("start-stop_").concat(kind).concat("_1.dat"));
    StartStopRun { output, define, output_template, segments }
}

/// The first segment holds, from the program's own source, the allocations of
/// 10002, 20002 and 10003 bytes, the first and last on one thread and the
/// second on another; the second segment holds those of 10004 and 20003
/// bytes, on two threads.
pub open spec fn start_stop_segments_hold(first: Seq<Allocation>, second: Seq<Allocation>) -> bool {
    let a = source_allocs(first, "start-stop.c"@);
    let b = source_allocs(second, "start-stop.c"@);
    &&& a.len() == 3
    &&& a[0].size == 10002 && a[1].size == 20002 && a[2].size == 10003
    &&& a[0].thread == a[2].thread && a[0].thread != a[1].thread
    &&& b.len() == 2
    &&& b[0].size == 10004 && b[1].size == 20003
    &&& b[0].thread != b[1].thread
}

/// Whether the two segments of a start/stop run hold what the program
/// allocated while tracing was on, and nothing else.
pub fn test_start_stop_generic(first: &Analysis, second: &Analysis) -> (r: bool)
    ensures
        r == start_stop_segments_hold(first.allocs(), second.allocs()),
{
    let a = first.allocations_from_source("start-stop.c");
    let b = second.allocations_from_source("start-stop.c");
    let fa = &first.response.allocations;
    let sa = &second.response.allocations;
    proof {
        lemma_found_in_range(a@, fa@, "start-stop.c"@);
        lemma_found_in_range(b@, sa@, "start-stop.c"@);
    }
    if a.len() != 3 || b.len() != 2 {
        return false;
    }
    let a0 = &fa[a[0]];
    let a1 = &fa[a[1]];
    let a2 = &fa[a[2]];
    let b0 = &sa[b[0]];
    let b1 = &sa[b[1]];
    a0.size == 10002 && a1.size == 20002 && a2.size == 10003 && a0.thread == a2.thread
        && a0.thread != a1.thread && b0.size == 10004 && b1.size == 20003 && b0.thread
        != b1.thread
}

/// What the test does to the traced program while a gather session runs.
#[derive(Copy, Clone, PartialEq, Eq, Structural, Debug)]
pub enum GatherAction {
    /// Asks the program to go on to its next allocation.
    Next,
    /// Waits a second.
    Sleep,
    /// Stops tracing abruptly; the program then fails.
    Kill,
    /// Asks the program to stop early and exit successfully.
    EarlyReturn,
}

/// A session ends gracefully when the program is never killed.
pub open spec fn is_graceful(actions: Seq<GatherAction>) -> bool {
    forall|i: int| 0 <= i < actions.len() ==> actions[i] != GatherAction::Kill
}

/// Whether the traced program is expected to exit successfully after `actions`.
pub fn gather_is_graceful(actions: &[GatherAction]) -> (r: bool)
    ensures
        r == is_graceful(actions@),
{
    let mut i: usize = 0;
    while i < actions.len()
        invariant
            i <= actions@.len(),
            forall|j: int| 0 <= j < i ==> actions@[j] != GatherAction::Kill,
        decreases actions@.len() - i,
    {
        if actions[i] == GatherAction::Kill {
            return false;
        }
        i = i + 1;
    }
    true
}

/// A gather session left exactly one file, and it holds the first `expected`
/// allocations of the gather program (10001, 10002 and 10003 bytes), no more.
pub open spec fn gather_output_holds(expected: nat, outputs: nat, allocs: Seq<Allocation>) -> bool {
    let a = source_allocs(allocs, "gather.c"@);
    &&& outputs == 1
    &&& a.len() == expected
    &&& forall|k: int| 0 <= k < expected ==> #[trigger] a[k].size == 10001 + k
}

/// Whether a gather session produced one file with the expected allocations;
/// `outputs` is the number of files that the session left.
pub fn test_gather_generic(expected_allocations: usize, outputs: usize, analysis: &Analysis) -> (r:
    bool)
    requires
        1 <= expected_allocations <= 3,
    ensures
        r == gather_output_holds(expected_allocations as nat, outputs as nat, analysis.allocs()),
{
    if outputs != 1 {
        return false;
    }
    let a = analysis.allocations_from_source("gather.c");
    let all = &analysis.response.allocations;
    let ghost want = source_allocs(all@, "gather.c"@);
    proof {
        lemma_found_in_range(a@, all@, "gather.c"@);
    }
    if a.len() != expected_allocations {
        return false;
    }
    let mut k: usize = 0;
    while k < a.len()
        invariant
            a@.len() == expected_allocations,
            all@ == analysis.allocs(),
            outputs == 1,
            expected_allocations <= 3,
            k <= a@.len(),
            positions(a@) == source_positions(all@, "gather.c"@),
            want == source_allocs(all@, "gather.c"@),
            forall|i: int| 0 <= i < a@.len() ==> 0 <= #[trigger] a@[i] < all@.len(),
            forall|j: int| 0 <= j < k ==> #[trigger] want[j].size == 10001 + j,
        decreases a@.len() - k,
    {
        assert(want[k as int] == all@[a@[k as int] as int]);
        if all[a[k]].size != 10001 + k as u64 {
            assert(want[k as int].size != 10001 + k);
            return false;
        }
        k = k + 1;
    }
    true
}

} // verus!
