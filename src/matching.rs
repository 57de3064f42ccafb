use vstd::prelude::*;

verus! {

/// A record of the event log, as far as pairing allocations with their
/// deallocations needs it.
#[derive(Copy, Clone, PartialEq, Eq, Structural, Debug)]
pub enum LogEvent {
    Allocation { address: u64, size: u64, thread: u32 },
    Deallocation { address: u64, thread: u32 },
}

/// The address that a record speaks of.
pub open spec fn addr(e: LogEvent) -> u64 {
    match e {
        LogEvent::Allocation { address, .. } => address,
        LogEvent::Deallocation { address, .. } => address,
    }
}

/// No record strictly between positions `lo` and `hi` speaks of address `a`.
pub open spec fn quiet_between(events: Seq<LogEvent>, a: u64, lo: int, hi: int) -> bool {
    forall|i: int| lo < i < hi ==> addr(#[trigger] events[i]) != a
}

/// A log as an allocator produces it: each deallocation frees an address
/// whose last record is an allocation, and an address is handed out again
/// only after its last allocation was freed.
pub open spec fn well_formed(events: Seq<LogEvent>) -> bool {
    &&& forall|j: int|
        0 <= j < events.len() && (#[trigger] events[j]) is Deallocation ==> exists|l: int|
            0 <= l < j && events[l] is Allocation && addr(events[l]) == addr(events[j])
                && quiet_between(events, addr(events[j]), l, j)
    &&& forall|j: int, l: int|
        0 <= l < j < events.len() && (#[trigger] events[j]) is Allocation && addr(
            #[trigger] events[l],
        ) == addr(events[j]) && quiet_between(events, addr(events[j]), l, j)
            ==> events[l] is Deallocation
}

/// The latest allocation of address `a` before position `hi` that no
/// deallocation has been paired with yet, or -1.
pub open spec fn latest_open(events: Seq<LogEvent>, m: Seq<Option<int>>, a: u64, hi: int) -> int
    decreases hi,
{
    if hi <= 0 {
        -1
    } else if events[hi - 1] is Allocation && addr(events[hi - 1]) == a && m[hi - 1] is None {
        hi - 1
    } else {
        latest_open(events, m, a, hi - 1)
    }
}

/// For each record, the position of the deallocation paired with it: each
/// deallocation is paired with the latest still unpaired allocation of its
/// address (stack discipline); deallocations themselves pair with nothing.
pub open spec fn matching(events: Seq<LogEvent>) -> Seq<Option<int>>
    decreases events.len(),
{
    if events.len() == 0 {
        Seq::empty()
    } else {
        let n = events.len() - 1;
        let before = events.drop_last();
        let m = matching(before);
        let last = events.last();
        if last is Deallocation && latest_open(before, m, addr(last), n) >= 0 {
            m.update(latest_open(before, m, addr(last), n), Some(n)).push(None)
        } else {
            m.push(None)
        }
    }
}

/// Positions held by an executable list, read as mathematical integers.
pub open spec fn as_ints(v: Seq<Option<usize>>) -> Seq<Option<int>> {
    v.map_values(
        |o: Option<usize>|
            match o {
                Some(x) => Some(x as int),
                None => None,
            },
    )
}

/// `matching` only looks at the records up to each position.
proof fn lemma_matching_len(events: Seq<LogEvent>)
    ensures
        matching(events).len() == events.len(),
    decreases events.len(),
{
    if events.len() > 0 {
        let before = events.drop_last();
        lemma_matching_len(before);
        lemma_latest_open(before, matching(before), addr(events.last()), before.len() as int);
    }
}

/// `latest_open` finds an unpaired allocation of its address, or none.
proof fn lemma_latest_open(events: Seq<LogEvent>, m: Seq<Option<int>>, a: u64, hi: int)
    requires
        0 <= hi <= events.len(),
        hi <= m.len(),
    ensures
        -1 <= latest_open(events, m, a, hi) < hi,
        latest_open(events, m, a, hi) >= 0 ==> {
            let k = latest_open(events, m, a, hi);
            events[k] is Allocation && addr(events[k]) == a && m[k] is None
        },
        forall|k: int|
            latest_open(events, m, a, hi) < k < hi && events[k] is Allocation && addr(events[k])
                == a ==> #[trigger] m[k] is Some,
    decreases hi,
{
    if hi > 0 {
        lemma_latest_open(events, m, a, hi - 1);
    }
}

/// What the pairing says of the record at position `k`: an allocation that
/// is paired lies before its deallocation, which frees its address and is
/// the next record of that address; an allocation that is not paired has no
/// later record of its address; a deallocation is paired with nothing.
pub open spec fn paired_well(events: Seq<LogEvent>, m: Seq<Option<int>>, k: int) -> bool {
    let a = addr(events[k]);
    &&& events[k] is Deallocation ==> m[k] is None
    &&& events[k] is Allocation && m[k] is None ==> quiet_between(events, a, k, events.len() as int)
    &&& events[k] is Allocation && m[k] is Some ==> {
        let j = m[k]->0;
        &&& k < j < events.len()
        &&& events[j] is Deallocation
        &&& addr(events[j]) == a
        &&& quiet_between(events, a, k, j)
    }
}

/// Dropping the last record of a well-formed log leaves it well-formed.
proof fn lemma_well_formed_prefix(events: Seq<LogEvent>)
    requires
        well_formed(events),
        events.len() > 0,
    ensures
        well_formed(events.drop_last()),
{
    let before = events.drop_last();
    assert forall|j: int|
        0 <= j < before.len() && (#[trigger] before[j]) is Deallocation implies exists|l: int|
        0 <= l < j && before[l] is Allocation && addr(before[l]) == addr(before[j])
            && quiet_between(before, addr(before[j]), l, j) by {
        assert(events[j] == before[j]);
        let l = choose|l: int|
            0 <= l < j && events[l] is Allocation && addr(events[l]) == addr(events[j])
                && quiet_between(events, addr(events[j]), l, j);
        assert(before[l] == events[l]);
        assert forall|i: int| l < i < j implies addr(#[trigger] before[i]) != addr(before[j]) by {
            assert(before[i] == events[i]);
        }
        assert(0 <= l < j && before[l] is Allocation && addr(before[l]) == addr(before[j])
            && quiet_between(before, addr(before[j]), l, j));
    }
    assert forall|j: int, l: int|
        0 <= l < j < before.len() && (#[trigger] before[j]) is Allocation && addr(
            #[trigger] before[l],
        ) == addr(before[j]) && quiet_between(before, addr(before[j]), l, j)
        implies before[l] is Deallocation by {
        assert(events[j] == before[j]);
        assert(events[l] == before[l]);
        assert forall|i: int| l < i < j implies addr(#[trigger] events[i]) != addr(events[j]) by {
            assert(before[i] == events[i]);
        }
    }
}

/// On a well-formed log, the pairing holds at every position.
proof fn lemma_matching_paired(events: Seq<LogEvent>)
    requires
        well_formed(events),
    ensures
        matching(events).len() == events.len(),
        forall|k: int| 0 <= k < events.len() ==> paired_well(events, matching(events), k),
    decreases events.len(),
{
    lemma_matching_len(events);
    if events.len() > 0 {
        let n = events.len() - 1;
        let before = events.drop_last();
        lemma_well_formed_prefix(events);
        lemma_matching_paired(before);
        let m = matching(before);
        let last = events.last();
        let b = addr(last);
        let mm = matching(events);
        lemma_latest_open(before, m, b, n);
        let lo = latest_open(before, m, b, n);
        assert forall|k: int| 0 <= k < n implies events[k] == before[k] by {}
        assert forall|k: int| 0 <= k <= n implies paired_well(events, mm, k) by {
            if k < n {
                assert(events[k] == before[k]);
                let a = addr(events[k]);
                assert(paired_well(before, m, k));
                if events[k] is Allocation && m[k] is Some {
                    let j = m[k]->0;
                    assert(mm[k] == m[k]);
                    assert(events[j] == before[j]);
                    assert forall|i: int| k < i < j implies addr(#[trigger] events[i]) != a by {
                        assert(events[i] == before[i]);
                    }
                } else if events[k] is Allocation {
                    assert(quiet_between(before, a, k, n));
                    assert forall|i: int| k < i < n implies addr(#[trigger] events[i]) != a by {
                        assert(events[i] == before[i]);
                    }
                    if k == lo && last is Deallocation {
                        assert(mm[k] == Some(n as int));
                    } else {
                        assert(mm[k] is None);
                        if a == b {
                            if last is Allocation {
                                assert(quiet_between(events, b, k, n));
                            } else if lo >= 0 {
                                if k < lo {
                                    assert(addr(events[lo]) == b);
                                } else {
                                    assert(m[k] is Some);
                                }
                            } else {
                                let l = choose|l: int|
                                    0 <= l < n && events[l] is Allocation && addr(events[l]) == b
                                        && quiet_between(events, b, l, n);
                                assert(events[l] == before[l]);
                                assert(paired_well(before, m, l));
                                if m[l] is Some {
                                    let j = m[l]->0;
                                    assert(events[j] == before[j]);
                                    assert(addr(events[j]) == b);
                                }
                                assert(m[l] is Some);
                            }
                        }
                        assert(quiet_between(events, a, k, n + 1));
                    }
                } else {
                    assert(mm[k] == m[k]);
                }
            }
        }
    }
}

/// An allocation is reported without a deallocation exactly when its address
/// has no later record, that is, when it was never freed; where it is
/// reported with one, that deallocation frees its address and is the next
/// record of that address.
pub proof fn lemma_unfreed_iff_never_freed(events: Seq<LogEvent>, k: int)
    requires
        well_formed(events),
        0 <= k < events.len(),
        events[k] is Allocation,
    ensures
        matching(events)[k] is None <==> quiet_between(
            events,
            addr(events[k]),
            k,
            events.len() as int,
        ),
        matching(events)[k] is Some ==> {
            let j = matching(events)[k]->0;
            &&& k < j < events.len()
            &&& events[j] is Deallocation
            &&& addr(events[j]) == addr(events[k])
            &&& quiet_between(events, addr(events[k]), k, j)
        },
{
    lemma_matching_paired(events);
    assert(paired_well(events, matching(events), k));
    if matching(events)[k] is Some {
        let j = matching(events)[k]->0;
        assert(addr(events[j]) == addr(events[k]));
    }
}

/// Pairs each allocation of a log with the deallocation that freed it: the
/// result holds, at each allocation's position, the position of its
/// deallocation, or `None` where it was never freed.
pub fn match_deallocations(events: &Vec<LogEvent>) -> (r: Vec<Option<usize>>)
    ensures
        as_ints(r@) == matching(events@),
{
    let mut r: Vec<Option<usize>> = Vec::new();
    let mut i: usize = 0;
    while i < events.len()
        invariant
            i <= events@.len(),
            r@.len() == i,
            as_ints(r@) == matching(events@.subrange(0, i as int)),
        decreases events@.len() - i,
    {
        let ghost before = events@.subrange(0, i as int);
        let ghost m = as_ints(r@);
        assert(events@.subrange(0, i + 1).drop_last() == before);
        match events[i] {
            LogEvent::Allocation { .. } => {
                r.push(None);
                assert(as_ints(r@) =~= m.push(None));
            },
            LogEvent::Deallocation { address, .. } => {
                let mut k: usize = i;
                let mut found = false;
                while !found && k > 0
                    invariant
                        k <= i,
                        i < events@.len(),
                        before == events@.subrange(0, i as int),
                        m == as_ints(r@),
                        r@.len() == i,
                        found ==> k < i && latest_open(before, m, address, i as int) == k,
                        !found ==> latest_open(before, m, address, i as int) == latest_open(
                            before,
                            m,
                            address,
                            k as int,
                        ),
                    decreases k + (if found { 0int } else { 1int }),
                {
                    let candidate = k - 1;
                    let open = match events[candidate] {
                        LogEvent::Allocation { address: at, .. } => at == address
                            && r[candidate].is_none(),
                        LogEvent::Deallocation { .. } => false,
                    };
                    assert(before[candidate as int] == events@[candidate as int]);
                    assert(m[candidate as int] is None <==> r@[candidate as int] is None);
                    k = candidate;
                    if open {
                        found = true;
                    }
                }
                if found {
                    r.set(k, Some(i));
                    r.push(None);
                    assert(as_ints(r@) =~= m.update(k as int, Some(i as int)).push(None));
                } else {
                    r.push(None);
                    assert(as_ints(r@) =~= m.push(None));
                }
            },
        }
        i = i + 1;
    }
    assert(events@.subrange(0, events@.len() as int) == events@);
    r
}

} // verus!
