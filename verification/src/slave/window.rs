//! What bisection finds in a mapping, and what it leaves out.
//!
//! A slave looks only at the ranges between the two bounds that bisection gives. Its
//! mapping is sorted by the starts of the ranges, so that the upper bound is always the
//! first range that starts behind the addresses asked for. The lower bound is the first
//! range that ends behind the first address asked for where the ends of the ranges
//! ascend too, as they do when no range reaches behind a later one. The ranges left out
//! then hold none of the addresses asked for.
use super::bisect::lemma_bisect_first;
use super::control::{
    ends_after, gather, lower_bound, request_end, request_start, scatter, spec_map_frame_slave,
    spec_virtual_data, spec_virtual_memory, starts_from, upper_bound,
};
use super::sorted;
use crate::command::Command;
use crate::registers::Mapping;
use vstd::prelude::*;

verus! {

/// The ranges stand in ascending order of their end in the virtual memory.
pub open spec fn ends_sorted(entries: Seq<Mapping>) -> bool {
    forall|i: int, j: int|
        0 <= i <= j < entries.len() ==> entries[i].virtual_start + entries[i].size
            <= entries[j].virtual_start + entries[j].size
}

/// In a sorted mapping the upper bound is the first range that starts at the end of the
/// addresses asked for or behind it.
pub proof fn lemma_upper_bound(mapping: Seq<Mapping>, header: Command)
    requires
        sorted(mapping),
    ensures
        0 <= upper_bound(mapping, header) <= mapping.len(),
        forall|i: int|
            0 <= i < upper_bound(mapping, header) ==> (#[trigger] mapping[i]).virtual_start
                < request_end(header),
        forall|i: int|
            upper_bound(mapping, header) <= i < mapping.len() ==> (
            #[trigger] mapping[i]).virtual_start >= request_end(header),
{
    let flags = starts_from(mapping, request_end(header));
    lemma_bisect_first(flags);
    assert forall|i: int| 0 <= i < upper_bound(mapping, header) implies (
    #[trigger] mapping[i]).virtual_start < request_end(header) by {
        assert(!flags[i]);
    }
    assert forall|i: int| upper_bound(mapping, header) <= i < mapping.len() implies (
    #[trigger] mapping[i]).virtual_start >= request_end(header) by {
        assert(flags[i]);
    }
}

/// In a mapping whose ranges end in ascending order the lower bound is the first range
/// that ends behind the first address asked for.
pub proof fn lemma_lower_bound(mapping: Seq<Mapping>, header: Command)
    requires
        ends_sorted(mapping),
    ensures
        0 <= lower_bound(mapping, header) <= mapping.len(),
        forall|i: int|
            0 <= i < lower_bound(mapping, header) ==> (#[trigger] mapping[i]).virtual_start
                + mapping[i].size <= request_start(header),
        forall|i: int|
            lower_bound(mapping, header) <= i < mapping.len() ==> (
            #[trigger] mapping[i]).virtual_start + mapping[i].size > request_start(header),
{
    let flags = ends_after(mapping, request_start(header));
    lemma_bisect_first(flags);
    assert forall|i: int| 0 <= i < lower_bound(mapping, header) implies (
    #[trigger] mapping[i]).virtual_start + mapping[i].size <= request_start(header) by {
        assert(!flags[i]);
    }
    assert forall|i: int| lower_bound(mapping, header) <= i < mapping.len() implies (
    #[trigger] mapping[i]).virtual_start + mapping[i].size > request_start(header) by {
        assert(flags[i]);
    }
}

/// Ranges that hold none of the addresses asked for put nothing in the data of a frame,
/// and take nothing from them.
pub proof fn lemma_nothing_met(
    data: Seq<u8>,
    memory: Seq<u8>,
    entries: Seq<Mapping>,
    header: Command,
)
    requires
        forall|i: int|
            0 <= i < entries.len() ==> spec_map_frame_slave(#[trigger] entries[i], header)
                is None,
    ensures
        gather(data, memory, entries, header) == data,
        scatter(memory, data, entries, header) == memory,
    decreases entries.len(),
{
    if entries.len() > 0 {
        lemma_nothing_met(data, memory, entries.drop_last(), header);
        assert(spec_map_frame_slave(entries[entries.len() - 1], header) is None);
    }
}

/// Ranges that hold none of the addresses asked for may stand before the others: the
/// data of the frame and the memory of the slave come out the same.
pub proof fn lemma_nothing_met_before(
    data: Seq<u8>,
    memory: Seq<u8>,
    before: Seq<Mapping>,
    entries: Seq<Mapping>,
    header: Command,
)
    requires
        forall|i: int|
            0 <= i < before.len() ==> spec_map_frame_slave(#[trigger] before[i], header) is None,
    ensures
        gather(data, memory, before + entries, header) == gather(data, memory, entries, header),
        scatter(memory, data, before + entries, header) == scatter(
            memory,
            data,
            entries,
            header,
        ),
    decreases entries.len(),
{
    if entries.len() == 0 {
        assert(before + entries =~= before);
        lemma_nothing_met(data, memory, before, header);
    } else {
        lemma_nothing_met_before(data, memory, before, entries.drop_last(), header);
        assert((before + entries).drop_last() =~= before + entries.drop_last());
        assert((before + entries).last() == entries.last());
    }
}

/// Ranges that hold none of the addresses asked for may stand behind the others: the
/// data of the frame and the memory of the slave come out the same.
pub proof fn lemma_nothing_met_behind(
    data: Seq<u8>,
    memory: Seq<u8>,
    entries: Seq<Mapping>,
    behind: Seq<Mapping>,
    header: Command,
)
    requires
        forall|i: int|
            0 <= i < behind.len() ==> spec_map_frame_slave(#[trigger] behind[i], header) is None,
    ensures
        gather(data, memory, entries + behind, header) == gather(data, memory, entries, header),
        scatter(memory, data, entries + behind, header) == scatter(
            memory,
            data,
            entries,
            header,
        ),
    decreases behind.len(),
{
    if behind.len() == 0 {
        assert(entries + behind =~= entries);
    } else {
        lemma_nothing_met_behind(data, memory, entries, behind.drop_last(), header);
        assert((entries + behind).drop_last() =~= entries + behind.drop_last());
        assert((entries + behind).last() == behind.last());
        assert(spec_map_frame_slave(behind[behind.len() - 1], header) is None);
    }
}

/// Bisection leaves nothing out: in a sorted mapping whose ranges end in ascending
/// order too, a command to the virtual memory exchanges data with every range of the
/// mapping that holds any of the addresses asked for.
pub proof fn lemma_window_holds_all(
    mapping: Seq<Mapping>,
    memory: Seq<u8>,
    header: Command,
    data: Seq<u8>,
)
    requires
        sorted(mapping),
        ends_sorted(mapping),
    ensures
        forall|i: int|
            0 <= i < mapping.len() && !(lower_bound(mapping, header) <= i < upper_bound(
                mapping,
                header,
            )) ==> spec_map_frame_slave(#[trigger] mapping[i], header) is None,
        spec_virtual_data(mapping, memory, header, data) == if header.access.read {
            gather(data, memory, mapping, header)
        } else {
            data
        },
        spec_virtual_memory(mapping, memory, header, data) == if header.access.write {
            scatter(memory, data, mapping, header)
        } else {
            memory
        },
{
    let lower = lower_bound(mapping, header);
    let upper = upper_bound(mapping, header);
    lemma_lower_bound(mapping, header);
    lemma_upper_bound(mapping, header);
    assert forall|i: int|
        0 <= i < mapping.len() && !(lower <= i < upper) implies spec_map_frame_slave(
        #[trigger] mapping[i],
        header,
    ) is None by {
        if i < lower {
            assert(mapping[i].virtual_start + mapping[i].size <= request_start(header));
        } else {
            assert(mapping[i].virtual_start >= request_end(header));
        }
    }
    if lower < upper {
        let before = mapping.subrange(0, lower);
        let held = mapping.subrange(lower, upper);
        let behind = mapping.subrange(upper, mapping.len() as int);
        assert(mapping =~= before + held + behind);
        assert forall|i: int| 0 <= i < before.len() implies spec_map_frame_slave(
            #[trigger] before[i],
            header,
        ) is None by {
            assert(before[i] == mapping[i]);
        }
        assert forall|i: int| 0 <= i < behind.len() implies spec_map_frame_slave(
            #[trigger] behind[i],
            header,
        ) is None by {
            assert(behind[i] == mapping[upper + i]);
        }
        lemma_nothing_met_behind(data, memory, before + held, behind, header);
        lemma_nothing_met_before(data, memory, before, held, header);
    } else {
        assert forall|i: int| 0 <= i < mapping.len() implies spec_map_frame_slave(
            #[trigger] mapping[i],
            header,
        ) is None by {
            if i < lower {
                assert(mapping[i].virtual_start + mapping[i].size <= request_start(header));
            } else {
                assert(mapping[i].virtual_start >= request_end(header));
            }
        }
        lemma_nothing_met(data, memory, mapping, header);
    }
}

} // verus!
