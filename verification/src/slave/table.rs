//! The slave's own copy of its mapping: a vector of fixed capacity, stored inline.
use super::sorted;
use crate::registers::{Mapping, TABLE_MAX};
use vstd::prelude::*;

verus! {

/// `heapless::Vec`, a vector of at most `N` items that allocates nothing.
#[verifier::external_type_specification]
#[verifier::external_body]
#[verifier::reject_recursive_types(T)]
pub struct ExHeaplessVec<T, const N: usize>(heapless::Vec<T, N>);

/// The ranges that a table holds, in order.
pub uninterp spec fn table_items(table: heapless::Vec<Mapping, 128>) -> Seq<Mapping>;

/// `heapless::Vec::new`: a table that holds nothing.
#[verifier::external_body]
pub(crate) fn table_new() -> (table: heapless::Vec<Mapping, 128>)
    ensures
        table_items(table) == Seq::<Mapping>::empty(),
{
    heapless::Vec::new()
}

/// `heapless::Vec::push`: appends `item` where the table holds fewer items than its
/// capacity, and says whether it did; a full table stays as it is.
#[verifier::external_body]
pub(crate) fn table_push(table: &mut heapless::Vec<Mapping, 128>, item: Mapping) -> (pushed: bool)
    ensures
        pushed == (table_items(*old(table)).len() < TABLE_MAX),
        table_items(*final(table)) == if pushed {
            table_items(*old(table)).push(item)
        } else {
            table_items(*old(table))
        },
{
    table.push(item).is_ok()
}

/// `heapless::Vec::as_slice`: the items of the table, in order.
#[verifier::external_body]
pub(crate) fn table_slice(table: &heapless::Vec<Mapping, 128>) -> (items: &[Mapping])
    ensures
        items@ == table_items(*table),
{
    table.as_slice()
}

/// `sort_unstable_by_key` of the slice that the table holds, by the start in the virtual
/// memory: the same items, in ascending order of that start. In which order items of
/// one start come out is not said.
#[verifier::external_body]
pub(crate) fn table_sort(table: &mut heapless::Vec<Mapping, 128>)
    ensures
        table_items(*final(table)).to_multiset() == table_items(*old(table)).to_multiset(),
        sorted(table_items(*final(table))),
{
    table.sort_unstable_by_key(|item| item.virtual_start);
}

} // verus!
