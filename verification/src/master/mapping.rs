//! Layout of application records over the virtual memory.
//!
//! A [`Mapping`] hands out the virtual memory from address 0 on, one packed record after
//! the other. For each record a [`BufferMapping`] says which registers of which slaves
//! make it up, in order; each register becomes one range in the mapping of its slave.
use super::accessing::Host;
use super::{usize_to_message, Error};
use crate::command::MAX_COMMAND;
use crate::pack::Packed;
use crate::registers::{MappingTable, Register, SlaveRegister, VirtualRegister, TABLE_MAX};
use core::marker::PhantomData;
use std::collections::HashMap;
use vstd::prelude::*;

verus! {

/// The number under which the ranges of a slave are kept: its rank, or its fixed address
/// above all ranks.
pub open spec fn spec_host_key(host: Host) -> u32 {
    match host {
        Host::Topological(slave) => slave as u32,
        Host::Fixed(slave) => (0x1_0000 + slave) as u32,
    }
}

/// The ranges of `host` in `map`: none where the slave has no range yet.
pub open spec fn spec_ranges(
    map: Map<Host, Seq<crate::registers::Mapping>>,
    host: Host,
) -> Seq<crate::registers::Mapping> {
    if map.contains_key(host) {
        map[host]
    } else {
        Seq::empty()
    }
}

/// `map` with `entry` behind the ranges of `host`.
pub open spec fn spec_registered(
    map: Map<Host, Seq<crate::registers::Mapping>>,
    host: Host,
    entry: crate::registers::Mapping,
) -> Map<Host, Seq<crate::registers::Mapping>> {
    map.insert(host, spec_ranges(map, host).push(entry))
}

/// The number under which the ranges of a slave are kept.
fn host_key(host: Host) -> (key: u32)
    ensures
        key == spec_host_key(host),
{
    match host {
        Host::Topological(slave) => slave as u32,
        Host::Fixed(slave) => 0x1_0000 + slave as u32,
    }
}

/// The mappings of all slaves to the virtual memory that they share.
#[derive(Debug)]
pub struct Mapping {
    map: HashMap<u32, Vec<crate::registers::Mapping>>,
    end: u32,
}

impl Mapping {
    /// For each slave that has ranges, its ranges in the order in which they were
    /// registered.
    pub closed spec fn spec_map(&self) -> Map<Host, Seq<crate::registers::Mapping>> {
        Map::new(
            |host: Host| self.map@.contains_key(spec_host_key(host)),
            |host: Host| self.map@[spec_host_key(host)]@,
        )
    }

    /// First virtual address that no record holds.
    pub closed spec fn spec_end(&self) -> u32 {
        self.end
    }

    /// A layout that holds no record: the virtual memory is free from address 0 on.
    pub fn new() -> (made: Mapping)
        ensures
            made.spec_end() == 0,
            made.spec_map() == Map::<Host, Seq<crate::registers::Mapping>>::empty(),
    {
        let made = Mapping { map: HashMap::new(), end: 0 };
        assert(made.spec_map() =~= Map::<Host, Seq<crate::registers::Mapping>>::empty());
        made
    }

    /// First virtual address that no record holds.
    pub fn end(&self) -> (end: u32)
        ensures
            end == self.spec_end(),
    {
        self.end
    }

    /// Reserves the virtual memory for one record of type `T`, just behind the records
    /// reserved before, and starts to say what makes it up.
    ///
    /// Fails for a record that is too long for one message, and where the virtual
    /// memory is used up; the layout is then as it was.
    pub fn buffer<T: Packed>(&mut self) -> (made: Result<BufferMapping<'_, T>, Error>)
        ensures
            made.is_ok() == (T::spec_size() <= MAX_COMMAND && old(self).spec_end() + T::spec_size()
                <= u32::MAX),
            made matches Ok(builder) ==> {
                &&& builder.wf()
                &&& builder.start == old(self).spec_end()
                &&& builder.end == old(self).spec_end()
                &&& builder.mapping.spec_end() == old(self).spec_end() + T::spec_size()
                &&& builder.mapping.spec_map() == old(self).spec_map()
                &&& *final(self) == *final(builder.mapping)
            },
            made matches Err(e) ==> {
                &&& *final(self) == *old(self)
                &&& if T::spec_size() > MAX_COMMAND {
                    e.is_master("data is longer than maximum allowed message")
                } else {
                    e.is_master("no more virtual memory available")
                }
            },
    {
        let start = self.end;
        let size = match usize_to_message(T::size()) {
            Ok(size) => size,
            Err(e) => {
                return Err(e);
            },
        };
        match self.end.checked_add(size as u32) {
            Some(end) => {
                self.end = end;
            },
            None => {
                return Err(Error::Master("no more virtual memory available"));
            },
        }
        Ok(BufferMapping { start, end: start, mapping: self, ty: PhantomData })
    }

    /// The ranges registered for a slave, in order; none for a slave that has none.
    pub fn map(&self, host: Host) -> (ranges: Option<&Vec<crate::registers::Mapping>>)
        ensures
            ranges.is_some() == self.spec_map().contains_key(host),
            ranges matches Some(list) ==> list@ == self.spec_map()[host],
    {
        broadcast use vstd::std_specs::hash::group_hash_axioms;

        self.map.get(&host_key(host))
    }

    /// The mapping table to write to a slave: its ranges in order, the count of them,
    /// and ranges of no byte up to the size of the table. A slave that has no range gets
    /// a table of none.
    ///
    /// Fails for a slave that has more ranges than a table holds.
    pub fn configure(&self, host: Host) -> (made: Result<MappingTable, Error>)
        ensures
            made.is_ok() == (spec_ranges(self.spec_map(), host).len() <= TABLE_MAX),
            made matches Ok(table) ==> {
                &&& table.wf()
                &&& table.spec_entries() == spec_ranges(self.spec_map(), host)
                &&& forall|i: int|
                    table.size <= i < TABLE_MAX ==> table.map@[i] == (crate::registers::Mapping {
                        virtual_start: 0,
                        slave_start: 0,
                        size: 0,
                    })
            },
            made matches Err(e) ==> e.is_master("too many items in mapping table"),
    {
        let none: Vec<crate::registers::Mapping> = Vec::new();
        let made = match self.map(host) {
            Some(list) => MappingTable::from_iter(list.as_slice()),
            None => MappingTable::from_iter(none.as_slice()),
        };
        match made {
            Ok(table) => Ok(table),
            Err(_) => Err(Error::Master("too many items in mapping table")),
        }
    }
}

/// What makes up one record in the virtual memory: the registers of slaves that follow
/// one another in it.
#[derive(Debug)]
pub struct BufferMapping<'m, T> {
    /// First virtual address of the record.
    pub start: u32,
    /// First virtual address of the record that no register holds yet.
    pub end: u32,
    /// The layout that the record belongs to.
    pub mapping: &'m mut Mapping,
    /// The type of the record.
    pub ty: PhantomData<T>,
}

impl<'m, T: Packed> BufferMapping<'m, T> {
    /// The record lies in the virtual memory, and what was said of it so far lies in the
    /// record.
    pub open spec fn wf(&self) -> bool {
        &&& self.start <= self.end
        &&& self.start + T::spec_size() <= u32::MAX
    }

    /// Leaves `size` bytes of the record to no register.
    pub fn padding(self, size: u16) -> (next: Self)
        requires
            self.wf(),
            self.end + size <= u32::MAX,
        ensures
            next.wf(),
            next.start == self.start,
            next.end == self.end + size,
            *next.mapping == *old(self.mapping),
            *final(next.mapping) == *final(self.mapping),
    {
        let mut next = self;
        next.end = next.end + size as u32;
        next
    }

    /// Says that the next bytes of the record are a register of a slave: the slave gets
    /// one more range, from the register to the place of those bytes in the virtual
    /// memory.
    pub fn register<R: Packed>(self, slave: Host, register: SlaveRegister<R>) -> (next: Self)
        requires
            self.wf(),
            self.end + R::spec_size() % 0x1_0000 <= self.start + T::spec_size(),
        ensures
            next.wf(),
            next.start == self.start,
            next.end == self.end + R::spec_size() % 0x1_0000,
            next.mapping.spec_end() == old(self.mapping).spec_end(),
            next.mapping.spec_map() == spec_registered(
                old(self.mapping).spec_map(),
                slave,
                crate::registers::Mapping {
                    virtual_start: self.end,
                    slave_start: register.spec_address(),
                    size: (R::spec_size() % 0x1_0000) as u16,
                },
            ),
            *final(next.mapping) == *final(self.mapping),
    {
        broadcast use vstd::std_specs::hash::group_hash_axioms;

        let mut next = self;
        let start = next.end;
        let size = register.size();
        next.end = next.end + size as u32;
        let entry = crate::registers::Mapping {
            slave_start: register.address(),
            virtual_start: start,
            size,
        };
        let key = host_key(slave);
        let ghost before = next.mapping.spec_map();
        let mut table = match next.mapping.map.remove(&key) {
            Some(table) => table,
            None => Vec::new(),
        };
        table.push(entry);
        next.mapping.map.insert(key, table);
        proof {
            assert(next.mapping.spec_map() =~= spec_registered(before, slave, entry));
        }
        next
    }

    /// Ends the record: every byte of it was given to a register or left out. Returns
    /// the register of the record in the virtual memory.
    pub fn build(self) -> (built: VirtualRegister<T>)
        requires
            self.end == self.start + T::spec_size(),
        ensures
            built.spec_address() == self.start,
            *final(self.mapping) == *old(self.mapping),
    {
        Register::new(self.start)
    }
}

} // verus!
