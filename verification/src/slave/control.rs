//! The command processor of a slave.
use super::bisect::{bisect_slice, lemma_bisect_lands, spec_bisect};
use super::table::{table_items, table_new, table_push, table_slice, table_sort};
use super::{sorted, spec_add_loss, spec_set_error, spec_write, SlaveBuffer};
use crate::command::{
    checksum, frame_bytes, spec_checksum, spec_frame, Access, Address, Command, MAX_COMMAND,
};
use crate::pack::{lemma_array_of_items, Packed};
use crate::registers::{
    lemma_pack_entries, spec_pack_entries, spec_unpack_entries, CommandError, Mapping,
    MappingTable, ADDRESS_AT, MAPPING_AT, TABLE_BYTES, TABLE_MAX, USER,
};
use core::ops::Range;
use vstd::prelude::*;
use vstd::slice::{slice_subrange, slice_to_vec};

verus! {

/// A header and the data that follow it.
pub struct Frame {
    /// The header.
    pub header: Command,
    /// The data: `header.size` bytes.
    pub data: Vec<u8>,
}

impl Frame {
    /// The bytes to write to the bus for the frame: the header, the checksum of the
    /// header, the data.
    pub fn to_bytes(&self) -> (bytes: Vec<u8>)
        ensures
            bytes@ == spec_frame(self.header, self.data@),
    {
        frame_bytes(&self.header, self.data.as_slice())
    }
}

/// What a slave is, as far as its answers go: its fixed address, its mapping and its
/// memory.
pub struct SlaveModel {
    /// Fixed address of the slave.
    pub address: u16,
    /// The ranges that the slave shares with the virtual memory.
    pub mapping: Seq<Mapping>,
    /// The memory of the slave.
    pub memory: Seq<u8>,
}

/// A range that a slave of `memory` bytes can map: it holds a byte, lies in the memory of
/// the slave and in the virtual memory.
pub open spec fn valid_entry(entry: Mapping, memory: int) -> bool {
    &&& entry.size > 0
    &&& entry.slave_start + entry.size <= memory
    &&& entry.virtual_start + entry.size <= 0x1_0000_0000
}

/// A mapping that a slave of `memory` bytes can hold: at most `TABLE_MAX` valid ranges,
/// in ascending order of their start in the virtual memory.
pub open spec fn valid_mapping(entries: Seq<Mapping>, memory: int) -> bool {
    &&& entries.len() <= TABLE_MAX
    &&& sorted(entries)
    &&& forall|i: int| 0 <= i < entries.len() ==> valid_entry(#[trigger] entries[i], memory)
}

/// First virtual address that a command asks for.
pub open spec fn request_start(header: Command) -> int {
    header.address.spec_to_u32() as int
}

/// First virtual address behind those that a command asks for.
pub open spec fn request_end(header: Command) -> int {
    request_start(header) + header.size
}

/// Where the range `mapped` and the addresses that `frame` asks for meet: the part of the
/// frame's data and the part of the slave's memory that stand for the same virtual
/// addresses. None where they do not meet.
pub open spec fn spec_map_frame_slave(mapped: Mapping, frame: Command) -> Option<
    (Range<usize>, Range<usize>),
> {
    let address = request_start(frame);
    let start = if mapped.virtual_start >= address {
        mapped.virtual_start as int
    } else {
        address
    };
    let end = if mapped.virtual_start + mapped.size <= request_end(frame) {
        mapped.virtual_start + mapped.size
    } else {
        request_end(frame)
    };
    if end <= start {
        None
    } else {
        Some(
            (
                Range { start: (start - address) as usize, end: (end - address) as usize },
                Range {
                    start: (start - mapped.virtual_start + mapped.slave_start) as usize,
                    end: (end - mapped.virtual_start + mapped.slave_start) as usize,
                },
            ),
        )
    }
}

/// The matching ranges in the data of a frame and in the memory of a slave, for one
/// range of the mapping: first the range in the frame, then the range in the slave.
pub fn map_frame_slave(mapped: Mapping, frame: Command) -> (ranges: Option<
    (Range<usize>, Range<usize>),
>)
    ensures
        ranges == spec_map_frame_slave(mapped, frame),
        ranges matches Some((in_frame, in_slave)) ==> {
            &&& in_frame.start < in_frame.end <= frame.size
            &&& in_slave.start < in_slave.end <= mapped.slave_start + mapped.size
            &&& in_frame.end - in_frame.start == in_slave.end - in_slave.start
        },
{
    let address: u64 = frame.address.to_u32() as u64;
    let mapped_start: u64 = mapped.virtual_start as u64;
    let mapped_end: u64 = mapped_start + mapped.size as u64;
    let requested_end: u64 = address + frame.size as u64;
    let start: u64 = if mapped_start >= address {
        mapped_start
    } else {
        address
    };
    let end: u64 = if mapped_end <= requested_end {
        mapped_end
    } else {
        requested_end
    };
    if end <= start {
        return None;
    }
    Some(
        (
            Range { start: (start - address) as usize, end: (end - address) as usize },
            Range {
                start: (start - mapped_start + mapped.slave_start as u64) as usize,
                end: (end - mapped_start + mapped.slave_start as u64) as usize,
            },
        ),
    )
}

/// For each range of `mapping`, whether it ends behind the virtual address `at`.
pub open spec fn ends_after(mapping: Seq<Mapping>, at: int) -> Seq<bool> {
    Seq::new(mapping.len(), |i: int| mapping[i].virtual_start + mapping[i].size > at)
}

/// For each range of `mapping`, whether it starts at the virtual address `at` or behind
/// it.
pub open spec fn starts_from(mapping: Seq<Mapping>, at: int) -> Seq<bool> {
    Seq::new(mapping.len(), |i: int| mapping[i].virtual_start >= at)
}

/// Where the ranges that a command may touch begin: where bisection lands for the
/// ranges that end behind the first address asked for.
pub open spec fn lower_bound(mapping: Seq<Mapping>, header: Command) -> int {
    spec_bisect(ends_after(mapping, request_start(header)), 0, mapping.len() as int)
}

/// Where the ranges that a command may touch end: where bisection lands for the ranges
/// that start behind the last address asked for.
pub open spec fn upper_bound(mapping: Seq<Mapping>, header: Command) -> int {
    spec_bisect(starts_from(mapping, request_end(header)), 0, mapping.len() as int)
}

/// The mapping holds ranges that the command may touch.
pub open spec fn concerned(mapping: Seq<Mapping>, header: Command) -> bool {
    lower_bound(mapping, header) < upper_bound(mapping, header)
}

/// The ranges that the command may touch.
pub open spec fn window(mapping: Seq<Mapping>, header: Command) -> Seq<Mapping> {
    mapping.subrange(lower_bound(mapping, header), upper_bound(mapping, header))
}

/// The data of a frame after the slave put in what one range holds of the addresses
/// asked for.
pub open spec fn gather_one(data: Seq<u8>, memory: Seq<u8>, mapped: Mapping, header: Command) -> Seq<
    u8,
> {
    match spec_map_frame_slave(mapped, header) {
        Some((in_frame, in_slave)) => spec_write(
            data,
            in_frame.start as int,
            memory.subrange(in_slave.start as int, in_slave.end as int),
        ),
        None => data,
    }
}

/// The data of a frame after the slave put in what `entries` hold of the addresses asked
/// for, one range after the other.
pub open spec fn gather(data: Seq<u8>, memory: Seq<u8>, entries: Seq<Mapping>, header: Command) -> Seq<
    u8,
>
    decreases entries.len(),
{
    if entries.len() == 0 {
        data
    } else {
        gather_one(gather(data, memory, entries.drop_last(), header), memory, entries.last(), header)
    }
}

/// The memory of a slave after it took from the data of a frame what one range holds of
/// the addresses asked for.
pub open spec fn scatter_one(memory: Seq<u8>, data: Seq<u8>, mapped: Mapping, header: Command) -> Seq<
    u8,
> {
    match spec_map_frame_slave(mapped, header) {
        Some((in_frame, in_slave)) => spec_write(
            memory,
            in_slave.start as int,
            data.subrange(in_frame.start as int, in_frame.end as int),
        ),
        None => memory,
    }
}

/// The memory of a slave after it took from the data of a frame what `entries` hold of
/// the addresses asked for, one range after the other.
pub open spec fn scatter(memory: Seq<u8>, data: Seq<u8>, entries: Seq<Mapping>, header: Command) -> Seq<
    u8,
>
    decreases entries.len(),
{
    if entries.len() == 0 {
        memory
    } else {
        scatter_one(
            scatter(memory, data, entries.drop_last(), header),
            data,
            entries.last(),
            header,
        )
    }
}

/// The data that a slave sends on for a command to the virtual memory: those received,
/// with what the slave's mapping holds of the addresses asked for where the command
/// reads.
pub open spec fn spec_virtual_data(
    mapping: Seq<Mapping>,
    memory: Seq<u8>,
    header: Command,
    data: Seq<u8>,
) -> Seq<u8> {
    if concerned(mapping, header) && header.access.read {
        gather(data, memory, window(mapping, header), header)
    } else {
        data
    }
}

/// The memory of a slave after a command to the virtual memory: where the command
/// writes, the data received stand in the ranges of the mapping.
pub open spec fn spec_virtual_memory(
    mapping: Seq<Mapping>,
    memory: Seq<u8>,
    header: Command,
    data: Seq<u8>,
) -> Seq<u8> {
    if concerned(mapping, header) && header.access.write {
        scatter(memory, data, window(mapping, header), header)
    } else {
        memory
    }
}

/// The mapping table that the memory of a slave holds in its register.
pub open spec fn spec_table(memory: Seq<u8>) -> MappingTable {
    MappingTable::spec_unpack(memory.subrange(MAPPING_AT as int, MAPPING_AT + TABLE_BYTES))
}

/// The ranges of `entries` that hold a byte, in order.
pub open spec fn active_entries(entries: Seq<Mapping>) -> Seq<Mapping>
    decreases entries.len(),
{
    if entries.len() == 0 {
        Seq::empty()
    } else if entries.last().size != 0 {
        active_entries(entries.drop_last()).push(entries.last())
    } else {
        active_entries(entries.drop_last())
    }
}

/// The ranges that a slave takes from the mapping table in its memory: those in use that
/// hold a byte.
pub open spec fn hook_entries(memory: Seq<u8>) -> Seq<Mapping> {
    active_entries(spec_table(memory).spec_entries())
}

/// A slave takes the mapping table in its memory: the count fits the table, and every
/// range that holds a byte is valid.
pub open spec fn accepted(memory: Seq<u8>) -> bool {
    &&& spec_table(memory).size <= TABLE_MAX
    &&& forall|i: int|
        0 <= i < hook_entries(memory).len() ==> valid_entry(
            #[trigger] hook_entries(memory)[i],
            memory.len() as int,
        )
}

/// `entries` are the ranges `from`, in ascending order of their start in the virtual
/// memory.
pub open spec fn arranged(entries: Seq<Mapping>, from: Seq<Mapping>) -> bool {
    sorted(entries) && entries.to_multiset() == from.to_multiset()
}

/// The memory of a slave after a write that started at `register`: a mapping table that
/// the slave does not take is noted as an error.
pub open spec fn hook_memory(memory: Seq<u8>, register: u16) -> Seq<u8> {
    if register == MAPPING_AT && !accepted(memory) {
        spec_set_error(memory, CommandError::InvalidMapping)
    } else {
        memory
    }
}

/// The fixed address of a slave after a write that started at `register`: that in the
/// address register, where the write started there.
pub open spec fn hook_address(address: u16, memory: Seq<u8>, register: u16) -> u16 {
    if register == ADDRESS_AT {
        u16::spec_unpack(memory.subrange(ADDRESS_AT as int, ADDRESS_AT + 2))
    } else {
        address
    }
}

/// A write that started at `register` gives the slave a new mapping.
pub open spec fn hook_installs(memory: Seq<u8>, register: u16) -> bool {
    register == MAPPING_AT && accepted(memory)
}

/// The command names this slave: by its fixed address, or by rank 0.
pub open spec fn addressed(address: u16, header: Command) -> bool {
    (header.access.fixed && header.address.slave == address) || (header.access.topological
        && header.address.slave == 0)
}

/// The command is one that a slave can execute: its data fit a message, and its address
/// is of one kind.
pub open spec fn well_formed(header: Command) -> bool {
    header.size <= MAX_COMMAND && !(header.access.fixed && header.access.topological)
}

/// The command is for this slave: for its own memory, or for the virtual memory.
pub open spec fn concerns(address: u16, header: Command) -> bool {
    well_formed(header) && (addressed(address, header) || (!header.access.fixed
        && !header.access.topological))
}

/// The data are those that the header announces. Only a command that writes needs them
/// so.
pub open spec fn intact(header: Command, data: Seq<u8>) -> bool {
    header.access.write ==> header.checksum == spec_checksum(data)
}

/// The slave executes the command, and counts itself in `executed`.
pub open spec fn executes(address: u16, header: Command, data: Seq<u8>) -> bool {
    concerns(address, header) && intact(header, data)
}

/// The bytes that the command asks for do not all lie in the memory of the slave.
pub open spec fn out_of_memory(memory: Seq<u8>, header: Command) -> bool {
    header.address.register + header.size > memory.len()
}

/// The slave exchanges data with its own memory.
pub open spec fn exchanges_slave(model: SlaveModel, header: Command, data: Seq<u8>) -> bool {
    executes(model.address, header, data) && addressed(model.address, header) && !out_of_memory(
        model.memory,
        header,
    )
}

/// The slave exchanges data with the virtual memory.
pub open spec fn exchanges_virtual(model: SlaveModel, header: Command, data: Seq<u8>) -> bool {
    executes(model.address, header, data) && !addressed(model.address, header)
}

/// Why the slave refuses the command, if it does.
pub open spec fn spec_refusal(model: SlaveModel, header: Command, data: Seq<u8>) -> Option<
    CommandError,
> {
    if header.size > MAX_COMMAND {
        Some(CommandError::InvalidSize)
    } else if header.access.fixed && header.access.topological {
        Some(CommandError::InvalidCommand)
    } else if addressed(model.address, header) && intact(header, data) && out_of_memory(
        model.memory,
        header,
    ) {
        Some(CommandError::InvalidRegister)
    } else {
        None
    }
}

/// The data that the slave sends on: those received, but for what a command that reads
/// gets from the slave.
pub open spec fn spec_send_data(model: SlaveModel, header: Command, data: Seq<u8>) -> Seq<u8> {
    if exchanges_slave(model, header, data) {
        if header.access.read {
            model.memory.subrange(
                header.address.register as int,
                header.address.register + header.size,
            )
        } else {
            data
        }
    } else if exchanges_virtual(model, header, data) {
        spec_virtual_data(model.mapping, model.memory, header, data)
    } else {
        data
    }
}

/// The slave puts data of its own in the frame.
pub open spec fn answers_read(model: SlaveModel, header: Command, data: Seq<u8>) -> bool {
    header.access.read && (exchanges_slave(model, header, data) || (exchanges_virtual(
        model,
        header,
        data,
    ) && concerned(model.mapping, header)))
}

/// The rank or fixed address that the slave sends on: a rank is one less, counting round.
pub open spec fn spec_send_rank(header: Command) -> u16 {
    if well_formed(header) && header.access.topological {
        if header.address.slave == 0 {
            0xffff
        } else {
            (header.address.slave - 1) as u16
        }
    } else {
        header.address.slave
    }
}

/// The count of executions that the slave sends on: one more where it executes, counting
/// round.
pub open spec fn spec_send_executed(address: u16, header: Command, data: Seq<u8>) -> u8 {
    if executes(address, header, data) {
        if header.executed == 255 {
            0
        } else {
            (header.executed + 1) as u8
        }
    } else {
        header.executed
    }
}

/// The header that the slave sends on.
pub open spec fn spec_send_header(model: SlaveModel, header: Command, data: Seq<u8>) -> Command {
    Command {
        token: header.token,
        access: Access {
            error: header.access.error || spec_refusal(model, header, data).is_some(),
            ..header.access
        },
        executed: spec_send_executed(model.address, header, data),
        address: Address { slave: spec_send_rank(header), register: header.address.register },
        size: header.size,
        checksum: if answers_read(model, header, data) {
            spec_checksum(spec_send_data(model, header, data))
        } else {
            header.checksum
        },
    }
}

/// The memory of the slave after the write of a command to its own memory, before the
/// slave looks at what was written.
pub open spec fn spec_written(model: SlaveModel, header: Command, data: Seq<u8>) -> Seq<u8> {
    if exchanges_slave(model, header, data) && header.access.write {
        spec_write(model.memory, header.address.register as int, data)
    } else {
        model.memory
    }
}

/// The slave looks at what a command wrote to its own memory.
pub open spec fn hooked(model: SlaveModel, header: Command, data: Seq<u8>) -> bool {
    exchanges_slave(model, header, data) && header.access.write
}

/// The memory of the slave after the command.
pub open spec fn spec_memory(model: SlaveModel, header: Command, data: Seq<u8>) -> Seq<u8> {
    if spec_refusal(model, header, data) is Some {
        spec_set_error(model.memory, spec_refusal(model, header, data).unwrap())
    } else if concerns(model.address, header) && !intact(header, data) {
        spec_add_loss(model.memory)
    } else if hooked(model, header, data) {
        hook_memory(spec_written(model, header, data), header.address.register)
    } else if exchanges_virtual(model, header, data) {
        spec_virtual_memory(model.mapping, model.memory, header, data)
    } else {
        model.memory
    }
}

/// The fixed address of the slave after the command.
pub open spec fn spec_address(model: SlaveModel, header: Command, data: Seq<u8>) -> u16 {
    if hooked(model, header, data) {
        hook_address(model.address, spec_written(model, header, data), header.address.register)
    } else {
        model.address
    }
}

/// The command gives the slave a new mapping.
pub open spec fn installs(model: SlaveModel, header: Command, data: Seq<u8>) -> bool {
    hooked(model, header, data) && hook_installs(
        spec_written(model, header, data),
        header.address.register,
    )
}

/// The frame needs nothing of the memory of the slave: it is well formed and either names
/// another slave, or asks for virtual addresses of which the mapping may hold none, with
/// data that fit their header.
pub open spec fn bypasses(address: u16, mapping: Seq<Mapping>, header: Command, data: Seq<u8>) -> bool {
    &&& well_formed(header)
    &&& !addressed(address, header)
    &&& (header.access.fixed || header.access.topological || (intact(header, data)
        && !concerned(mapping, header)))
}

/// The header that a slave sends on for a frame that bypasses it: the rank of a
/// topological address one less, the count of a command to the virtual memory one more.
pub open spec fn spec_bypass_header(header: Command) -> Command {
    Command {
        executed: if !header.access.fixed && !header.access.topological {
            if header.executed == 255 {
                0
            } else {
                (header.executed + 1) as u8
            }
        } else {
            header.executed
        },
        address: Address { slave: spec_send_rank(header), register: header.address.register },
        ..header
    }
}

/// A frame that bypasses a slave leaves it as it is, whatever its memory holds, and is
/// sent on as `spec_bypass_header` says, with the data as they came.
pub proof fn lemma_bypass(model: SlaveModel, header: Command, data: Seq<u8>)
    requires
        bypasses(model.address, model.mapping, header, data),
    ensures
        spec_send_header(model, header, data) == spec_bypass_header(header),
        spec_send_data(model, header, data) == data,
        spec_memory(model, header, data) == model.memory,
        spec_address(model, header, data) == model.address,
        !installs(model, header, data),
        spec_refusal(model, header, data) is None,
{
}

/// A slave reads from the bytes of the ranges in use the mapping of the whole table:
/// memory in which `MappingTable::pack_used` was written at the mapping register holds
/// a table of the same count and the same ranges in use.
pub proof fn lemma_used_bytes_read_back(memory: Seq<u8>, table: MappingTable)
    requires
        table.wf(),
        memory.len() >= MAPPING_AT + TABLE_BYTES,
    ensures
        spec_table(spec_write(memory, MAPPING_AT as int, table.spec_pack_used())).size
            == table.size,
        spec_table(
            spec_write(memory, MAPPING_AT as int, table.spec_pack_used()),
        ).spec_entries() == table.spec_entries(),
        hook_entries(spec_write(memory, MAPPING_AT as int, table.spec_pack_used()))
            == active_entries(table.spec_entries()),
{
    let used = table.spec_pack_used();
    let entries = table.spec_entries();
    let written = spec_write(memory, MAPPING_AT as int, used);
    let register = written.subrange(MAPPING_AT as int, MAPPING_AT + TABLE_BYTES);
    let read = spec_table(written);
    let ranges = spec_unpack_entries(register.subrange(1, 1025), 128);
    lemma_pack_entries(entries);
    lemma_array_of_items::<Mapping, 128>(ranges);
    assert(read.map@ == ranges);
    assert(register[0] == used[0]);
    assert forall|i: int| 0 <= i < table.size implies read.spec_entries()[i] == entries[i] by {
        entries[i].lemma_unpack_pack();
        assert(register.subrange(1, 1025).subrange(8 * i, 8 * i + 8) =~= spec_pack_entries(
            entries,
        ).subrange(8 * i, 8 * i + 8));
    }
    assert(read.spec_entries() =~= entries);
}

/// Writes `data` over the bytes of `dst` from `at` on.
pub fn overwrite(dst: &mut Vec<u8>, at: usize, data: &[u8])
    requires
        at + data@.len() <= old(dst)@.len(),
    ensures
        final(dst)@ == spec_write(old(dst)@, at as int, data@),
{
    let total = dst.len();
    let mut i: usize = 0;
    while i < data.len()
        invariant
            i <= data@.len(),
            dst@.len() == old(dst)@.len(),
            dst@.len() == total,
            at + data@.len() <= dst@.len(),
            forall|k: int| at <= k < at + i ==> dst@[k] == data@[k - at],
            forall|k: int|
                0 <= k < dst@.len() && !(at <= k < at + i) ==> dst@[k] == old(dst)@[k],
        decreases data@.len() - i,
    {
        dst.set(at + i, data[i]);
        i += 1;
    }
    assert(dst@ =~= spec_write(old(dst)@, at as int, data@));
}

/// What a slave needs to answer commands: its fixed address, and its own sorted copy of
/// the mapping that the master set.
pub struct SlaveControl<const MEM: usize> {
    mapping: heapless::Vec<Mapping, 128>,
    address: u16,
}

impl<const MEM: usize> SlaveControl<MEM> {
    /// The mapping is one that a slave of `MEM` bytes can hold.
    #[verifier::type_invariant]
    spec fn valid(self) -> bool {
        valid_mapping(table_items(self.mapping), MEM as int)
    }

    /// The ranges that the slave shares with the virtual memory.
    pub closed spec fn spec_mapping(&self) -> Seq<Mapping> {
        table_items(self.mapping)
    }

    /// Fixed address of the slave.
    pub closed spec fn spec_address(&self) -> u16 {
        self.address
    }

    /// The slave as far as its answers go, with the memory in `buffer`.
    pub open spec fn model(&self, buffer: &SlaveBuffer<MEM>) -> SlaveModel {
        SlaveModel {
            address: self.spec_address(),
            mapping: self.spec_mapping(),
            memory: buffer@,
        }
    }

    /// The control of a slave that starts: fixed address 0, nothing mapped.
    pub fn new() -> (made: Self)
        ensures
            made.spec_address() == 0,
            made.spec_mapping() == Seq::<Mapping>::empty(),
    {
        SlaveControl { mapping: table_new(), address: 0 }
    }

    /// Fixed address of the slave.
    pub fn address(&self) -> (address: u16)
        ensures
            address == self.spec_address(),
    {
        self.address
    }

    /// The ranges that the slave shares with the virtual memory: valid ranges, in
    /// ascending order of their start in the virtual memory.
    pub fn mapping(&self) -> (mapping: &[Mapping])
        ensures
            mapping@ == self.spec_mapping(),
            valid_mapping(mapping@, MEM as int),
    {
        proof {
            use_type_invariant(self);
        }
        table_slice(&self.mapping)
    }

    /// Looks at what the master wrote from `address` on.
    ///
    /// A write that starts at the address register sets the fixed address of the slave.
    /// One that starts at the mapping register sets its mapping: the ranges of the table
    /// that hold a byte, sorted by their start in the virtual memory. A table whose
    /// count is too large, or that holds a range that is not valid, is noted as an error
    /// and the mapping stays as it was.
    pub fn on_write(&mut self, buffer: &mut SlaveBuffer<MEM>, address: u16)
        requires
            MEM >= USER,
        ensures
            final(buffer)@ == hook_memory(old(buffer)@, address),
            final(self).spec_address() == hook_address(
                old(self).spec_address(),
                old(buffer)@,
                address,
            ),
            hook_installs(old(buffer)@, address) ==> arranged(
                final(self).spec_mapping(),
                hook_entries(old(buffer)@),
            ),
            !hook_installs(old(buffer)@, address) ==> final(self).spec_mapping() == old(
                self,
            ).spec_mapping(),
    {
        proof {
            use_type_invariant(&*self);
            buffer.lemma_len();
        }
        if address == ADDRESS_AT {
            self.address = buffer.get(crate::registers::address());
        } else if address == MAPPING_AT {
            let table = buffer.get(crate::registers::mapping());
            if table.size as usize > TABLE_MAX {
                buffer.set_error(CommandError::InvalidMapping);
                return ;
            }
            let mut candidate = table_new();
            let mut valid = true;
            let mut i: usize = 0;
            while i < table.size as usize
                invariant
                    i <= table.size <= TABLE_MAX,
                    table_items(candidate) == active_entries(table.map@.take(i as int)),
                    table_items(candidate).len() <= i,
                    valid == (forall|k: int|
                        0 <= k < table_items(candidate).len() ==> valid_entry(
                            #[trigger] table_items(candidate)[k],
                            MEM as int,
                        )),
                decreases table.size - i,
            {
                let entry = table.map[i];
                proof {
                    assert(table.map@.take(i + 1).drop_last() =~= table.map@.take(i as int));
                }
                if entry.size != 0 {
                    let ghost before = table_items(candidate);
                    let fits = entry.slave_start as usize + entry.size as usize <= MEM
                        && entry.virtual_start as u64 + entry.size as u64 <= 0x1_0000_0000;
                    if !fits {
                        valid = false;
                    }
                    let pushed = table_push(&mut candidate, entry);
                    proof {
                        assert(pushed);
                        assert(table_items(candidate) == before.push(entry));
                        if valid {
                            assert forall|k: int|
                                0 <= k < table_items(candidate).len() implies valid_entry(
                                #[trigger] table_items(candidate)[k],
                                MEM as int,
                            ) by {
                                if k < before.len() {
                                    assert(table_items(candidate)[k] == before[k]);
                                }
                            }
                        } else {
                            if fits {
                                let k = choose|k: int|
                                    0 <= k < before.len() && !valid_entry(
                                        #[trigger] before[k],
                                        MEM as int,
                                    );
                                assert(table_items(candidate)[k] == before[k]);
                            } else {
                                assert(table_items(candidate)[before.len() as int] == entry);
                            }
                        }
                    }
                }
                i += 1;
            }
            proof {
                assert(table.map@.take(table.size as int) == table.spec_entries());
                assert(table_items(candidate) == hook_entries(old(buffer)@));
            }
            if !valid {
                buffer.set_error(CommandError::InvalidMapping);
                return ;
            }
            let ghost unsorted = table_items(candidate);
            table_sort(&mut candidate);
            proof {
                let arranged = table_items(candidate);
                broadcast use vstd::seq_lib::group_to_multiset_ensures;

                unsorted.to_multiset_ensures();
                arranged.to_multiset_ensures();
                assert forall|k: int| 0 <= k < arranged.len() implies valid_entry(
                    #[trigger] arranged[k],
                    MEM as int,
                ) by {
                    assert(arranged.contains(arranged[k]));
                    assert(unsorted.to_multiset().count(arranged[k]) > 0);
                    assert(unsorted.contains(arranged[k]));
                    let from = choose|from: int|
                        0 <= from < unsorted.len() && unsorted[from] == arranged[k];
                    assert(valid_entry(unsorted[from], MEM as int));
                }
            }
            self.mapping = candidate;
        }
    }

    /// Exchanges the data of a command with the memory of the slave itself.
    ///
    /// Refuses a command that asks for bytes outside the memory. Else the slave reads
    /// before it writes: where the command reads, the data sent on are those that the
    /// memory held, and the header gets their checksum; where it writes, the data
    /// received then go to the memory, and the slave looks at what was written.
    pub fn exchange_slave(
        &mut self,
        buffer: &mut SlaveBuffer<MEM>,
        header: Command,
        receive: &[u8],
        send: &mut Frame,
    ) -> (done: Result<(), CommandError>)
        requires
            MEM >= USER,
            receive@.len() == header.size,
        ensures
            out_of_memory(old(buffer)@, header) ==> {
                &&& done == Err::<(), CommandError>(CommandError::InvalidRegister)
                &&& *final(send) == *old(send)
                &&& final(buffer)@ == old(buffer)@
                &&& final(self).spec_address() == old(self).spec_address()
                &&& final(self).spec_mapping() == old(self).spec_mapping()
            },
            !out_of_memory(old(buffer)@, header) ==> {
                let register = header.address.register;
                let written = if header.access.write {
                    spec_write(old(buffer)@, register as int, receive@)
                } else {
                    old(buffer)@
                };
                &&& done is Ok
                &&& final(send).data@ == if header.access.read {
                    old(buffer)@.subrange(register as int, register + header.size)
                } else {
                    receive@
                }
                &&& final(send).header == Command {
                    checksum: if header.access.read {
                        spec_checksum(final(send).data@)
                    } else {
                        old(send).header.checksum
                    },
                    ..old(send).header
                }
                &&& header.access.write ==> {
                    &&& final(buffer)@ == hook_memory(written, register)
                    &&& final(self).spec_address() == hook_address(
                        old(self).spec_address(),
                        written,
                        register,
                    )
                    &&& hook_installs(written, register) ==> arranged(
                        final(self).spec_mapping(),
                        hook_entries(written),
                    )
                    &&& !hook_installs(written, register) ==> final(self).spec_mapping() == old(
                        self,
                    ).spec_mapping()
                }
                &&& !header.access.write ==> {
                    &&& final(buffer)@ == old(buffer)@
                    &&& final(self).spec_address() == old(self).spec_address()
                    &&& final(self).spec_mapping() == old(self).spec_mapping()
                }
            },
    {
        proof {
            buffer.lemma_len();
        }
        let size = header.size as usize;
        let register = header.address.register as usize;
        if register + size > MEM {
            return Err(CommandError::InvalidRegister);
        }
        if header.access.read {
            send.data = buffer.read(register, size);
            send.header.checksum = checksum(send.data.as_slice());
        } else {
            send.data = slice_to_vec(receive);
        }
        if header.access.write {
            buffer.write(register, receive);
            self.on_write(buffer, header.address.register);
        }
        Ok(())
    }

    /// The two bounds between which the ranges stand that a command to the virtual
    /// memory may touch, found by bisection of the sorted mapping. The command touches
    /// none where the second is not behind the first.
    pub fn bounds(&self, header: Command) -> (bounds: (usize, usize))
        ensures
            bounds.0 == lower_bound(self.spec_mapping(), header),
            bounds.1 == upper_bound(self.spec_mapping(), header),
            bounds.0 <= self.spec_mapping().len(),
            bounds.1 <= self.spec_mapping().len(),
    {
        let mapping = table_slice(&self.mapping);
        let first: u64 = header.address.to_u32() as u64;
        let last: u64 = first + header.size as u64;
        let ends = move |item: &Mapping| -> (after: bool)
            ensures
                after == (item.virtual_start + item.size > first),
            { item.virtual_start as u64 + item.size as u64 > first };
        let start = bisect_slice(mapping, ends);
        let starts = move |item: &Mapping| -> (from: bool)
            ensures
                from == (item.virtual_start >= last),
            { item.virtual_start as u64 >= last };
        let stop = bisect_slice(mapping, starts);
        proof {
            lemma_bisect_lands(
                mapping@,
                ends,
                ends_after(mapping@, first as int),
                0,
                mapping@.len() as int,
                start as int,
            );
            lemma_bisect_lands(
                mapping@,
                starts,
                starts_from(mapping@, last as int),
                0,
                mapping@.len() as int,
                stop as int,
            );
        }
        (start, stop)
    }

    /// Sends a frame on without the memory of the slave, where the frame needs none.
    ///
    /// A frame bypasses the slave where it is well formed and either names another
    /// slave, or asks for virtual addresses of which the mapping of this slave may hold
    /// none, with data that fit their header. Such a frame leaves the slave as it is:
    /// only the rank of a topological address and the count of a command to the virtual
    /// memory change on its way. For any other frame the result is `None`, and the frame
    /// is for `receive_command`, with the memory.
    pub fn bypass_command(&self, recv_header: Command, receive: &[u8]) -> (passed: Option<Frame>)
        ensures
            passed.is_some() == bypasses(
                self.spec_address(),
                self.spec_mapping(),
                recv_header,
                receive@,
            ),
            passed matches Some(send) ==> {
                &&& send.header == spec_bypass_header(recv_header)
                &&& send.data@ == receive@
            },
    {
        if recv_header.size as usize > MAX_COMMAND {
            return None;
        }
        if recv_header.access.fixed && recv_header.access.topological {
            return None;
        }
        if (recv_header.access.fixed && recv_header.address.slave == self.address) || (
        recv_header.access.topological && recv_header.address.slave == 0) {
            return None;
        }
        let mut send = Frame { header: recv_header, data: slice_to_vec(receive) };
        if recv_header.access.topological {
            send.header.address.slave = recv_header.address.slave.wrapping_sub(1);
        }
        if !recv_header.access.fixed && !recv_header.access.topological {
            if recv_header.access.write && recv_header.checksum != checksum(receive) {
                return None;
            }
            let (start, stop) = self.bounds(recv_header);
            if stop > start {
                return None;
            }
            send.header.executed = send.header.executed.wrapping_add(1);
        }
        Some(send)
    }

    /// Exchanges the data of a command with the ranges that the slave shares with the
    /// virtual memory.
    ///
    /// The ranges that the command may touch are found by bisection of the sorted
    /// mapping. Where there are none, the data pass as they came and the memory is not
    /// touched. Else the slave reads before it writes: where the command reads, each
    /// range puts what it holds of the addresses asked for in the data, and the header
    /// gets the checksum of the data; where it writes, each range then takes what the
    /// data received hold for it.
    pub fn exchange_virtual(
        &self,
        buffer: &mut SlaveBuffer<MEM>,
        header: Command,
        receive: &[u8],
        send: &mut Frame,
    )
        requires
            receive@.len() == header.size,
        ensures
            final(send).data@ == spec_virtual_data(
                self.spec_mapping(),
                old(buffer)@,
                header,
                receive@,
            ),
            final(send).header == (Command {
                checksum: if concerned(self.spec_mapping(), header) && header.access.read {
                    spec_checksum(final(send).data@)
                } else {
                    old(send).header.checksum
                },
                ..old(send).header
            }),
            final(buffer)@ == spec_virtual_memory(
                self.spec_mapping(),
                old(buffer)@,
                header,
                receive@,
            ),
    {
        proof {
            use_type_invariant(self);
            buffer.lemma_len();
        }
        let mapping = table_slice(&self.mapping);
        let (start, stop) = self.bounds(header);
        send.data = slice_to_vec(receive);
        if stop > start {
            let ghost memory = buffer@;
            if header.access.read {
                let mut i: usize = start;
                while i < stop
                    invariant
                        start <= i <= stop <= mapping@.len(),
                        valid_mapping(mapping@, MEM as int),
                        buffer@ == memory,
                        memory.len() == MEM,
                        send.data@.len() == header.size,
                        send.header == old(send).header,
                        send.data@ == gather(
                            receive@,
                            memory,
                            mapping@.subrange(start as int, i as int),
                            header,
                        ),
                    decreases stop - i,
                {
                    proof {
                        assert(mapping@.subrange(start as int, i + 1).drop_last()
                            =~= mapping@.subrange(start as int, i as int));
                    }
                    match map_frame_slave(mapping[i], header) {
                        Some((in_frame, in_slave)) => {
                            let held = buffer.read(in_slave.start, in_slave.end - in_slave.start);
                            overwrite(&mut send.data, in_frame.start, held.as_slice());
                        },
                        None => {},
                    }
                    i += 1;
                }
                send.header.checksum = checksum(send.data.as_slice());
            }
            if header.access.write {
                let mut i: usize = start;
                while i < stop
                    invariant
                        start <= i <= stop <= mapping@.len(),
                        valid_mapping(mapping@, MEM as int),
                        memory.len() == MEM,
                        receive@.len() == header.size,
                        buffer@ == scatter(
                            memory,
                            receive@,
                            mapping@.subrange(start as int, i as int),
                            header,
                        ),
                    decreases stop - i,
                {
                    proof {
                        buffer.lemma_len();
                        assert(mapping@.subrange(start as int, i + 1).drop_last()
                            =~= mapping@.subrange(start as int, i as int));
                    }
                    match map_frame_slave(mapping[i], header) {
                        Some((in_frame, in_slave)) => {
                            buffer.write(
                                in_slave.start,
                                slice_subrange(receive, in_frame.start, in_frame.end),
                            );
                        },
                        None => {},
                    }
                    i += 1;
                }
            }
        }
    }

    /// Executes a command where it is for this slave, and stages in `send` the frame to
    /// send on.
    ///
    /// The frame sent on is the frame received, with the rank of a topological address
    /// one less, and, where the slave executes the command, `executed` one more and the
    /// data exchanged. The slave refuses data longer than a message, an address of two
    /// kinds, and bytes outside its memory. Where a command that writes comes with data
    /// that the checksum does not fit, the slave counts a loss and passes the frame on as
    /// it came.
    pub fn process_command(
        &mut self,
        buffer: &mut SlaveBuffer<MEM>,
        recv_header: Command,
        receive: &[u8],
        send: &mut Frame,
    ) -> (done: Result<(), CommandError>)
        requires
            MEM >= USER,
            receive@.len() == recv_header.size,
        ensures
            ({
                let model = old(self).model(old(buffer));
                let refusal = spec_refusal(model, recv_header, receive@);
                &&& refusal is None ==> done is Ok
                &&& refusal matches Some(error) ==> done == Err::<(), CommandError>(error)
                &&& final(send).header == Command {
                    access: recv_header.access,
                    ..spec_send_header(model, recv_header, receive@)
                }
                &&& final(send).data@ == spec_send_data(model, recv_header, receive@)
                &&& final(buffer)@ == if refusal is Some {
                    old(buffer)@
                } else {
                    spec_memory(model, recv_header, receive@)
                }
                &&& final(self).spec_address() == spec_address(model, recv_header, receive@)
                &&& installs(model, recv_header, receive@) ==> arranged(
                    final(self).spec_mapping(),
                    hook_entries(spec_written(model, recv_header, receive@)),
                )
                &&& !installs(model, recv_header, receive@) ==> final(self).spec_mapping()
                    == old(self).spec_mapping()
            }),
    {
        proof {
            buffer.lemma_len();
        }
        send.header = recv_header;
        send.data = slice_to_vec(receive);
        if recv_header.size as usize > MAX_COMMAND {
            return Err(CommandError::InvalidSize);
        }
        if recv_header.access.fixed && recv_header.access.topological {
            return Err(CommandError::InvalidCommand);
        }
        if recv_header.access.topological {
            send.header.address.slave = recv_header.address.slave.wrapping_sub(1);
        }
        if (recv_header.access.fixed && recv_header.address.slave == self.address) || (
        recv_header.access.topological && recv_header.address.slave == 0) {
            if recv_header.access.write && recv_header.checksum != checksum(receive) {
                buffer.add_loss();
                return Ok(());
            }
            send.header.executed = send.header.executed.wrapping_add(1);
            self.exchange_slave(buffer, recv_header, receive, send)
        } else if !recv_header.access.fixed && !recv_header.access.topological {
            if recv_header.access.write && recv_header.checksum != checksum(receive) {
                buffer.add_loss();
                return Ok(());
            }
            send.header.executed = send.header.executed.wrapping_add(1);
            self.exchange_virtual(buffer, recv_header, receive, send);
            Ok(())
        } else {
            Ok(())
        }
    }

    /// Takes one command from the bus and gives the frame to send on.
    ///
    /// The slave sends a frame on whatever it made of the command. Where it refused the
    /// command, the frame sent on carries the error flag and the error register of the
    /// slave holds the reason, unless it held one before.
    pub fn receive_command(
        &mut self,
        buffer: &mut SlaveBuffer<MEM>,
        recv_header: Command,
        receive: &[u8],
    ) -> (send: Frame)
        requires
            MEM >= USER,
            receive@.len() == recv_header.size,
        ensures
            ({
                let model = old(self).model(old(buffer));
                &&& send.header == spec_send_header(model, recv_header, receive@)
                &&& send.data@ == spec_send_data(model, recv_header, receive@)
                &&& final(buffer)@ == spec_memory(model, recv_header, receive@)
                &&& final(self).spec_address() == spec_address(model, recv_header, receive@)
                &&& installs(model, recv_header, receive@) ==> arranged(
                    final(self).spec_mapping(),
                    hook_entries(spec_written(model, recv_header, receive@)),
                )
                &&& !installs(model, recv_header, receive@) ==> final(self).spec_mapping()
                    == old(self).spec_mapping()
            }),
    {
        let mut send = Frame { header: recv_header, data: Vec::new() };
        match self.process_command(buffer, recv_header, receive, &mut send) {
            Err(error) => {
                buffer.set_error(error);
                send.header.access.error = true;
            },
            Ok(()) => {},
        }
        send
    }
}

} // verus!
