//! What a slave does with the frames that reach it.
//!
//! A slave owns [`SlaveBuffer`], the memory that it shares with the master, and
//! [`SlaveControl`], what it needs to answer: its fixed address and its mapping to the
//! virtual memory. [`SlaveControl::receive_command`] takes one frame from the bus and
//! gives the frame to send on.
use crate::pack::{be_bytes, be_value, lemma_be_value_bound, radix, Packed};
use crate::registers::{
    CommandError, Device, Mapping, SlaveRegister, DEVICE_AT, ERROR_AT, LOSS_AT, USER, VERSION_AT,
};
use vstd::prelude::*;
use vstd::slice::{slice_subrange, slice_to_vec};

pub mod bisect;
pub mod control;
mod table;
pub mod window;

pub use bisect::bisect_slice;
pub use control::{map_frame_slave, Frame, SlaveControl};

verus! {

/// `memory` with `data` written over it from `at` on.
pub open spec fn spec_write(memory: Seq<u8>, at: int, data: Seq<u8>) -> Seq<u8> {
    Seq::new(
        memory.len(),
        |i: int|
            if at <= i < at + data.len() {
                data[i - at]
            } else {
                memory[i]
            },
    )
}

/// `memory` with `error` in the error register, where that register held no error.
pub open spec fn spec_set_error(memory: Seq<u8>, error: CommandError) -> Seq<u8> {
    if memory[ERROR_AT as int] == 0 {
        spec_write(memory, ERROR_AT as int, seq![error.spec_code()])
    } else {
        memory
    }
}

/// `memory` with one more loss counted, the counter staying at its largest value.
pub open spec fn spec_add_loss(memory: Seq<u8>) -> Seq<u8> {
    let count = be_value(memory.subrange(LOSS_AT as int, LOSS_AT + 2));
    let next = if count < 0xffff {
        count + 1
    } else {
        count
    };
    spec_write(memory, LOSS_AT as int, be_bytes(next as nat, 2))
}

/// The memory of a slave as `SlaveBuffer::new` makes it: the protocol version and the
/// device description in their registers, zero elsewhere.
pub open spec fn spec_initial(size: nat, device: Device) -> Seq<u8> {
    spec_write(
        spec_write(Seq::new(size, |i: int| 0u8), VERSION_AT as int, seq![1u8]),
        DEVICE_AT as int,
        device.spec_pack(),
    )
}

/// A register holds the value that was last set in it: memory in which the packed form
/// of a value was written reads as that value at the same place.
pub proof fn lemma_get_set<T: Packed>(memory: Seq<u8>, at: int, value: T)
    requires
        0 <= at,
        at + T::spec_size() <= memory.len(),
    ensures
        T::spec_unpack(
            spec_write(memory, at, value.spec_pack()).subrange(at, at + T::spec_size()),
        ) == value,
{
    value.lemma_unpack_pack();
    assert(spec_write(memory, at, value.spec_pack()).subrange(at, at + T::spec_size())
        =~= value.spec_pack());
}

/// The ranges stand in ascending order of their start in the virtual memory.
pub open spec fn sorted(entries: Seq<Mapping>) -> bool {
    forall|i: int, j: int|
        0 <= i <= j < entries.len() ==> entries[i].virtual_start <= entries[j].virtual_start
}

/// The `MEM` bytes that a slave shares with the master: the standard registers, then the
/// application's.
pub struct SlaveBuffer<const MEM: usize> {
    buffer: [u8; MEM],
}

impl<const MEM: usize> View for SlaveBuffer<MEM> {
    type V = Seq<u8>;

    closed spec fn view(&self) -> Seq<u8> {
        self.buffer@
    }
}

impl<const MEM: usize> SlaveBuffer<MEM> {
    /// The buffer holds `MEM` bytes.
    pub proof fn lemma_len(&self)
        ensures
            self@.len() == MEM,
    {
    }

    /// The memory of a slave that starts: version 1 of the protocol, the description of
    /// the device, no loss, fixed address 0.
    pub fn new(device: Device) -> (made: Self)
        requires
            MEM >= USER,
        ensures
            made@ == spec_initial(MEM as nat, device),
    {
        let mut made = SlaveBuffer { buffer: [0u8; MEM] };
        assert(made@ =~= Seq::new(MEM as nat, |i: int| 0u8));
        made.set(crate::registers::version(), 1);
        made.set(crate::registers::device(), device);
        made
    }

    /// Copies `size` bytes out of the memory, from `at` on.
    pub fn read(&self, at: usize, size: usize) -> (data: Vec<u8>)
        requires
            at + size <= MEM,
        ensures
            data@ == self@.subrange(at as int, at + size),
    {
        let all = self.buffer.as_slice();
        slice_to_vec(slice_subrange(all, at, at + size))
    }

    /// Writes `data` into the memory, from `at` on.
    pub fn write(&mut self, at: usize, data: &[u8])
        requires
            at + data@.len() <= MEM,
        ensures
            final(self)@ == spec_write(old(self)@, at as int, data@),
    {
        let mut i: usize = 0;
        while i < data.len()
            invariant
                i <= data@.len(),
                at + data@.len() <= MEM,
                self.buffer@.len() == MEM,
                forall|k: int| at <= k < at + i ==> self.buffer@[k] == data@[k - at],
                forall|k: int|
                    0 <= k < MEM && !(at <= k < at + i) ==> self.buffer@[k] == old(
                        self,
                    ).buffer@[k],
            decreases data@.len() - i,
        {
            self.buffer[at + i] = data[i];
            i += 1;
        }
        assert(self.buffer@ =~= spec_write(old(self).buffer@, at as int, data@));
    }

    /// The value that a register holds.
    pub fn get<T: Packed>(&self, register: SlaveRegister<T>) -> (value: T)
        requires
            register.spec_address() + T::spec_size() <= MEM,
        ensures
            value == T::spec_unpack(
                self@.subrange(
                    register.spec_address() as int,
                    register.spec_address() + T::spec_size(),
                ),
            ),
    {
        let bytes = self.read(register.address() as usize, T::size());
        T::unpack(bytes.as_slice())
    }

    /// Sets the value of a register.
    pub fn set<T: Packed>(&mut self, register: SlaveRegister<T>, value: T)
        requires
            register.spec_address() + T::spec_size() <= MEM,
        ensures
            final(self)@ == spec_write(
                old(self)@,
                register.spec_address() as int,
                value.spec_pack(),
            ),
    {
        let bytes = value.pack();
        self.write(register.address() as usize, bytes.as_slice());
    }

    /// Notes `error` as the error of the slave, unless one is noted already: the first
    /// error stays until the master clears it.
    pub fn set_error(&mut self, error: CommandError)
        requires
            MEM >= USER,
        ensures
            final(self)@ == spec_set_error(old(self)@, error),
    {
        let noted = self.get(crate::registers::error());
        if noted.code() == 0 {
            self.set(crate::registers::error(), error);
        }
    }

    /// Counts one more lost frame. The counter stays at its largest value.
    pub fn add_loss(&mut self)
        requires
            MEM >= USER,
        ensures
            final(self)@ == spec_add_loss(old(self)@),
    {
        let count = self.get(crate::registers::loss());
        proof {
            reveal_with_fuel(radix, 3);
            lemma_be_value_bound(self@.subrange(LOSS_AT as int, LOSS_AT + 2));
        }
        let next: u16 = if count < 0xffff {
            count + 1
        } else {
            count
        };
        self.set(crate::registers::loss(), next);
    }
}

} // verus!
