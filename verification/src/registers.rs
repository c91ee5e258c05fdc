//! Registers: typed places in bus memory, and the standard registers of every slave.
//!
//! Each standard register has a packed data type and a fixed place in the memory of a
//! slave. Application registers start at [`USER`].
use crate::pack::{array_of, lemma_array_of, Packed};
use core::marker::PhantomData;
use vstd::prelude::*;
use vstd::slice::slice_subrange;
use vstd::string::StringSliceAdditionalSpecFns;

verus! {

/// Integer that addresses the memory of one slave.
pub type SlaveSize = u16;

/// Integer that addresses the virtual memory of the bus.
pub type VirtualSize = u32;

/// A typed pointer in bus memory: the address of the first byte of a value of type `T`.
///
/// It holds nothing but the address: making, copying and dropping one costs nothing and
/// touches no bus.
#[derive(Debug, PartialEq, Hash)]
pub struct Register<T, A> {
    addr: A,
    ty: PhantomData<T>,
}

/// Register in the memory of a slave.
pub type SlaveRegister<T> = Register<T, SlaveSize>;

/// Register in the virtual memory.
pub type VirtualRegister<T> = Register<T, VirtualSize>;

impl<T, A: Copy> Register<T, A> {
    /// Address of the first byte.
    pub closed spec fn spec_address(&self) -> A {
        self.addr
    }

    /// The register that starts at `address`.
    pub fn new(address: A) -> (register: Self)
        ensures
            register.spec_address() == address,
    {
        Register { addr: address, ty: PhantomData }
    }

    /// Address of the first byte.
    pub fn address(&self) -> (address: A)
        ensures
            address == self.spec_address(),
    {
        self.addr
    }

    /// Two registers of one type are the same register where they start at one address.
    pub proof fn lemma_same_address(&self, other: &Self)
        ensures
            (self.spec_address() == other.spec_address()) == (*self == *other),
    {
    }
}

impl<T: Packed, A> Register<T, A> {
    /// Number of bytes of the register, on 16 bits.
    pub fn size(&self) -> (size: SlaveSize)
        ensures
            size == T::spec_size() % 0x1_0000,
    {
        (T::size() % 0x1_0000) as SlaveSize
    }
}

impl<T, A: Copy> Clone for Register<T, A> {
    fn clone(&self) -> (register: Self)
        ensures
            register == *self,
    {
        Register { addr: self.addr, ty: PhantomData }
    }
}

impl<T, A: Copy> Copy for Register<T, A> {

}

/// Address of the register of the slave's fixed address.
pub const ADDRESS_AT: SlaveSize = 0x0;

/// Address of the register of the first error.
pub const ERROR_AT: SlaveSize = 0x2;

/// Address of the register of the loss counter.
pub const LOSS_AT: SlaveSize = 0x3;

/// Address of the register of the protocol version.
pub const VERSION_AT: SlaveSize = 0x5;

/// Address of the register of the device description.
pub const DEVICE_AT: SlaveSize = 0x20;

/// Address of the register of the slave's clock.
pub const CLOCK_AT: SlaveSize = 0x86;

/// Address of the register of the mapping table.
pub const MAPPING_AT: SlaveSize = 0xff;

/// End of the standard registers: first byte that is the application's.
pub const USER: usize = 0x500;

/// Fixed address of the slave.
pub fn address() -> (register: SlaveRegister<SlaveSize>)
    ensures
        register.spec_address() == ADDRESS_AT,
{
    Register::new(ADDRESS_AT)
}

/// First error that the slave raised. Writing `CommandError::NoError` clears it.
pub fn error() -> (register: SlaveRegister<CommandError>)
    ensures
        register.spec_address() == ERROR_AT,
{
    Register::new(ERROR_AT)
}

/// Number of frames that the slave lost since the counter was last written.
pub fn loss() -> (register: SlaveRegister<u16>)
    ensures
        register.spec_address() == LOSS_AT,
{
    Register::new(LOSS_AT)
}

/// Version of the protocol.
pub fn version() -> (register: SlaveRegister<u8>)
    ensures
        register.spec_address() == VERSION_AT,
{
    Register::new(VERSION_AT)
}

/// Description of the device.
pub fn device() -> (register: SlaveRegister<Device>)
    ensures
        register.spec_address() == DEVICE_AT,
{
    Register::new(DEVICE_AT)
}

/// Clock of the slave.
pub fn clock() -> (register: SlaveRegister<u64>)
    ensures
        register.spec_address() == CLOCK_AT,
{
    Register::new(CLOCK_AT)
}

/// Mapping between the slave's registers and the virtual memory.
pub fn mapping() -> (register: SlaveRegister<MappingTable>)
    ensures
        register.spec_address() == MAPPING_AT,
{
    Register::new(MAPPING_AT)
}

/// Code of the error that a slave keeps after it refused a command.
#[derive(Copy, Clone, Debug, PartialEq, Eq, Structural)]
pub enum CommandError {
    /// No error.
    NoError,
    /// An error of a kind that this list does not hold.
    Unknown,
    /// The command does not exist.
    InvalidCommand,
    /// The register does not allow the access asked for.
    InvalidAccess,
    /// The data are too long for the slave.
    InvalidSize,
    /// The register does not exist.
    InvalidRegister,
    /// A register named in the mapping does not exist.
    InvalidMapping,
}

impl CommandError {
    /// The byte that stands for the error.
    pub open spec fn spec_code(&self) -> u8 {
        match self {
            CommandError::NoError => 0,
            CommandError::Unknown => 255,
            CommandError::InvalidCommand => 1,
            CommandError::InvalidAccess => 2,
            CommandError::InvalidSize => 3,
            CommandError::InvalidRegister => 4,
            CommandError::InvalidMapping => 5,
        }
    }

    /// The error that a byte stands for: `Unknown` for every byte that is no code.
    pub open spec fn spec_from_code(code: u8) -> CommandError {
        if code == 0 {
            CommandError::NoError
        } else if code == 1 {
            CommandError::InvalidCommand
        } else if code == 2 {
            CommandError::InvalidAccess
        } else if code == 3 {
            CommandError::InvalidSize
        } else if code == 4 {
            CommandError::InvalidRegister
        } else if code == 5 {
            CommandError::InvalidMapping
        } else {
            CommandError::Unknown
        }
    }

    /// The byte that stands for the error.
    pub fn code(&self) -> (code: u8)
        ensures
            code == self.spec_code(),
    {
        match self {
            CommandError::NoError => 0,
            CommandError::Unknown => 255,
            CommandError::InvalidCommand => 1,
            CommandError::InvalidAccess => 2,
            CommandError::InvalidSize => 3,
            CommandError::InvalidRegister => 4,
            CommandError::InvalidMapping => 5,
        }
    }

    /// The error that a byte stands for.
    pub fn from_code(code: u8) -> (error: CommandError)
        ensures
            error == CommandError::spec_from_code(code),
    {
        if code == 0 {
            CommandError::NoError
        } else if code == 1 {
            CommandError::InvalidCommand
        } else if code == 2 {
            CommandError::InvalidAccess
        } else if code == 3 {
            CommandError::InvalidSize
        } else if code == 4 {
            CommandError::InvalidRegister
        } else if code == 5 {
            CommandError::InvalidMapping
        } else {
            CommandError::Unknown
        }
    }
}

impl Default for CommandError {
    fn default() -> (error: CommandError)
        ensures
            error == CommandError::NoError,
    {
        CommandError::NoError
    }
}

impl Packed for CommandError {
    open spec fn spec_size() -> nat {
        1
    }

    open spec fn spec_pack(&self) -> Seq<u8> {
        seq![self.spec_code()]
    }

    open spec fn spec_unpack(bytes: Seq<u8>) -> Self {
        CommandError::spec_from_code(bytes[0])
    }

    fn size() -> (n: usize) {
        1
    }

    fn pack(&self) -> (bytes: Vec<u8>) {
        let mut bytes: Vec<u8> = Vec::new();
        bytes.push(self.code());
        assert(bytes@ =~= seq![self.spec_code()]);
        bytes
    }

    fn unpack(bytes: &[u8]) -> (value: Self) {
        CommandError::from_code(bytes[0])
    }

    proof fn lemma_unpack_pack(&self) {
    }
}

/// Largest number of bytes of a string register.
pub const STRING_MAX: usize = 31;

/// Register format of a string: its length in bytes, then 31 bytes of which the first
/// `size` are the text.
#[derive(Debug)]
pub struct StringArray {
    /// Number of bytes of the text.
    pub size: u8,
    /// The text, then filling.
    pub buffer: [u8; 31],
}

/// `core::str::Utf8Error`, the reason why bytes are no text.
#[verifier::external_type_specification]
#[verifier::external_body]
pub struct ExUtf8Error(core::str::Utf8Error);

/// `core::str::from_utf8`: the bytes as a string slice where they are valid UTF-8, an
/// error where they are not.
#[verifier::external_body]
fn str_from_utf8(bytes: &[u8]) -> (text: Result<&str, core::str::Utf8Error>)
    ensures
        text.is_ok() == vstd::utf8::valid_utf8(bytes@),
        text matches Ok(s) ==> s.spec_bytes() == bytes@,
{
    core::str::from_utf8(bytes)
}

impl StringArray {
    /// The length is one of a text that fits in the buffer.
    pub open spec fn wf(&self) -> bool {
        self.size <= STRING_MAX
    }

    /// The bytes of the text.
    pub open spec fn spec_text(&self) -> Seq<u8> {
        self.buffer@.take(self.size as int)
    }

    /// The string register of a text: its bytes, then zeros. A text of more than 31
    /// bytes has none.
    pub fn try_from(value: &str) -> (made: Result<StringArray, &'static str>)
        ensures
            made.is_ok() == (value.spec_bytes().len() <= STRING_MAX),
            made matches Ok(string) ==> {
                &&& string.wf()
                &&& string.spec_text() == value.spec_bytes()
                &&& forall|i: int| string.size <= i < STRING_MAX ==> string.buffer@[i] == 0
            },
            made matches Err(message) ==> message@ == "input string too long"@,
    {
        let bytes = value.as_bytes();
        if bytes.len() > STRING_MAX {
            return Err("input string too long");
        }
        let mut buffer: [u8; 31] = [0u8; 31];
        let mut i: usize = 0;
        while i < bytes.len()
            invariant
                i <= bytes@.len() <= STRING_MAX,
                forall|k: int| 0 <= k < i ==> buffer@[k] == bytes@[k],
                forall|k: int| i <= k < STRING_MAX ==> buffer@[k] == 0,
            decreases bytes@.len() - i,
        {
            buffer[i] = bytes[i];
            i += 1;
        }
        let string = StringArray { size: bytes.len() as u8, buffer };
        assert(string.spec_text() =~= value.spec_bytes());
        Ok(string)
    }

    /// The text of the register, where its bytes are valid UTF-8.
    pub fn as_str(&self) -> (text: Result<&str, core::str::Utf8Error>)
        requires
            self.wf(),
        ensures
            text.is_ok() == vstd::utf8::valid_utf8(self.spec_text()),
            text matches Ok(s) ==> s.spec_bytes() == self.spec_text(),
    {
        let all = self.buffer.as_slice();
        str_from_utf8(slice_subrange(all, 0, self.size as usize))
    }
}

impl Clone for StringArray {
    fn clone(&self) -> (string: Self)
        ensures
            string == *self,
    {
        StringArray { size: self.size, buffer: self.buffer }
    }
}

impl Default for StringArray {
    /// The empty text.
    fn default() -> (string: StringArray)
        ensures
            string.size == 0,
            forall|i: int| 0 <= i < STRING_MAX ==> string.buffer@[i] == 0,
    {
        StringArray { size: 0, buffer: [0u8; 31] }
    }
}

impl Packed for StringArray {
    open spec fn spec_size() -> nat {
        32
    }

    open spec fn spec_pack(&self) -> Seq<u8> {
        seq![self.size] + self.buffer@
    }

    open spec fn spec_unpack(bytes: Seq<u8>) -> Self {
        StringArray { size: bytes[0], buffer: array_of(bytes.subrange(1, 32)) }
    }

    fn size() -> (n: usize) {
        32
    }

    fn pack(&self) -> (bytes: Vec<u8>) {
        let mut bytes: Vec<u8> = Vec::new();
        bytes.push(self.size);
        let mut i: usize = 0;
        while i < 31
            invariant
                i <= 31,
                bytes@ == seq![self.size] + self.buffer@.take(i as int),
            decreases 31 - i,
        {
            bytes.push(self.buffer[i]);
            assert(bytes@ =~= seq![self.size] + self.buffer@.take(i + 1));
            i += 1;
        }
        assert(self.buffer@.take(31) =~= self.buffer@);
        bytes
    }

    fn unpack(bytes: &[u8]) -> (value: Self) {
        let mut buffer: [u8; 31] = [0u8; 31];
        let mut i: usize = 0;
        while i < 31
            invariant
                i <= 31,
                bytes@.len() == 32,
                forall|k: int| 0 <= k < i ==> buffer@[k] == bytes@[k + 1],
            decreases 31 - i,
        {
            buffer[i] = bytes[i + 1];
            i += 1;
        }
        proof {
            assert(buffer@ =~= bytes@.subrange(1, 32));
            lemma_array_of::<u8, 31>(buffer);
        }
        StringArray { size: bytes[0], buffer }
    }

    proof fn lemma_unpack_pack(&self) {
        let bytes = self.spec_pack();
        assert(bytes.subrange(1, 32) =~= self.buffer@);
        lemma_array_of::<u8, 31>(self.buffer);
    }
}

/// Description of a device.
#[derive(Debug)]
pub struct Device {
    /// Name of the model.
    pub model: StringArray,
    /// Version of the hardware.
    pub hardware_version: StringArray,
    /// Version of the software.
    pub software_version: StringArray,
    /// Serial number of this one device.
    pub serial: StringArray,
}

impl Clone for Device {
    fn clone(&self) -> (device: Self)
        ensures
            device == *self,
    {
        Device {
            model: self.model.clone(),
            hardware_version: self.hardware_version.clone(),
            software_version: self.software_version.clone(),
            serial: self.serial.clone(),
        }
    }
}

impl Packed for Device {
    open spec fn spec_size() -> nat {
        128
    }

    open spec fn spec_pack(&self) -> Seq<u8> {
        self.model.spec_pack() + self.hardware_version.spec_pack()
            + self.software_version.spec_pack() + self.serial.spec_pack()
    }

    open spec fn spec_unpack(bytes: Seq<u8>) -> Self {
        Device {
            model: StringArray::spec_unpack(bytes.subrange(0, 32)),
            hardware_version: StringArray::spec_unpack(bytes.subrange(32, 64)),
            software_version: StringArray::spec_unpack(bytes.subrange(64, 96)),
            serial: StringArray::spec_unpack(bytes.subrange(96, 128)),
        }
    }

    fn size() -> (n: usize) {
        128
    }

    fn pack(&self) -> (bytes: Vec<u8>) {
        let mut bytes = self.model.pack();
        let mut hardware = self.hardware_version.pack();
        let mut software = self.software_version.pack();
        let mut serial = self.serial.pack();
        bytes.append(&mut hardware);
        bytes.append(&mut software);
        bytes.append(&mut serial);
        bytes
    }

    fn unpack(bytes: &[u8]) -> (value: Self) {
        Device {
            model: StringArray::unpack(slice_subrange(bytes, 0, 32)),
            hardware_version: StringArray::unpack(slice_subrange(bytes, 32, 64)),
            software_version: StringArray::unpack(slice_subrange(bytes, 64, 96)),
            serial: StringArray::unpack(slice_subrange(bytes, 96, 128)),
        }
    }

    proof fn lemma_unpack_pack(&self) {
        let bytes = self.spec_pack();
        self.model.lemma_unpack_pack();
        self.hardware_version.lemma_unpack_pack();
        self.software_version.lemma_unpack_pack();
        self.serial.lemma_unpack_pack();
        assert(bytes.subrange(0, 32) =~= self.model.spec_pack());
        assert(bytes.subrange(32, 64) =~= self.hardware_version.spec_pack());
        assert(bytes.subrange(64, 96) =~= self.software_version.spec_pack());
        assert(bytes.subrange(96, 128) =~= self.serial.spec_pack());
    }
}

/// One range of memory that a slave shares with the virtual memory: `size` bytes that
/// start at `slave_start` in the slave and at `virtual_start` in the virtual memory.
#[derive(Copy, Clone, Debug, PartialEq, Eq, Structural)]
pub struct Mapping {
    /// First byte in the virtual memory.
    pub virtual_start: u32,
    /// First byte in the slave's memory.
    pub slave_start: u16,
    /// Number of bytes. A range of no byte maps nothing.
    pub size: u16,
}

impl Default for Mapping {
    /// The range of no byte at address zero.
    fn default() -> (mapping: Mapping)
        ensures
            mapping == (Mapping { virtual_start: 0, slave_start: 0, size: 0 }),
    {
        Mapping { virtual_start: 0, slave_start: 0, size: 0 }
    }
}

impl Packed for Mapping {
    open spec fn spec_size() -> nat {
        8
    }

    open spec fn spec_pack(&self) -> Seq<u8> {
        self.virtual_start.spec_pack() + self.slave_start.spec_pack() + self.size.spec_pack()
    }

    open spec fn spec_unpack(bytes: Seq<u8>) -> Self {
        Mapping {
            virtual_start: u32::spec_unpack(bytes.subrange(0, 4)),
            slave_start: u16::spec_unpack(bytes.subrange(4, 6)),
            size: u16::spec_unpack(bytes.subrange(6, 8)),
        }
    }

    fn size() -> (n: usize) {
        8
    }

    fn pack(&self) -> (bytes: Vec<u8>) {
        let mut bytes = self.virtual_start.pack();
        let mut slave_start = self.slave_start.pack();
        let mut size = self.size.pack();
        bytes.append(&mut slave_start);
        bytes.append(&mut size);
        bytes
    }

    fn unpack(bytes: &[u8]) -> (value: Self) {
        Mapping {
            virtual_start: u32::unpack(slice_subrange(bytes, 0, 4)),
            slave_start: u16::unpack(slice_subrange(bytes, 4, 6)),
            size: u16::unpack(slice_subrange(bytes, 6, 8)),
        }
    }

    proof fn lemma_unpack_pack(&self) {
        let bytes = self.spec_pack();
        self.virtual_start.lemma_unpack_pack();
        self.slave_start.lemma_unpack_pack();
        self.size.lemma_unpack_pack();
        assert(bytes.subrange(0, 4) =~= self.virtual_start.spec_pack());
        assert(bytes.subrange(4, 6) =~= self.slave_start.spec_pack());
        assert(bytes.subrange(6, 8) =~= self.size.spec_pack());
    }
}

/// Largest number of ranges in a mapping table.
pub const TABLE_MAX: usize = 128;

/// Packed size of a mapping table: the count, then `TABLE_MAX` ranges.
pub const TABLE_BYTES: usize = 1025;

/// The mapping that a master sets in a slave: `size` ranges, the first `size` items of
/// `map`.
#[derive(Debug)]
pub struct MappingTable {
    /// Number of ranges in use.
    pub size: u8,
    /// The ranges; those from `size` on count for nothing.
    pub map: [Mapping; 128],
}

/// The packed forms of `entries`, one after the other.
pub open spec fn spec_pack_entries(entries: Seq<Mapping>) -> Seq<u8>
    decreases entries.len(),
{
    if entries.len() == 0 {
        Seq::empty()
    } else {
        spec_pack_entries(entries.drop_last()) + entries.last().spec_pack()
    }
}

/// The `count` ranges that `bytes` pack one after the other.
pub open spec fn spec_unpack_entries(bytes: Seq<u8>, count: nat) -> Seq<Mapping> {
    Seq::new(count, |i: int| Mapping::spec_unpack(bytes.subrange(8 * i, 8 * i + 8)))
}

/// The packed form of `entries` holds 8 bytes for each, and the bytes of entry `i` stand
/// from `8 * i` on.
pub proof fn lemma_pack_entries(entries: Seq<Mapping>)
    ensures
        spec_pack_entries(entries).len() == 8 * entries.len(),
        forall|i: int|
            0 <= i < entries.len() ==> #[trigger] spec_pack_entries(entries).subrange(
                8 * i,
                8 * i + 8,
            ) == entries[i].spec_pack(),
    decreases entries.len(),
{
    if entries.len() > 0 {
        let front = entries.drop_last();
        let last = entries.last();
        lemma_pack_entries(front);
        last.lemma_unpack_pack();
        let all = spec_pack_entries(entries);
        assert forall|i: int| 0 <= i < entries.len() implies #[trigger] all.subrange(
            8 * i,
            8 * i + 8,
        ) == entries[i].spec_pack() by {
            if i < front.len() {
                assert(all.subrange(8 * i, 8 * i + 8) =~= spec_pack_entries(front).subrange(
                    8 * i,
                    8 * i + 8,
                ));
            } else {
                assert(all.subrange(8 * i, 8 * i + 8) =~= last.spec_pack());
            }
        }
    }
}

impl MappingTable {
    /// The count is one that the table can hold.
    pub open spec fn wf(&self) -> bool {
        self.size <= TABLE_MAX
    }

    /// The ranges in use.
    pub open spec fn spec_entries(&self) -> Seq<Mapping> {
        self.map@.take(self.size as int)
    }

    /// The packed form of the table cut behind the ranges in use: the count, then those
    /// ranges.
    pub open spec fn spec_pack_used(&self) -> Seq<u8> {
        seq![self.size] + spec_pack_entries(self.spec_entries())
    }

    /// The bytes that set the table in a slave when written to its mapping register: the
    /// count, then the ranges in use. The ranges behind them count for nothing, so that a
    /// slave reads the same mapping from these bytes as from the whole table, and a table
    /// of fewer than `TABLE_MAX` ranges fits in one message.
    pub fn pack_used(&self) -> (bytes: Vec<u8>)
        requires
            self.wf(),
        ensures
            bytes@ == self.spec_pack_used(),
            bytes@.len() == 1 + 8 * self.size,
    {
        let mut bytes: Vec<u8> = Vec::new();
        bytes.push(self.size);
        let count = self.size as usize;
        let mut i: usize = 0;
        while i < count
            invariant
                i <= count == self.size <= TABLE_MAX,
                bytes@ == seq![self.size] + spec_pack_entries(self.map@.take(i as int)),
            decreases count - i,
        {
            let mut entry = self.map[i].pack();
            bytes.append(&mut entry);
            proof {
                assert(self.map@.take(i + 1).drop_last() =~= self.map@.take(i as int));
                assert(bytes@ =~= seq![self.size] + spec_pack_entries(self.map@.take(i + 1)));
            }
            i += 1;
        }
        proof {
            lemma_pack_entries(self.spec_entries());
        }
        bytes
    }

    /// The table that holds `items` in order, filled up with ranges of no byte. More than
    /// `TABLE_MAX` items make no table.
    pub fn from_iter(items: &[Mapping]) -> (made: Result<MappingTable, &'static str>)
        ensures
            made.is_ok() == (items@.len() <= TABLE_MAX),
            made matches Ok(table) ==> {
                &&& table.wf()
                &&& table.spec_entries() == items@
                &&& forall|i: int|
                    items@.len() <= i < TABLE_MAX ==> table.map@[i] == (Mapping {
                        virtual_start: 0,
                        slave_start: 0,
                        size: 0,
                    })
            },
            made matches Err(message) ==> message@ == "too many items for table"@,
    {
        if items.len() > TABLE_MAX {
            return Err("too many items for table");
        }
        let mut map: [Mapping; 128] = [Mapping { virtual_start: 0, slave_start: 0, size: 0 };128];
        let mut i: usize = 0;
        while i < items.len()
            invariant
                i <= items@.len() <= TABLE_MAX,
                forall|k: int| 0 <= k < i ==> map@[k] == items@[k],
                forall|k: int|
                    i <= k < TABLE_MAX ==> map@[k] == (Mapping {
                        virtual_start: 0,
                        slave_start: 0,
                        size: 0,
                    }),
            decreases items@.len() - i,
        {
            map[i] = items[i];
            i += 1;
        }
        let table = MappingTable { size: items.len() as u8, map };
        assert(table.spec_entries() =~= items@);
        Ok(table)
    }
}

impl Clone for MappingTable {
    fn clone(&self) -> (table: Self)
        ensures
            table == *self,
    {
        MappingTable { size: self.size, map: self.map }
    }
}

impl Default for MappingTable {
    /// The table of no range.
    fn default() -> (table: MappingTable)
        ensures
            table.size == 0,
            forall|i: int|
                0 <= i < TABLE_MAX ==> table.map@[i] == (Mapping {
                    virtual_start: 0,
                    slave_start: 0,
                    size: 0,
                }),
    {
        MappingTable { size: 0, map: [Mapping { virtual_start: 0, slave_start: 0, size: 0 };128] }
    }
}

impl Packed for MappingTable {
    open spec fn spec_size() -> nat {
        1025
    }

    open spec fn spec_pack(&self) -> Seq<u8> {
        seq![self.size] + spec_pack_entries(self.map@)
    }

    open spec fn spec_unpack(bytes: Seq<u8>) -> Self {
        MappingTable {
            size: bytes[0],
            map: array_of(spec_unpack_entries(bytes.subrange(1, 1025), 128)),
        }
    }

    fn size() -> (n: usize) {
        1025
    }

    fn pack(&self) -> (bytes: Vec<u8>) {
        let mut bytes: Vec<u8> = Vec::new();
        bytes.push(self.size);
        let mut i: usize = 0;
        while i < 128
            invariant
                i <= 128,
                bytes@ == seq![self.size] + spec_pack_entries(self.map@.take(i as int)),
            decreases 128 - i,
        {
            let mut entry = self.map[i].pack();
            bytes.append(&mut entry);
            proof {
                assert(self.map@.take(i + 1).drop_last() =~= self.map@.take(i as int));
                assert(bytes@ =~= seq![self.size] + spec_pack_entries(self.map@.take(i + 1)));
            }
            i += 1;
        }
        proof {
            assert(self.map@.take(128) =~= self.map@);
            lemma_pack_entries(self.map@);
        }
        bytes
    }

    fn unpack(bytes: &[u8]) -> (value: Self) {
        let mut map: [Mapping; 128] = [Mapping { virtual_start: 0, slave_start: 0, size: 0 };128];
        let ghost entries = spec_unpack_entries(bytes@.subrange(1, 1025), 128);
        let mut i: usize = 0;
        while i < 128
            invariant
                i <= 128,
                bytes@.len() == 1025,
                entries == spec_unpack_entries(bytes@.subrange(1, 1025), 128),
                forall|k: int| 0 <= k < i ==> map@[k] == entries[k],
            decreases 128 - i,
        {
            let entry = Mapping::unpack(slice_subrange(bytes, 1 + 8 * i, 9 + 8 * i));
            assert(bytes@.subrange(1 + 8 * i, 9 + 8 * i) =~= bytes@.subrange(1, 1025).subrange(
                8 * i,
                8 * i + 8,
            ));
            map[i] = entry;
            i += 1;
        }
        proof {
            assert(map@ =~= entries);
            lemma_array_of::<Mapping, 128>(map);
        }
        MappingTable { size: bytes[0], map }
    }

    proof fn lemma_unpack_pack(&self) {
        let bytes = self.spec_pack();
        let packed = spec_pack_entries(self.map@);
        lemma_pack_entries(self.map@);
        assert(bytes.subrange(1, 1025) =~= packed);
        let entries = spec_unpack_entries(packed, 128);
        assert forall|i: int| 0 <= i < 128 implies entries[i] == self.map@[i] by {
            self.map@[i].lemma_unpack_pack();
            assert(packed.subrange(8 * i, 8 * i + 8) == self.map@[i].spec_pack());
        }
        assert(entries =~= self.map@);
        lemma_array_of::<Mapping, 128>(self.map);
    }
}

} // verus!
