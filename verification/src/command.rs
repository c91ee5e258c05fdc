//! Frame format: the command header, its access flags and address, and the checksum.
//!
//! On the wire one command is
//!
//! ```text
//! [header: 11][header checksum: 1][data: size]
//! ```
//!
//! with every field of the header big-endian.
use crate::pack::{be_bytes, be_value, lemma_be_bytes_len, lemma_be_value_of_bytes, radix, Packed};
use vstd::prelude::*;
use vstd::slice::{slice_subrange, slice_to_vec};

verus! {

/// Largest data payload, in bytes, that one command carries.
pub const MAX_COMMAND: usize = 1024;

/// Bytes of a packed command header.
pub const HEADER: usize = 11;

/// Bytes of a packed command header with the checksum byte that follows it.
pub const HEADER_FRAME: usize = 12;

/// First value of the running checksum.
pub const CHECKSUM_SEED: u8 = 0b10110111;

/// Kind of memory access that a command asks for.
///
/// Packed in one byte, from the least significant bit: `read`, `write`, `fixed`,
/// `topological`, three reserved bits, `error`.
#[derive(Copy, Clone, Debug, PartialEq, Eq, Structural)]
pub struct Access {
    /// The command reads memory.
    pub read: bool,
    /// The command writes memory; may be set along `read`.
    pub write: bool,
    /// The address names a slave by its fixed address.
    pub fixed: bool,
    /// The address names a slave by its rank in the chain.
    pub topological: bool,
    /// The three reserved bits, as a number below 8.
    pub reserved: u8,
    /// Set by a slave that refused the command.
    pub error: bool,
}

/// Address of a command: a slave and a register in it, or one 32 bit virtual address of
/// which `slave` is the low half and `register` the high half.
#[derive(Copy, Clone, Debug, PartialEq, Eq, Structural)]
pub struct Address {
    /// Slave that the command is for: a rank or a fixed address.
    pub slave: u16,
    /// First byte to access in the slave's memory.
    pub register: u16,
}

/// Header of a command.
#[derive(Copy, Clone, Debug, PartialEq, Eq, Structural)]
pub struct Command {
    /// Identifier chosen by the master, carried unchanged by the slaves.
    pub token: u16,
    /// Kind of memory access.
    pub access: Access,
    /// Number of slaves that executed the command so far.
    pub executed: u8,
    /// Where to access memory.
    pub address: Address,
    /// Number of data bytes that follow the header.
    pub size: u16,
    /// Checksum of the data bytes.
    pub checksum: u8,
}

/// 1 for a set flag, 0 for a clear one.
pub open spec fn bit(flag: bool) -> nat {
    if flag {
        1
    } else {
        0
    }
}

impl Access {
    /// The reserved bits fit in three bits.
    pub open spec fn wf(&self) -> bool {
        self.reserved < 8
    }

    /// The byte that packs the flags. Of `reserved` only the three low bits count.
    pub open spec fn spec_to_byte(&self) -> u8 {
        (bit(self.read) + 2 * bit(self.write) + 4 * bit(self.fixed) + 8 * bit(self.topological)
            + 16 * (self.reserved % 8) + 128 * bit(self.error)) as u8
    }

    /// The flags that a byte packs.
    pub open spec fn spec_from_byte(byte: u8) -> Access {
        Access {
            read: byte % 2 == 1,
            write: (byte / 2) % 2 == 1,
            fixed: (byte / 4) % 2 == 1,
            topological: (byte / 8) % 2 == 1,
            reserved: ((byte / 16) % 8) as u8,
            error: byte / 128 == 1,
        }
    }

    /// Packs the flags in one byte.
    pub fn to_byte(&self) -> (byte: u8)
        ensures
            byte == self.spec_to_byte(),
    {
        let mut byte: u8 = 16 * (self.reserved % 8);
        if self.read {
            byte += 1;
        }
        if self.write {
            byte += 2;
        }
        if self.fixed {
            byte += 4;
        }
        if self.topological {
            byte += 8;
        }
        if self.error {
            byte += 128;
        }
        byte
    }

    /// Reads the flags that a byte packs.
    pub fn from_byte(byte: u8) -> (access: Access)
        ensures
            access == Access::spec_from_byte(byte),
            access.wf(),
    {
        Access {
            read: byte % 2 == 1,
            write: (byte / 2) % 2 == 1,
            fixed: (byte / 4) % 2 == 1,
            topological: (byte / 8) % 2 == 1,
            reserved: (byte / 16) % 8,
            error: byte / 128 == 1,
        }
    }
}

impl From<u8> for Access {
    /// The flags that a byte packs.
    fn from(byte: u8) -> (access: Access) {
        Access::from_byte(byte)
    }
}

impl vstd::std_specs::convert::FromSpecImpl<u8> for Access {
    open spec fn obeys_from_spec() -> bool {
        true
    }

    open spec fn from_spec(byte: u8) -> Access {
        Access::spec_from_byte(byte)
    }
}

impl From<Access> for u8 {
    /// The byte that packs the flags.
    fn from(access: Access) -> (byte: u8) {
        access.to_byte()
    }
}

impl vstd::std_specs::convert::FromSpecImpl<Access> for u8 {
    open spec fn obeys_from_spec() -> bool {
        true
    }

    open spec fn from_spec(access: Access) -> u8 {
        access.spec_to_byte()
    }
}

impl Default for Access {
    /// No flag set.
    fn default() -> (access: Access)
        ensures
            access == Access::spec_from_byte(0),
    {
        Access::from_byte(0)
    }
}

impl Address {
    /// The 32 bit value of an address: `register` above `slave`.
    pub open spec fn spec_to_u32(&self) -> u32 {
        (self.register * 0x1_0000 + self.slave) as u32
    }

    /// The address that a 32 bit value stands for.
    pub open spec fn spec_from_u32(value: u32) -> Address {
        Address { slave: (value % 0x1_0000) as u16, register: (value / 0x1_0000) as u16 }
    }

    /// Address of a register of one slave.
    pub fn new(slave: u16, register: u16) -> (address: Address)
        ensures
            address == (Address { slave, register }),
    {
        Address { slave, register }
    }

    /// The 32 bit value of the address.
    pub fn to_u32(&self) -> (value: u32)
        ensures
            value == self.spec_to_u32(),
    {
        (self.register as u32) * 0x1_0000 + (self.slave as u32)
    }

    /// The address that a 32 bit value stands for.
    pub fn from_u32(value: u32) -> (address: Address)
        ensures
            address == Address::spec_from_u32(value),
    {
        Address { slave: (value % 0x1_0000) as u16, register: (value / 0x1_0000) as u16 }
    }
}

impl From<u32> for Address {
    /// The address that a 32 bit value stands for.
    fn from(value: u32) -> (address: Address) {
        Address::from_u32(value)
    }
}

impl vstd::std_specs::convert::FromSpecImpl<u32> for Address {
    open spec fn obeys_from_spec() -> bool {
        true
    }

    open spec fn from_spec(value: u32) -> Address {
        Address::spec_from_u32(value)
    }
}

impl From<Address> for u32 {
    /// The 32 bit value of an address.
    fn from(address: Address) -> (value: u32) {
        address.to_u32()
    }
}

impl vstd::std_specs::convert::FromSpecImpl<Address> for u32 {
    open spec fn obeys_from_spec() -> bool {
        true
    }

    open spec fn from_spec(address: Address) -> u32 {
        address.spec_to_u32()
    }
}

impl Default for Address {
    /// Slave 0, register 0.
    fn default() -> (address: Address)
        ensures
            address == (Address { slave: 0, register: 0 }),
    {
        Address { slave: 0, register: 0 }
    }
}

impl Default for Command {
    /// The header with every field zero.
    fn default() -> (command: Command)
        ensures
            command == (Command {
                token: 0,
                access: Access::spec_from_byte(0),
                executed: 0,
                address: Address { slave: 0, register: 0 },
                size: 0,
                checksum: 0,
            }),
    {
        Command {
            token: 0,
            access: Access::from_byte(0),
            executed: 0,
            address: Address { slave: 0, register: 0 },
            size: 0,
            checksum: 0,
        }
    }
}

/// The packed form of a header: token, access, executed, address, size, checksum.
pub open spec fn spec_encode_header(command: Command) -> Seq<u8> {
    be_bytes(command.token as nat, 2) + seq![command.access.spec_to_byte(), command.executed]
        + be_bytes(command.address.spec_to_u32() as nat, 4) + be_bytes(command.size as nat, 2)
        + seq![command.checksum]
}

/// The header that `HEADER` bytes pack.
pub open spec fn spec_decode_header(bytes: Seq<u8>) -> Command {
    Command {
        token: be_value(bytes.subrange(0, 2)) as u16,
        access: Access::spec_from_byte(bytes[2]),
        executed: bytes[3],
        address: Address::spec_from_u32(be_value(bytes.subrange(4, 8)) as u32),
        size: be_value(bytes.subrange(8, 10)) as u16,
        checksum: bytes[10],
    }
}

/// Packs a header.
pub fn encode_header(command: &Command) -> (bytes: [u8; HEADER])
    ensures
        bytes@ == spec_encode_header(*command),
{
    let token = command.token.pack();
    let address = command.address.to_u32().pack();
    let size = command.size.pack();
    let bytes: [u8; HEADER] = [
        token[0],
        token[1],
        command.access.to_byte(),
        command.executed,
        address[0],
        address[1],
        address[2],
        address[3],
        size[0],
        size[1],
        command.checksum,
    ];
    assert(bytes@ =~= spec_encode_header(*command));
    bytes
}

/// Reads a header from its packed form. Every sequence of `HEADER` bytes is the packed
/// form of some header: whether these bytes were sent as a header is for the checksum
/// that follows them to tell.
pub fn decode_header(bytes: &[u8; HEADER]) -> (command: Command)
    ensures
        command == spec_decode_header(bytes@),
        command.access.wf(),
{
    let all = bytes.as_slice();
    let token = u16::unpack(slice_subrange(all, 0, 2));
    let address = u32::unpack(slice_subrange(all, 4, 8));
    let size = u16::unpack(slice_subrange(all, 8, 10));
    Command {
        token,
        access: Access::from_byte(bytes[2]),
        executed: bytes[3],
        address: Address::from_u32(address),
        size,
        checksum: bytes[10],
    }
}

/// A header whose reserved bits fit in three bits is what its packed form reads as.
pub proof fn lemma_decode_encode(command: Command)
    requires
        command.access.wf(),
    ensures
        spec_encode_header(command).len() == HEADER,
        spec_decode_header(spec_encode_header(command)) == command,
{
    let bytes = spec_encode_header(command);
    let token = be_bytes(command.token as nat, 2);
    let address = be_bytes(command.address.spec_to_u32() as nat, 4);
    let size = be_bytes(command.size as nat, 2);
    reveal_with_fuel(radix, 5);
    lemma_be_bytes_len(command.token as nat, 2);
    lemma_be_bytes_len(command.address.spec_to_u32() as nat, 4);
    lemma_be_bytes_len(command.size as nat, 2);
    lemma_be_value_of_bytes(command.token as nat, 2);
    lemma_be_value_of_bytes(command.address.spec_to_u32() as nat, 4);
    lemma_be_value_of_bytes(command.size as nat, 2);
    assert(bytes.subrange(0, 2) =~= token);
    assert(bytes.subrange(4, 8) =~= address);
    assert(bytes.subrange(8, 10) =~= size);
    assert(bytes[2] == command.access.spec_to_byte());
    assert(bytes[3] == command.executed);
    assert(bytes[10] == command.checksum);
}

/// One step of the running checksum: add the byte, then shift left by one bit, both on
/// eight bits.
pub open spec fn checksum_step(sum: u8, byte: u8) -> u8 {
    ((((sum + byte) % 256) * 2) % 256) as u8
}

/// The checksum of a sequence of bytes: `checksum_step` over the bytes in order, from
/// `CHECKSUM_SEED`.
pub open spec fn spec_checksum(data: Seq<u8>) -> u8
    decreases data.len(),
{
    if data.len() == 0 {
        CHECKSUM_SEED
    } else {
        checksum_step(spec_checksum(data.drop_last()), data.last())
    }
}

/// Checksum used for the header and for the data.
pub fn checksum(slice: &[u8]) -> (sum: u8)
    ensures
        sum == spec_checksum(slice@),
{
    let mut sum: u8 = CHECKSUM_SEED;
    let mut i: usize = 0;
    while i < slice.len()
        invariant
            i <= slice@.len(),
            sum == spec_checksum(slice@.take(i as int)),
        decreases slice@.len() - i,
    {
        let added: u8 = sum.wrapping_add(slice[i]);
        let shifted: u8 = added << 1;
        assert(shifted == ((added * 2) % 256) as u8) by (bit_vector)
            requires
                shifted == added << 1,
        ;
        assert(slice@.take(i + 1).drop_last() =~= slice@.take(i as int));
        sum = shifted;
        i += 1;
    }
    assert(slice@.take(i as int) =~= slice@);
    sum
}

/// The bytes of one command on the wire: the header, the checksum of the header, the
/// data.
pub open spec fn spec_frame(command: Command, data: Seq<u8>) -> Seq<u8> {
    spec_encode_header(command).push(spec_checksum(spec_encode_header(command))) + data
}

/// The bytes to write to the bus for one command: the header, the checksum of the
/// header, the data.
pub fn frame_bytes(command: &Command, data: &[u8]) -> (frame: Vec<u8>)
    ensures
        frame@ == spec_frame(*command, data@),
{
    let header = encode_header(command);
    let mut frame: Vec<u8> = slice_to_vec(header.as_slice());
    frame.push(checksum(header.as_slice()));
    let mut payload = slice_to_vec(data);
    frame.append(&mut payload);
    frame
}

/// `HEADER_FRAME` bytes are a header followed by the checksum of its bytes.
pub open spec fn header_accepted(window: Seq<u8>) -> bool {
    window.len() == HEADER_FRAME && spec_checksum(window.take(HEADER as int))
        == window[HEADER as int]
}

/// A header and its checksum stand in `stream` from index `at` on.
pub open spec fn frame_at(stream: Seq<u8>, at: int) -> bool {
    0 <= at && at + HEADER_FRAME <= stream.len() && header_accepted(
        stream.subrange(at, at + HEADER_FRAME),
    )
}

/// The last `HEADER_FRAME` bytes received, in which a header is looked for.
///
/// After a malformed frame the bus is somewhere inside a frame. The receiver finds the
/// next header by sliding this window over the bytes, one byte at a time, until the last
/// byte of the window is the checksum of those before it.
pub struct HeaderWindow {
    bytes: [u8; HEADER_FRAME],
}

impl View for HeaderWindow {
    type V = Seq<u8>;

    closed spec fn view(&self) -> Seq<u8> {
        self.bytes@
    }
}

impl HeaderWindow {
    /// A window over the first bytes received.
    pub fn new(bytes: [u8; HEADER_FRAME]) -> (window: HeaderWindow)
        ensures
            window@ == bytes@,
    {
        HeaderWindow { bytes }
    }

    /// A window always holds `HEADER_FRAME` bytes.
    pub proof fn lemma_len(&self)
        ensures
            self@.len() == HEADER_FRAME,
    {
    }

    /// Whether the window holds a header and its checksum.
    pub fn accepts(&self) -> (accepted: bool)
        ensures
            accepted == header_accepted(self@),
    {
        let all = self.bytes.as_slice();
        let sum = checksum(slice_subrange(all, 0, HEADER));
        sum == self.bytes[HEADER]
    }

    /// Slides the window by one byte: the oldest byte leaves, `next` comes in.
    pub fn advance(&mut self, next: u8)
        ensures
            final(self)@ == old(self)@.drop_first().push(next),
    {
        let mut i: usize = 0;
        while i < HEADER
            invariant
                i <= HEADER,
                self.bytes@.len() == HEADER_FRAME,
                forall|k: int| 0 <= k < i ==> self.bytes@[k] == old(self).bytes@[k + 1],
                forall|k: int| i <= k < HEADER_FRAME ==> self.bytes@[k] == old(self).bytes@[k],
            decreases HEADER - i,
        {
            self.bytes[i] = self.bytes[i + 1];
            i += 1;
        }
        self.bytes[HEADER] = next;
        assert(self.bytes@ =~= old(self).bytes@.drop_first().push(next));
    }

    /// The header that the first `HEADER` bytes of the window pack.
    pub fn command(&self) -> (command: Command)
        ensures
            command == spec_decode_header(self@.take(HEADER as int)),
            command.access.wf(),
    {
        let header: [u8; HEADER] = [
            self.bytes[0],
            self.bytes[1],
            self.bytes[2],
            self.bytes[3],
            self.bytes[4],
            self.bytes[5],
            self.bytes[6],
            self.bytes[7],
            self.bytes[8],
            self.bytes[9],
            self.bytes[10],
        ];
        assert(header@ =~= self.bytes@.take(HEADER as int));
        decode_header(&header)
    }
}

/// Looks for the first header in a stream of received bytes.
///
/// Returns the index just behind the header's checksum byte, where the data start, and
/// the header. Bytes before the header are skipped: a place in the stream is taken for a
/// header as soon as the checksum byte fits, and no place before it did.
pub fn catch_header(stream: &[u8]) -> (found: Option<(usize, Command)>)
    ensures
        match found {
            Some((end, command)) => {
                &&& frame_at(stream@, end - HEADER_FRAME)
                &&& forall|at: int| 0 <= at < end - HEADER_FRAME ==> !frame_at(stream@, at)
                &&& command == spec_decode_header(
                    stream@.subrange(end - HEADER_FRAME, end - 1),
                )
                &&& command.access.wf()
            },
            None => forall|at: int| !frame_at(stream@, at),
        },
{
    if stream.len() < HEADER_FRAME {
        return None;
    }
    let first: [u8; HEADER_FRAME] = [
        stream[0],
        stream[1],
        stream[2],
        stream[3],
        stream[4],
        stream[5],
        stream[6],
        stream[7],
        stream[8],
        stream[9],
        stream[10],
        stream[11],
    ];
    let mut window = HeaderWindow::new(first);
    let mut end: usize = HEADER_FRAME;
    assert(window@ =~= stream@.subrange(0, HEADER_FRAME as int));
    while !window.accepts()
        invariant
            HEADER_FRAME <= end <= stream@.len(),
            window@ == stream@.subrange(end - HEADER_FRAME, end as int),
            forall|at: int| 0 <= at < end - HEADER_FRAME ==> !frame_at(stream@, at),
        decreases stream@.len() - end,
    {
        if end == stream.len() {
            return None;
        }
        window.advance(stream[end]);
        end += 1;
        assert(window@ =~= stream@.subrange(end - HEADER_FRAME, end as int));
    }
    let command = window.command();
    assert(window@.take(HEADER as int) =~= stream@.subrange(end - HEADER_FRAME, end - 1));
    Some((end, command))
}

/// A frame is caught at its first byte and read as it was sent: the header that the
/// first bytes pack is the header of the frame, and the data follow the checksum byte.
pub proof fn lemma_frame_caught(command: Command, data: Seq<u8>)
    requires
        command.access.wf(),
    ensures
        spec_frame(command, data).len() == HEADER_FRAME + data.len(),
        frame_at(spec_frame(command, data), 0),
        spec_decode_header(spec_frame(command, data).subrange(0, HEADER as int)) == command,
        spec_frame(command, data).subrange(HEADER_FRAME as int, HEADER_FRAME + data.len())
            == data,
{
    let header = spec_encode_header(command);
    let frame = spec_frame(command, data);
    lemma_decode_encode(command);
    lemma_checksum_accepted(header);
    assert(frame.subrange(0, HEADER_FRAME as int) =~= header.push(spec_checksum(header)));
    assert(frame.subrange(0, HEADER as int) =~= header);
    assert(frame.subrange(HEADER_FRAME as int, HEADER_FRAME + data.len()) =~= data);
}

/// A header followed by the checksum of its bytes is accepted where it stands: a
/// receiver that starts on its first byte skips nothing.
pub proof fn lemma_checksum_accepted(header: Seq<u8>)
    requires
        header.len() == HEADER,
    ensures
        header_accepted(header.push(spec_checksum(header))),
        frame_at(header.push(spec_checksum(header)), 0),
{
    let window = header.push(spec_checksum(header));
    assert(window.take(HEADER as int) =~= header);
    assert(window.subrange(0, HEADER_FRAME as int) =~= window);
}

} // verus!
