use uartcat::command::{checksum, Access, Address, Command, MAX_COMMAND};
use uartcat::registers::{
    self, CommandError, Device, Mapping, MappingTable, Register, SlaveRegister, StringArray,
};
use uartcat::pack::Packed;
use uartcat::slave::control::overwrite;
use uartcat::slave::{bisect_slice, map_frame_slave, Frame, SlaveBuffer, SlaveControl};

const MEMORY: usize = 0x516;

fn described() -> Device {
    Device {
        model: StringArray::try_from("esp32-test").unwrap(),
        hardware_version: StringArray::try_from("0.1").unwrap(),
        software_version: StringArray::try_from("0.2").unwrap(),
        serial: StringArray::try_from("").unwrap(),
    }
}

fn slave() -> (SlaveControl<MEMORY>, SlaveBuffer<MEMORY>) {
    (SlaveControl::new(), SlaveBuffer::new(described()))
}

fn header(access: u8, slave: u16, register: u16, data: &[u8]) -> Command {
    Command {
        token: 0x4242,
        access: Access::from_byte(access),
        executed: 0,
        address: Address { slave, register },
        size: data.len() as u16,
        checksum: checksum(data),
    }
}

fn at(access: u8, address: u32, data: &[u8]) -> Command {
    Command { address: Address::from_u32(address), ..header(access, 0, 0, data) }
}

const READ: u8 = 0x01;
const WRITE: u8 = 0x02;
const FIXED: u8 = 0x04;
const TOPOLOGICAL: u8 = 0x08;
const ERROR: u8 = 0x80;

fn install(
    control: &mut SlaveControl<MEMORY>,
    buffer: &mut SlaveBuffer<MEMORY>,
    ranges: &[Mapping],
) -> Frame {
    let used = MappingTable::from_iter(ranges).unwrap().pack_used();
    control.receive_command(buffer, header(WRITE | TOPOLOGICAL, 0, 0xff, &used), &used)
}

#[test]
fn memory_of_a_slave_that_starts() {
    let buffer: SlaveBuffer<MEMORY> = SlaveBuffer::new(described());
    assert_eq!(buffer.get(registers::version()), 1);
    assert_eq!(buffer.get(registers::loss()), 0);
    assert_eq!(buffer.get(registers::address()), 0);
    assert_eq!(buffer.get(registers::error()), CommandError::NoError);
    let device = buffer.get(registers::device());
    assert_eq!(device.model.as_str().unwrap(), "esp32-test");
    assert_eq!(device.hardware_version.as_str().unwrap(), "0.1");
    assert_eq!(device.software_version.as_str().unwrap(), "0.2");
    assert_eq!(device.serial.as_str().unwrap(), "");
    assert_eq!(buffer.get(registers::mapping()).size, 0);
    let all = buffer.read(0, MEMORY);
    assert_eq!(all.len(), MEMORY);
    assert_eq!(all[5], 1);
    assert!(all[..5].iter().all(|&byte| byte == 0));
    assert!(all[0xa0..].iter().all(|&byte| byte == 0));
    let control: SlaveControl<MEMORY> = SlaveControl::new();
    assert_eq!(control.address(), 0);
    assert!(control.mapping().is_empty());
}

#[test]
fn registers_are_big_endian_in_memory() {
    let (_, mut buffer) = slave();
    let counter: SlaveRegister<u32> = Register::new(0x500);
    buffer.set(counter, 0x0102_0304);
    assert_eq!(buffer.read(0x500, 4), vec![1, 2, 3, 4]);
    assert_eq!(buffer.get(counter), 0x0102_0304);
    buffer.write(0x502, &[9, 8]);
    assert_eq!(buffer.get(counter), 0x0102_0908);
    let last: SlaveRegister<u16> = Register::new(0x514);
    buffer.set(last, 0xbeef);
    assert_eq!(buffer.read(0x514, 2), vec![0xbe, 0xef]);
}

#[test]
fn first_error_stays() {
    let (_, mut buffer) = slave();
    buffer.set_error(CommandError::InvalidSize);
    assert_eq!(buffer.get(registers::error()), CommandError::InvalidSize);
    buffer.set_error(CommandError::InvalidRegister);
    assert_eq!(buffer.get(registers::error()), CommandError::InvalidSize);
    buffer.set(registers::error(), CommandError::NoError);
    buffer.set_error(CommandError::InvalidRegister);
    assert_eq!(buffer.get(registers::error()), CommandError::InvalidRegister);
    buffer.write(2, &[77]);
    buffer.set_error(CommandError::InvalidMapping);
    assert_eq!(buffer.read(2, 1), vec![77]);
}

#[test]
fn losses_count_up_to_the_largest_value() {
    let (_, mut buffer) = slave();
    buffer.add_loss();
    buffer.add_loss();
    assert_eq!(buffer.get(registers::loss()), 2);
    buffer.set(registers::loss(), 0xfffe);
    buffer.add_loss();
    assert_eq!(buffer.get(registers::loss()), 0xffff);
    buffer.add_loss();
    assert_eq!(buffer.get(registers::loss()), 0xffff);
    assert_eq!(buffer.get(registers::error()), CommandError::NoError);
    assert_eq!(buffer.get(registers::version()), 1);
}

#[test]
fn overwrite_replaces_bytes_in_place() {
    let mut bytes = vec![1u8, 2, 3, 4, 5];
    overwrite(&mut bytes, 1, &[9, 8]);
    assert_eq!(bytes, vec![1, 9, 8, 4, 5]);
    overwrite(&mut bytes, 5, &[]);
    assert_eq!(bytes, vec![1, 9, 8, 4, 5]);
}

#[test]
fn bisection_finds_the_first_item_over_the_threshold() {
    let items = [1u32, 3, 3, 7, 9, 12];
    assert_eq!(bisect_slice(&items, |item| *item >= 3), 1);
    assert_eq!(bisect_slice(&items, |item| *item > 3), 3);
    assert_eq!(bisect_slice(&items, |item| *item >= 1), 0);
    assert_eq!(bisect_slice(&items, |item| *item > 12), 6);
    assert_eq!(bisect_slice(&items[..0], |item| *item > 0), 0);
    for threshold in 0..14u32 {
        let expected = items.iter().filter(|item| **item < threshold).count();
        assert_eq!(bisect_slice(&items, |item| *item >= threshold), expected);
    }
}

#[test]
fn bisection_of_a_threshold_that_goes_back_and_forth() {
    let items = [true, false, true];
    assert_eq!(bisect_slice(&items, |item| *item), 2);
    let items = [false, true, false, false];
    assert_eq!(bisect_slice(&items, |item| *item), 4);
}

#[test]
fn range_meets_request_in_the_middle() {
    let mapped = Mapping { virtual_start: 100, slave_start: 0x500, size: 10 };
    assert_eq!(map_frame_slave(mapped, at(READ, 100, &[0; 10])), Some((0..10, 0x500..0x50a)));
    assert_eq!(map_frame_slave(mapped, at(READ, 96, &[0; 8])), Some((4..8, 0x500..0x504)));
    assert_eq!(map_frame_slave(mapped, at(READ, 104, &[0; 20])), Some((0..6, 0x504..0x50a)));
    assert_eq!(map_frame_slave(mapped, at(READ, 90, &[0; 30])), Some((10..20, 0x500..0x50a)));
    assert_eq!(map_frame_slave(mapped, at(READ, 103, &[0; 2])), Some((0..2, 0x503..0x505)));
}

#[test]
fn range_beside_request_meets_nothing() {
    let mapped = Mapping { virtual_start: 100, slave_start: 0x500, size: 10 };
    assert_eq!(map_frame_slave(mapped, at(READ, 90, &[0; 10])), None);
    assert_eq!(map_frame_slave(mapped, at(READ, 110, &[0; 10])), None);
    assert_eq!(map_frame_slave(mapped, at(READ, 105, &[])), None);
    let none = Mapping { virtual_start: 100, slave_start: 0x500, size: 0 };
    assert_eq!(map_frame_slave(none, at(READ, 90, &[0; 30])), None);
}

#[test]
fn range_at_the_end_of_the_virtual_memory() {
    let mapped = Mapping { virtual_start: 0xffff_fff0, slave_start: 0x500, size: 0x20 };
    assert_eq!(
        map_frame_slave(mapped, at(READ, 0xffff_fffc, &[0; 8])),
        Some((0..8, 0x50c..0x514))
    );
}

#[test]
fn frame_for_another_slave_passes() {
    let (mut control, mut buffer) = slave();
    let before = buffer.read(0, MEMORY);
    let received = header(READ | WRITE | FIXED, 7, 0x500, &[1, 2, 3, 4]);
    let sent = control.receive_command(&mut buffer, received, &[1, 2, 3, 4]);
    assert_eq!(sent.header, received);
    assert_eq!(sent.data, vec![1, 2, 3, 4]);
    assert_eq!(buffer.read(0, MEMORY), before);
}

#[test]
fn rank_is_one_less_behind_each_slave() {
    let (mut control, mut buffer) = slave();
    let received = header(READ | TOPOLOGICAL, 3, 0x500, &[0; 4]);
    let sent = control.receive_command(&mut buffer, received, &[0; 4]);
    assert_eq!(sent.header, Command { address: Address { slave: 2, register: 0x500 }, ..received });
    assert_eq!(sent.data, vec![0; 4]);
}

#[test]
fn rank_counts_round_behind_the_slave_that_executes() {
    let (mut control, mut buffer) = slave();
    buffer.write(0x500, &[5, 6, 7, 8]);
    let received = header(READ | TOPOLOGICAL, 0, 0x500, &[0; 4]);
    let sent = control.receive_command(&mut buffer, received, &[0; 4]);
    assert_eq!(sent.header.address, Address { slave: 0xffff, register: 0x500 });
    assert_eq!(sent.header.executed, 1);
    assert_eq!(sent.data, vec![5, 6, 7, 8]);
    assert_eq!(sent.header.checksum, checksum(&[5, 6, 7, 8]));
    assert_eq!(sent.header.access, received.access);
    assert_eq!(sent.header.token, 0x4242);
    assert_eq!(sent.header.size, 4);
}

#[test]
fn write_goes_to_memory_and_passes_as_it_came() {
    let (mut control, mut buffer) = slave();
    let received = header(WRITE | TOPOLOGICAL, 0, 0x500, &[1, 2, 3, 4]);
    let sent = control.receive_command(&mut buffer, received, &[1, 2, 3, 4]);
    assert_eq!(buffer.read(0x500, 4), vec![1, 2, 3, 4]);
    assert_eq!(sent.data, vec![1, 2, 3, 4]);
    assert_eq!(sent.header.executed, 1);
    assert_eq!(sent.header.checksum, received.checksum);
}

#[test]
fn exchange_reads_before_it_writes() {
    let (mut control, mut buffer) = slave();
    buffer.write(0x500, &[5, 6, 7, 8]);
    let received = header(READ | WRITE | TOPOLOGICAL, 0, 0x500, &[1, 2, 3, 4]);
    let sent = control.receive_command(&mut buffer, received, &[1, 2, 3, 4]);
    assert_eq!(sent.data, vec![5, 6, 7, 8]);
    assert_eq!(sent.header.checksum, checksum(&[5, 6, 7, 8]));
    assert_eq!(buffer.read(0x500, 4), vec![1, 2, 3, 4]);
    assert_eq!(sent.header.executed, 1);
}

#[test]
fn executed_counts_round_on_eight_bits() {
    let (mut control, mut buffer) = slave();
    let received = Command { executed: 255, ..header(READ | TOPOLOGICAL, 0, 0x500, &[0; 2]) };
    let sent = control.receive_command(&mut buffer, received, &[0; 2]);
    assert_eq!(sent.header.executed, 0);
}

#[test]
fn fixed_address_is_written_by_the_master() {
    let (mut control, mut buffer) = slave();
    let received = header(WRITE | TOPOLOGICAL, 0, 0, &[0x01, 0x02]);
    control.receive_command(&mut buffer, received, &[0x01, 0x02]);
    assert_eq!(control.address(), 0x0102);
    assert_eq!(buffer.get(registers::address()), 0x0102);
    let received = header(READ | FIXED, 0x0102, 0x5, &[0]);
    let sent = control.receive_command(&mut buffer, received, &[0]);
    assert_eq!(sent.data, vec![1]);
    assert_eq!(sent.header.executed, 1);
    let received = header(READ | FIXED, 0, 0x5, &[0]);
    let sent = control.receive_command(&mut buffer, received, &[0]);
    assert_eq!(sent.data, vec![0]);
    assert_eq!(sent.header.executed, 0);
}

#[test]
fn write_beside_the_address_register_leaves_the_address() {
    let (mut control, mut buffer) = slave();
    let received = header(WRITE | TOPOLOGICAL, 0, 1, &[0x07]);
    control.receive_command(&mut buffer, received, &[0x07]);
    assert_eq!(buffer.get(registers::address()), 0x0007);
    assert_eq!(control.address(), 0);
}

#[test]
fn data_longer_than_a_message_are_refused() {
    let (mut control, mut buffer) = slave();
    let data = vec![0x55u8; MAX_COMMAND + 1];
    let received = header(READ | TOPOLOGICAL, 0, 0, &data);
    let sent = control.receive_command(&mut buffer, received, &data);
    assert!(sent.header.access.error);
    assert_eq!(sent.header.executed, 0);
    assert_eq!(sent.header.address, received.address);
    assert_eq!(sent.data, data);
    assert_eq!(buffer.get(registers::error()), CommandError::InvalidSize);
}

#[test]
fn data_as_long_as_a_message_are_taken() {
    let (mut control, mut buffer) = slave();
    let data = vec![0x55u8; MAX_COMMAND];
    let received = header(READ | TOPOLOGICAL, 0, 0, &data);
    let sent = control.receive_command(&mut buffer, received, &data);
    assert!(!sent.header.access.error);
    assert_eq!(sent.header.executed, 1);
    assert_eq!(sent.data, buffer.read(0, MAX_COMMAND));
}

#[test]
fn address_of_two_kinds_is_refused() {
    let (mut control, mut buffer) = slave();
    let received = header(READ | FIXED | TOPOLOGICAL, 0, 0x500, &[0; 2]);
    let sent = control.receive_command(&mut buffer, received, &[0; 2]);
    assert_eq!(sent.header, Command { access: Access::from_byte(0x0d | ERROR), ..received });
    assert_eq!(sent.data, vec![0; 2]);
    assert_eq!(buffer.get(registers::error()), CommandError::InvalidCommand);
}

#[test]
fn bytes_outside_the_memory_are_refused() {
    let (mut control, mut buffer) = slave();
    let received = header(READ | WRITE | TOPOLOGICAL, 0, 0x514, &[1, 2, 3]);
    let sent = control.receive_command(&mut buffer, received, &[1, 2, 3]);
    assert!(sent.header.access.error);
    assert_eq!(sent.header.executed, 1);
    assert_eq!(sent.header.checksum, received.checksum);
    assert_eq!(sent.data, vec![1, 2, 3]);
    assert_eq!(buffer.get(registers::error()), CommandError::InvalidRegister);
    assert_eq!(buffer.read(0x514, 2), vec![0, 0]);
    let received = header(READ | TOPOLOGICAL, 0, 0x514, &[0, 0]);
    let sent = control.receive_command(&mut buffer, received, &[0, 0]);
    assert!(!sent.header.access.error);
}

#[test]
fn refusal_keeps_the_first_error() {
    let (mut control, mut buffer) = slave();
    let received = header(READ | FIXED | TOPOLOGICAL, 0, 0x500, &[0; 2]);
    control.receive_command(&mut buffer, received, &[0; 2]);
    let received = header(READ | TOPOLOGICAL, 0, 0x515, &[0; 2]);
    let sent = control.receive_command(&mut buffer, received, &[0; 2]);
    assert!(sent.header.access.error);
    assert_eq!(buffer.get(registers::error()), CommandError::InvalidCommand);
    let clear = CommandError::NoError.pack();
    control.receive_command(&mut buffer, header(WRITE | TOPOLOGICAL, 0, 2, &clear), &clear);
    assert_eq!(buffer.get(registers::error()), CommandError::NoError);
}

#[test]
fn error_flag_of_a_slave_before_stays() {
    let (mut control, mut buffer) = slave();
    let received = header(READ | TOPOLOGICAL | ERROR, 4, 0x500, &[0; 2]);
    let sent = control.receive_command(&mut buffer, received, &[0; 2]);
    assert!(sent.header.access.error);
    assert_eq!(buffer.get(registers::error()), CommandError::NoError);
}

#[test]
fn write_with_wrong_data_is_counted_as_a_loss() {
    let (mut control, mut buffer) = slave();
    let received =
        Command { checksum: 0, ..header(READ | WRITE | TOPOLOGICAL, 0, 0x500, &[1, 2, 3, 4]) };
    let sent = control.receive_command(&mut buffer, received, &[1, 2, 3, 4]);
    assert_eq!(
        sent.header,
        Command { address: Address { slave: 0xffff, register: 0x500 }, ..received }
    );
    assert_eq!(sent.data, vec![1, 2, 3, 4]);
    assert_eq!(buffer.get(registers::loss()), 1);
    assert_eq!(buffer.read(0x500, 4), vec![0; 4]);
    assert_eq!(buffer.get(registers::error()), CommandError::NoError);
    let received = Command { checksum: 0, ..at(WRITE, 0, &[1, 2, 3, 4]) };
    let sent = control.receive_command(&mut buffer, received, &[1, 2, 3, 4]);
    assert_eq!(sent.header, received);
    assert_eq!(buffer.get(registers::loss()), 2);
}

#[test]
fn read_needs_no_checksum() {
    let (mut control, mut buffer) = slave();
    let received = Command { checksum: 0, ..header(READ | TOPOLOGICAL, 0, 0x5, &[9]) };
    let sent = control.receive_command(&mut buffer, received, &[9]);
    assert_eq!(sent.data, vec![1]);
    assert_eq!(sent.header.executed, 1);
    assert_eq!(buffer.get(registers::loss()), 0);
}

#[test]
fn mapping_is_sorted_and_holds_no_empty_range() {
    let (mut control, mut buffer) = slave();
    let ranges = [
        Mapping { virtual_start: 40, slave_start: 0x504, size: 2 },
        Mapping { virtual_start: 7, slave_start: 0x500, size: 0 },
        Mapping { virtual_start: 10, slave_start: 0x500, size: 4 },
        Mapping { virtual_start: 20, slave_start: 0x512, size: 4 },
    ];
    let sent = install(&mut control, &mut buffer, &ranges);
    assert!(!sent.header.access.error);
    assert_eq!(sent.header.executed, 1);
    assert_eq!(control.mapping(), &[ranges[2], ranges[3], ranges[0]]);
    assert_eq!(buffer.get(registers::error()), CommandError::NoError);
    assert_eq!(buffer.get(registers::mapping()).size, 4);
}

#[test]
fn mapping_outside_the_memory_is_an_error() {
    let (mut control, mut buffer) = slave();
    let good = [Mapping { virtual_start: 10, slave_start: 0x500, size: 4 }];
    install(&mut control, &mut buffer, &good);
    let bad = [
        Mapping { virtual_start: 0, slave_start: 0x500, size: 2 },
        Mapping { virtual_start: 4, slave_start: 0x515, size: 2 },
    ];
    let sent = install(&mut control, &mut buffer, &bad);
    assert_eq!(sent.header.executed, 1);
    assert_eq!(control.mapping(), &good);
    assert_eq!(buffer.get(registers::error()), CommandError::InvalidMapping);
}

#[test]
fn mapping_outside_the_virtual_memory_is_an_error() {
    let (mut control, mut buffer) = slave();
    let last = [Mapping { virtual_start: 0xffff_fffc, slave_start: 0x500, size: 4 }];
    install(&mut control, &mut buffer, &last);
    assert_eq!(control.mapping(), &last);
    assert_eq!(buffer.get(registers::error()), CommandError::NoError);
    let bad = [Mapping { virtual_start: 0xffff_fffd, slave_start: 0x500, size: 4 }];
    install(&mut control, &mut buffer, &bad);
    assert_eq!(control.mapping(), &last);
    assert_eq!(buffer.get(registers::error()), CommandError::InvalidMapping);
}

#[test]
fn mapping_with_too_large_a_count_is_an_error() {
    let (mut control, mut buffer) = slave();
    let good = [Mapping { virtual_start: 10, slave_start: 0x500, size: 4 }];
    install(&mut control, &mut buffer, &good);
    let received = header(WRITE | TOPOLOGICAL, 0, 0xff, &[129]);
    control.receive_command(&mut buffer, received, &[129]);
    assert_eq!(control.mapping(), &good);
    assert_eq!(buffer.get(registers::error()), CommandError::InvalidMapping);
}

#[test]
fn mapping_of_no_range_maps_nothing() {
    let (mut control, mut buffer) = slave();
    install(&mut control, &mut buffer, &[Mapping { virtual_start: 10, slave_start: 0x500, size: 4 }]);
    install(&mut control, &mut buffer, &[]);
    assert!(control.mapping().is_empty());
    assert_eq!(buffer.get(registers::error()), CommandError::NoError);
}

fn mapped() -> (SlaveControl<MEMORY>, SlaveBuffer<MEMORY>) {
    let (mut control, mut buffer) = slave();
    let ranges = [
        Mapping { virtual_start: 100, slave_start: 0x512, size: 4 },
        Mapping { virtual_start: 104, slave_start: 0x504, size: 2 },
        Mapping { virtual_start: 200, slave_start: 0x500, size: 4 },
    ];
    install(&mut control, &mut buffer, &ranges);
    buffer.write(0x500, &[0xc0, 0xc1, 0xc2, 0xc3]);
    buffer.write(0x504, &[0xf0, 0xf1]);
    buffer.write(0x512, &[0xd0, 0xd1, 0xd2, 0xd3]);
    (control, buffer)
}

#[test]
fn virtual_read_gathers_the_ranges() {
    let (mut control, mut buffer) = mapped();
    let received = at(READ, 100, &[0; 6]);
    let sent = control.receive_command(&mut buffer, received, &[0; 6]);
    assert_eq!(sent.data, vec![0xd0, 0xd1, 0xd2, 0xd3, 0xf0, 0xf1]);
    assert_eq!(sent.header.checksum, checksum(&sent.data));
    assert_eq!(sent.header.executed, 1);
    assert_eq!(sent.header.address, received.address);
    assert!(!sent.header.access.error);
}

#[test]
fn virtual_read_leaves_what_no_range_holds() {
    let (mut control, mut buffer) = mapped();
    let data = [1, 2, 3, 4, 5, 6, 7, 8, 9, 10];
    let sent = control.receive_command(&mut buffer, at(READ, 98, &data), &data);
    assert_eq!(sent.data, vec![1, 2, 0xd0, 0xd1, 0xd2, 0xd3, 0xf0, 0xf1, 9, 10]);
    let sent = control.receive_command(&mut buffer, at(READ, 102, &[7; 3]), &[7; 3]);
    assert_eq!(sent.data, vec![0xd2, 0xd3, 0xf0]);
    let sent = control.receive_command(&mut buffer, at(READ, 202, &[7; 4]), &[7; 4]);
    assert_eq!(sent.data, vec![0xc2, 0xc3, 7, 7]);
}

#[test]
fn virtual_write_scatters_to_the_ranges() {
    let (mut control, mut buffer) = mapped();
    let data = [1, 2, 3, 4, 5, 6];
    let received = at(WRITE, 100, &data);
    let sent = control.receive_command(&mut buffer, received, &data);
    assert_eq!(sent.data, data);
    assert_eq!(sent.header.checksum, received.checksum);
    assert_eq!(sent.header.executed, 1);
    assert_eq!(buffer.read(0x512, 4), vec![1, 2, 3, 4]);
    assert_eq!(buffer.read(0x504, 2), vec![5, 6]);
    assert_eq!(buffer.read(0x500, 4), vec![0xc0, 0xc1, 0xc2, 0xc3]);
}

#[test]
fn virtual_exchange_reads_before_it_writes() {
    let (mut control, mut buffer) = mapped();
    let data = [1, 2, 3, 4];
    let sent = control.receive_command(&mut buffer, at(READ | WRITE, 103, &data), &data);
    assert_eq!(sent.data, vec![0xd3, 0xf0, 0xf1, 4]);
    assert_eq!(sent.header.checksum, checksum(&[0xd3, 0xf0, 0xf1, 4]));
    assert_eq!(buffer.read(0x512, 4), vec![0xd0, 0xd1, 0xd2, 1]);
    assert_eq!(buffer.read(0x504, 2), vec![2, 3]);
}

#[test]
fn virtual_command_beside_the_mapping_passes() {
    let (mut control, mut buffer) = mapped();
    let before = buffer.read(0, MEMORY);
    let data = [1, 2, 3, 4];
    let received = Command { checksum: 0x33, ..at(READ, 300, &data) };
    let sent = control.receive_command(&mut buffer, received, &data);
    assert_eq!(sent.data, data);
    assert_eq!(sent.header, Command { executed: 1, ..received });
    assert_eq!(buffer.read(0, MEMORY), before);
    let received = at(READ | WRITE, 106, &data);
    let sent = control.receive_command(&mut buffer, received, &data);
    assert_eq!(sent.data, data);
    assert_eq!(sent.header, Command { executed: 1, ..received });
    assert_eq!(buffer.read(0, MEMORY), before);
}

#[test]
fn virtual_command_without_a_mapping_passes() {
    let (mut control, mut buffer) = slave();
    let data = [1, 2, 3, 4];
    let received = at(READ | WRITE, 0, &data);
    let sent = control.receive_command(&mut buffer, received, &data);
    assert_eq!(sent.data, data);
    assert_eq!(sent.header, Command { executed: 1, ..received });
}

#[test]
fn overlapping_ranges_are_taken_in_order() {
    let (mut control, mut buffer) = slave();
    let ranges = [
        Mapping { virtual_start: 0, slave_start: 0x500, size: 4 },
        Mapping { virtual_start: 2, slave_start: 0x510, size: 4 },
    ];
    install(&mut control, &mut buffer, &ranges);
    buffer.write(0x500, &[1, 2, 3, 4]);
    buffer.write(0x510, &[5, 6, 7, 8]);
    let sent = control.receive_command(&mut buffer, at(READ, 0, &[0; 6]), &[0; 6]);
    assert_eq!(sent.data, vec![1, 2, 5, 6, 7, 8]);
}

#[test]
fn frame_of_a_slave_goes_on_the_wire() {
    let (mut control, mut buffer) = slave();
    let received = header(READ | TOPOLOGICAL, 0, 0x5, &[0]);
    let sent = control.receive_command(&mut buffer, received, &[0]);
    let bytes = sent.to_bytes();
    assert_eq!(uartcat::command::catch_header(&bytes), Some((12, sent.header)));
    assert_eq!(&bytes[12..], &[1]);
}

#[test]
fn steps_of_a_command_by_hand() {
    let (mut control, mut buffer) = slave();
    buffer.write(0x500, &[5, 6, 7, 8]);
    let received = header(READ | WRITE | TOPOLOGICAL, 0, 0x500, &[1, 2, 3, 4]);
    let mut send = Frame { header: Command::default(), data: Vec::new() };
    let done = control.process_command(&mut buffer, received, &[1, 2, 3, 4], &mut send);
    assert!(done.is_ok());
    assert_eq!(send.data, vec![5, 6, 7, 8]);
    assert_eq!(send.header.executed, 1);
    let refused = header(READ | TOPOLOGICAL, 0, 0x515, &[0; 2]);
    let done = control.process_command(&mut buffer, refused, &[0; 2], &mut send);
    assert_eq!(done, Err(CommandError::InvalidRegister));
    assert!(!send.header.access.error);
    assert_eq!(buffer.get(registers::error()), CommandError::NoError);
    let mut send = Frame { header: refused, data: vec![9, 9] };
    let done = control.exchange_slave(&mut buffer, refused, &[0; 2], &mut send);
    assert_eq!(done, Err(CommandError::InvalidRegister));
    assert_eq!(send.data, vec![9, 9]);
    let global = at(READ, 0, &[3, 3]);
    let mut send = Frame { header: global, data: Vec::new() };
    control.exchange_virtual(&mut buffer, global, &[3, 3], &mut send);
    assert_eq!(send.data, vec![3, 3]);
    assert_eq!(send.header, global);
    buffer.write(0, &[0, 9]);
    control.on_write(&mut buffer, 0);
    assert_eq!(control.address(), 9);
}

#[test]
fn slave_reads_back_the_ranges_in_use() {
    let (mut control, mut buffer) = slave();
    let ranges = [
        Mapping { virtual_start: 10, slave_start: 0x500, size: 4 },
        Mapping { virtual_start: 20, slave_start: 0x512, size: 4 },
    ];
    let longer = [ranges[0], ranges[1], Mapping { virtual_start: 30, slave_start: 0x504, size: 2 }];
    install(&mut control, &mut buffer, &longer);
    install(&mut control, &mut buffer, &ranges);
    let read = buffer.get(registers::mapping());
    assert_eq!(read.size, 2);
    assert_eq!(&read.map[..2], &ranges);
    assert_eq!(control.mapping(), &ranges);
}

fn same_as_with_memory(
    control: &mut SlaveControl<MEMORY>,
    buffer: &mut SlaveBuffer<MEMORY>,
    received: Command,
    data: &[u8],
) -> Option<Frame> {
    let before = buffer.read(0, MEMORY);
    let passed = control.bypass_command(received, data);
    let sent = control.receive_command(buffer, received, data);
    if let Some(passed) = &passed {
        assert_eq!(passed.header, sent.header);
        assert_eq!(passed.data, sent.data);
        assert_eq!(buffer.read(0, MEMORY), before);
    }
    passed
}

#[test]
fn frame_for_another_slave_bypasses_the_memory() {
    let (mut control, mut buffer) = mapped();
    let data = [1, 2, 3, 4];
    let received = header(READ | WRITE | FIXED, 7, 0x500, &data);
    let passed = same_as_with_memory(&mut control, &mut buffer, received, &data).unwrap();
    assert_eq!(passed.header, received);
    assert_eq!(passed.data, data);
    let received = Command { checksum: 0, ..header(WRITE | TOPOLOGICAL, 3, 0x500, &data) };
    let passed = same_as_with_memory(&mut control, &mut buffer, received, &data).unwrap();
    assert_eq!(
        passed.header,
        Command { address: Address { slave: 2, register: 0x500 }, ..received }
    );
    let received = header(READ | TOPOLOGICAL, 0xffff, 0, &[]);
    let passed = same_as_with_memory(&mut control, &mut buffer, received, &[]).unwrap();
    assert_eq!(passed.header.address.slave, 0xfffe);
    assert_eq!(passed.header.executed, 0);
}

#[test]
fn virtual_frame_beside_the_mapping_bypasses_the_memory() {
    let (mut control, mut buffer) = mapped();
    let data = [1, 2, 3, 4];
    let received = at(READ | WRITE, 300, &data);
    let passed = same_as_with_memory(&mut control, &mut buffer, received, &data).unwrap();
    assert_eq!(passed.header, Command { executed: 1, ..received });
    assert_eq!(passed.data, data);
    let received = Command { executed: 255, ..at(READ, 106, &data) };
    let passed = same_as_with_memory(&mut control, &mut buffer, received, &data).unwrap();
    assert_eq!(passed.header.executed, 0);
    let (mut control, mut buffer) = slave();
    let received = at(WRITE, 0, &data);
    assert!(same_as_with_memory(&mut control, &mut buffer, received, &data).is_some());
}

#[test]
fn frame_that_needs_the_memory_does_not_bypass() {
    let (mut control, mut buffer) = mapped();
    let data = [1, 2, 3, 4];
    let frames = [
        header(READ | TOPOLOGICAL, 0, 0x500, &data),
        header(READ | FIXED, 0, 0x500, &data),
        header(READ | FIXED | TOPOLOGICAL, 5, 0x500, &data),
        at(READ, 100, &data),
        at(WRITE, 203, &data),
        Command { checksum: 0, ..at(WRITE, 300, &data) },
    ];
    for received in frames {
        assert!(same_as_with_memory(&mut control, &mut buffer, received, &data).is_none());
    }
    let long = vec![0u8; MAX_COMMAND + 1];
    let received = header(READ | FIXED, 7, 0, &long);
    assert!(same_as_with_memory(&mut control, &mut buffer, received, &long).is_none());
    assert_eq!(control.bounds(at(READ, 100, &data)), (0, 1));
    assert_eq!(control.bounds(at(READ, 100, &[0; 6])), (0, 2));
    assert_eq!(control.bounds(at(READ, 300, &data)), (3, 3));
    assert_eq!(control.bounds(at(READ, 106, &data)), (2, 2));
}
