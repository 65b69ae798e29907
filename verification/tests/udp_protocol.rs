use std::collections::{HashMap, VecDeque};

use w5500::bus::{ActiveBus, TracedBus};
use w5500::net::Ipv4Addr;
use w5500::ring::{
    advance, check_buffer_size, free_space, read_wrapped, split_at_wrap, unread_bytes,
    write_wrapped,
};
use w5500::socket::Socket;
use w5500::udp::{parse_header, UdpSocket, UdpSocketError, HEADER_SIZE};

#[derive(Debug, Clone, PartialEq, Eq)]
enum Op {
    Read { block: u8, address: u16, len: usize },
    Write { block: u8, address: u16, data: Vec<u8> },
}

#[derive(Debug, PartialEq, Eq)]
struct Fault(usize);

const INTERRUPT: u16 = 0x0002;
const TX_WRITE_POINTER: u16 = 0x0024;
const RECEIVED_SIZE: u16 = 0x0026;
const RX_READ_POINTER: u16 = 0x0028;

/// A chip that keeps what is written to it, answers reads from what it
/// keeps, and can be told what to answer to the reads of two registers.
struct Chip {
    memory: HashMap<(u8, u16), u8>,
    ops: Vec<Op>,
    interrupts: VecDeque<u8>,
    sizes: VecDeque<u16>,
    fail_at: Option<usize>,
}

impl Chip {
    fn new() -> Chip {
        Chip {
            memory: HashMap::new(),
            ops: Vec::new(),
            interrupts: VecDeque::new(),
            sizes: VecDeque::new(),
            fail_at: None,
        }
    }

    fn store(&mut self, block: u8, address: u16, data: &[u8]) {
        for (i, byte) in data.iter().enumerate() {
            self.memory.insert((block, address.wrapping_add(i as u16)), *byte);
        }
    }

    fn load(&self, block: u8, address: u16, len: usize) -> Vec<u8> {
        (0..len)
            .map(|i| *self.memory.get(&(block, address.wrapping_add(i as u16))).unwrap_or(&0))
            .collect()
    }

    /// Lays a datagram into the receive ring of `size` bytes at `pointer`.
    fn arrive(
        &mut self,
        block: u8,
        pointer: u16,
        size: u16,
        source: [u8; 4],
        port: u16,
        payload: &[u8],
    ) {
        let mut bytes = source.to_vec();
        bytes.extend_from_slice(&port.to_be_bytes());
        bytes.extend_from_slice(&(payload.len() as u16).to_be_bytes());
        bytes.extend_from_slice(payload);
        for (i, byte) in bytes.iter().enumerate() {
            let place = (pointer as usize + i) % size as usize;
            self.memory.insert((block, place as u16), *byte);
        }
    }

    fn writes(&self) -> Vec<Op> {
        self.ops.iter().filter(|op| matches!(op, Op::Write { .. })).cloned().collect()
    }
}

impl ActiveBus for Chip {
    type Error = Fault;

    fn read_frame(&mut self, block: u8, address: u16, data: &mut [u8]) -> Result<(), Fault> {
        let n = self.ops.len();
        self.ops.push(Op::Read { block, address, len: data.len() });
        if self.fail_at == Some(n) {
            return Err(Fault(n));
        }
        let registers = block % 4 == 1;
        if registers && address == INTERRUPT && !self.interrupts.is_empty() {
            data[0] = self.interrupts.pop_front().unwrap_or(0);
        } else if registers && address == RECEIVED_SIZE && !self.sizes.is_empty() {
            data.copy_from_slice(&self.sizes.pop_front().unwrap_or(0).to_be_bytes());
        } else {
            data.copy_from_slice(&self.load(block, address, data.len()));
        }
        Ok(())
    }

    fn write_frame(&mut self, block: u8, address: u16, data: &[u8]) -> Result<(), Fault> {
        let n = self.ops.len();
        self.ops.push(Op::Write { block, address, data: data.to_vec() });
        if self.fail_at == Some(n) {
            return Err(Fault(n));
        }
        self.store(block, address, data);
        Ok(())
    }
}

fn traced(chip: Chip) -> TracedBus<Chip> {
    TracedBus::new(chip)
}

fn write(block: u8, address: u16, data: &[u8]) -> Op {
    Op::Write { block, address, data: data.to_vec() }
}

fn read(block: u8, address: u16, len: usize) -> Op {
    Op::Read { block, address, len }
}

fn udp(index: u8, size: u16, retries: u32) -> UdpSocket {
    match UdpSocket::new(Socket::new(index), size, retries) {
        Some(socket) => socket,
        None => panic!("{} is no buffer size", size),
    }
}

#[test]
fn buffer_sizes_are_the_powers_of_two() {
    let mut powers = 0;
    for size in 0u16..=65535 {
        let expected = size.is_power_of_two();
        assert_eq!(check_buffer_size(size), expected);
        if expected {
            powers += 1;
        }
    }
    assert_eq!(powers, 16);
    assert!(check_buffer_size(2048));
    assert!(check_buffer_size(1));
    assert!(check_buffer_size(32768));
    assert!(!check_buffer_size(0));
    assert!(!check_buffer_size(3000));
}

#[test]
fn udp_socket_takes_only_a_buffer_size_that_is_a_power_of_two() {
    assert!(UdpSocket::new(Socket::new(0), 2048, 10).is_some());
    assert!(UdpSocket::new(Socket::new(0), 16384, 10).is_some());
    assert!(UdpSocket::new(Socket::new(0), 0, 10).is_none());
    assert!(UdpSocket::new(Socket::new(0), 2047, 10).is_none());
    assert!(UdpSocket::new(Socket::new(0), 1500, 10).is_none());
    let socket = udp(3, 4096, 7);
    assert_eq!(socket.buffer_size(), 4096);
    assert_eq!(socket.send_retries(), 7);
    assert_eq!(socket.socket().index(), 3);
    assert_eq!(socket.release().index(), 3);
}

#[test]
fn pointer_advances_modulo_65536() {
    assert_eq!(advance(0, 3), 3);
    assert_eq!(advance(65530, 10), 4);
    assert_eq!(advance(65535, 1), 0);
    assert_eq!(advance(100, 65536), 100);
    assert_eq!(advance(100, 65536 + 8), 108);
    assert_eq!(advance(2040, 8 + 100), 2148);
    assert_eq!(advance(1, 0), 1);
}

#[test]
fn unread_bytes_is_the_distance_of_the_pointers_modulo_65536() {
    assert_eq!(unread_bytes(0, 0), 0);
    assert_eq!(unread_bytes(100, 111), 11);
    assert_eq!(unread_bytes(65530, 4), 10);
    assert_eq!(unread_bytes(65535, 0), 1);
    assert_eq!(unread_bytes(1, 0), 65535);
    for pointer in [0u16, 7, 2047, 40000, 65535] {
        for count in [0usize, 1, 8, 2048, 65535] {
            assert_eq!(unread_bytes(pointer, advance(pointer, count)) as usize, count);
        }
    }
}

#[test]
fn free_space_is_the_size_less_what_waits_to_be_sent() {
    assert_eq!(free_space(2048, 0, 0), 2048);
    assert_eq!(free_space(2048, 100, 103), 2045);
    assert_eq!(free_space(2048, 65530, 4), 2038);
    assert_eq!(free_space(2048, 0, 2048), 0);
    assert_eq!(free_space(16384, 0xFFFF, 0x0FFF), 16384 - 4096);
}

#[test]
fn advancing_a_pointer_advances_its_place_in_the_ring() {
    for size in [1u16, 2, 64, 2048, 32768] {
        for pointer in [0u16, 1, 63, 2047, 2048, 65530, 65535] {
            for count in [0usize, 1, 8, 10, 2048, 70000] {
                let before = split_at_wrap(pointer, size, 0).0 as usize;
                let after = split_at_wrap(advance(pointer, count), size, 0).0 as usize;
                assert_eq!(after, (before + count) % size as usize);
            }
        }
    }
}

#[test]
fn split_leaves_a_run_whole_when_it_fits() {
    assert_eq!(split_at_wrap(0, 2048, 3), (0, 3, 0));
    assert_eq!(split_at_wrap(2048, 2048, 3), (0, 3, 0));
    assert_eq!(split_at_wrap(100, 2048, 1948), (100, 1948, 0));
    assert_eq!(split_at_wrap(5000, 2048, 10), (904, 10, 0));
    assert_eq!(split_at_wrap(7, 2048, 0), (7, 0, 0));
}

#[test]
fn split_cuts_a_run_at_the_end_of_the_buffer() {
    assert_eq!(split_at_wrap(65530, 2048, 10), (2042, 6, 4));
    assert_eq!(split_at_wrap(2047, 2048, 2), (2047, 1, 1));
    assert_eq!(split_at_wrap(100, 2048, 1949), (100, 1948, 1));
    assert_eq!(split_at_wrap(4095, 4096, 100), (4095, 1, 99));
    assert_eq!(split_at_wrap(3, 1, 5), (0, 1, 4));
}

#[test]
fn wrapped_write_at_pointer_65530_of_ten_bytes() {
    let mut chip = Chip::new();
    let payload = [10u8, 11, 12, 13, 14, 15, 16, 17, 18, 19];
    let mut bus = traced(chip);
    assert_eq!(write_wrapped(&mut bus, 0x02, 65530, 2048, &payload), Ok(()));
    assert_eq!(
        bus.inner().ops,
        vec![write(0x02, 2042, &payload[..6]), write(0x02, 0, &payload[6..])]
    );
    let mut joined = Vec::new();
    for op in &bus.inner().ops {
        if let Op::Write { data, .. } = op {
            joined.extend_from_slice(data);
        }
    }
    assert_eq!(joined, payload);
}

#[test]
fn wrapped_write_reads_back_in_ring_order() {
    for size in [8u16, 64, 2048] {
        for pointer in [0u16, 1, 5, 7, 8, 63, 2047, 2048, 40000, 65530, 65535] {
            for len in [0usize, 1, 2, 7, 8] {
                let payload: Vec<u8> = (0..len).map(|i| (i * 7 + 1) as u8).collect();
                let mut chip = Chip::new();
                let mut bus = traced(chip);
                assert_eq!(write_wrapped(&mut bus, 0x06, pointer, size, &payload), Ok(()));
                let offset = pointer as usize % size as usize;
                let back: Vec<u8> = (0..len)
                    .map(|i| bus.inner().load(0x06, ((offset + i) % size as usize) as u16, 1)[0])
                    .collect();
                assert_eq!(back, payload);
                let mut again = vec![0u8; len];
                assert_eq!(read_wrapped(&mut bus, 0x06, pointer, size, &mut again), Ok(()));
                assert_eq!(again, payload);
            }
        }
    }
}

#[test]
fn wrapped_write_stops_at_a_failed_frame() {
    let mut chip = Chip::new();
    chip.fail_at = Some(0);
    let mut bus = traced(chip);
    assert_eq!(write_wrapped(&mut bus, 0x02, 2046, 2048, &[1, 2, 3, 4]), Err(Fault(0)));
    assert_eq!(bus.inner().ops, vec![write(0x02, 2046, &[1, 2])]);
    let mut chip = Chip::new();
    chip.fail_at = Some(1);
    let mut bus = traced(chip);
    assert_eq!(write_wrapped(&mut bus, 0x02, 2046, 2048, &[1, 2, 3, 4]), Err(Fault(1)));
    assert_eq!(
        bus.inner().ops,
        vec![write(0x02, 2046, &[1, 2]), write(0x02, 0, &[3, 4])]
    );
}

#[test]
fn header_holds_source_port_and_length() {
    assert_eq!(HEADER_SIZE, 8);
    let (source, port, length) = parse_header(&[192, 0, 2, 1, 0x27, 0x0F, 0x01, 0x02]);
    assert_eq!(source.octets(), [192, 0, 2, 1]);
    assert_eq!(port, 9999);
    assert_eq!(length, 258);
    let (source, port, length) = parse_header(&[255, 254, 253, 252, 0xFF, 0xFF, 0, 0]);
    assert_eq!(source.octets(), [255, 254, 253, 252]);
    assert_eq!(port, 65535);
    assert_eq!(length, 0);
}

#[test]
fn send_writes_destination_before_payload_and_pointer_before_command() {
    let mut chip = Chip::new();
    chip.interrupts.push_back(0x10);
    let socket = udp(0, 2048, 5);
    let mut bus = traced(chip);
    assert_eq!(socket.send(&mut bus, Ipv4Addr::new(192, 0, 2, 1), 9999, &[1, 2, 3]), Ok(()));
    assert_eq!(
        bus.inner().ops,
        vec![
            read(0x01, TX_WRITE_POINTER, 2),
            write(0x01, 0x000C, &[192, 0, 2, 1]),
            write(0x01, 0x0010, &[0x27, 0x0F]),
            write(0x02, 0, &[1, 2, 3]),
            write(0x01, TX_WRITE_POINTER, &[0, 3]),
            write(0x01, 0x0001, &[0x20]),
            read(0x01, INTERRUPT, 1),
            write(0x01, INTERRUPT, &[0x10]),
        ]
    );
}

#[test]
fn send_starts_where_the_chip_says_the_write_pointer_is() {
    let mut chip = Chip::new();
    chip.store(0x15, TX_WRITE_POINTER, &[0x12, 0x34]);
    chip.interrupts.push_back(0x10);
    let socket = udp(5, 2048, 5);
    let mut bus = traced(chip);
    assert_eq!(socket.send(&mut bus, Ipv4Addr::new(10, 1, 2, 3), 53, &[9; 4]), Ok(()));
    let writes = bus.inner().writes();
    assert_eq!(writes[2], write(0x16, 0x1234 % 2048, &[9; 4]));
    assert_eq!(writes[3], write(0x15, TX_WRITE_POINTER, &[0x12, 0x38]));
    assert_eq!(bus.inner().load(0x15, TX_WRITE_POINTER, 2), vec![0x12, 0x38]);
}

#[test]
fn send_splits_the_payload_round_the_end_of_the_buffer() {
    let mut chip = Chip::new();
    chip.store(0x01, TX_WRITE_POINTER, &[0xFF, 0xFA]);
    chip.interrupts.push_back(0x10);
    let payload = [1u8, 2, 3, 4, 5, 6, 7, 8, 9, 10];
    let socket = udp(0, 2048, 5);
    let mut bus = traced(chip);
    assert_eq!(socket.send(&mut bus, Ipv4Addr::new(192, 0, 2, 1), 9999, &payload), Ok(()));
    assert_eq!(
        bus.inner().ops[3..7],
        [
            write(0x02, 2042, &[1, 2, 3, 4, 5, 6]),
            write(0x02, 0, &[7, 8, 9, 10]),
            write(0x01, TX_WRITE_POINTER, &[0x00, 0x04]),
            write(0x01, 0x0001, &[0x20]),
        ]
    );
}

#[test]
fn send_of_an_empty_payload_leaves_the_pointer_where_it_was() {
    let mut chip = Chip::new();
    chip.store(0x01, TX_WRITE_POINTER, &[0x00, 0x40]);
    chip.interrupts.push_back(0x10);
    let socket = udp(0, 2048, 1);
    let mut bus = traced(chip);
    assert_eq!(socket.send(&mut bus, Ipv4Addr::new(192, 0, 2, 1), 7, &[]), Ok(()));
    assert_eq!(bus.inner().ops[3], write(0x02, 0x40, &[]));
    assert_eq!(bus.inner().ops[4], write(0x01, TX_WRITE_POINTER, &[0x00, 0x40]));
}

#[test]
fn send_polls_until_the_chip_reports_completion() {
    let mut chip = Chip::new();
    chip.interrupts.extend([0x00, 0x04, 0x14]);
    let socket = udp(0, 2048, 10);
    let mut bus = traced(chip);
    assert_eq!(socket.send(&mut bus, Ipv4Addr::new(192, 0, 2, 1), 9999, &[1]), Ok(()));
    assert_eq!(
        bus.inner().ops[6..],
        [
            read(0x01, INTERRUPT, 1),
            read(0x01, INTERRUPT, 1),
            read(0x01, INTERRUPT, 1),
            write(0x01, INTERRUPT, &[0x10]),
        ]
    );
}

#[test]
fn send_succeeds_when_the_last_poll_allowed_finds_the_flag() {
    let mut chip = Chip::new();
    chip.interrupts.extend([0x00, 0x00, 0x10]);
    let socket = udp(0, 2048, 3);
    let mut bus = traced(chip);
    assert_eq!(socket.send(&mut bus, Ipv4Addr::new(192, 0, 2, 1), 9999, &[1]), Ok(()));
    assert_eq!(bus.inner().ops.len(), 6 + 3 + 1);
}

#[test]
fn send_times_out_after_exactly_the_polls_allowed() {
    for retries in [0u32, 1, 3, 25] {
        let mut chip = Chip::new();
        let socket = udp(0, 2048, retries);
        let mut bus = traced(chip);
        assert_eq!(
            socket.send(&mut bus, Ipv4Addr::new(192, 0, 2, 1), 9999, &[1, 2, 3]),
            Err(UdpSocketError::SendTimeout)
        );
        assert_eq!(bus.inner().ops.len(), 6 + retries as usize);
        assert_eq!(bus.inner().ops[5], write(0x01, 0x0001, &[0x20]));
        for op in &bus.inner().ops[6..] {
            assert_eq!(*op, read(0x01, INTERRUPT, 1));
        }
    }
}

#[test]
fn send_stops_at_the_first_failed_frame() {
    for frame in 0..8 {
        let mut chip = Chip::new();
        chip.interrupts.push_back(0x10);
        chip.fail_at = Some(frame);
        let socket = udp(0, 2048, 5);
        let mut bus = traced(chip);
        assert_eq!(
            socket.send(&mut bus, Ipv4Addr::new(192, 0, 2, 1), 9999, &[1, 2, 3]),
            Err(UdpSocketError::Bus(Fault(frame)))
        );
        assert_eq!(bus.inner().ops.len(), frame + 1);
    }
}

#[test]
fn receive_reports_none_ready_when_nothing_has_arrived() {
    let mut chip = Chip::new();
    let socket = udp(0, 2048, 5);
    let mut buffer = [0xAAu8; 16];
    let mut bus = traced(chip);
    assert_eq!(socket.receive(&mut bus, &mut buffer), Ok(None));
    assert_eq!(bus.inner().ops, vec![read(0x01, RECEIVED_SIZE, 2), read(0x01, RECEIVED_SIZE, 2)]);
    assert_eq!(buffer, [0xAAu8; 16]);
}

#[test]
fn receive_reports_none_ready_while_the_size_is_changing() {
    let mut chip = Chip::new();
    chip.sizes.extend([12, 20]);
    let socket = udp(0, 2048, 5);
    let mut buffer = [0u8; 16];
    let mut bus = traced(chip);
    assert_eq!(socket.receive(&mut bus, &mut buffer), Ok(None));
    assert_eq!(bus.inner().ops.len(), 2);
}

#[test]
fn receive_copies_the_payload_and_acknowledges() {
    let mut chip = Chip::new();
    chip.arrive(0x03, 0, 2048, [192, 0, 2, 1], 9999, &[5, 6, 7]);
    chip.sizes.extend([11, 11]);
    let socket = udp(0, 2048, 5);
    let mut buffer = [0u8; 16];
    let mut bus = traced(chip);
    let received = socket.receive(&mut bus, &mut buffer);
    match received {
        Ok(Some((source, port, copied))) => {
            assert_eq!(source.octets(), [192, 0, 2, 1]);
            assert_eq!(port, 9999);
            assert_eq!(copied, 3);
        }
        other => panic!("no datagram: {:?}", other.map(|r| r.map(|d| (d.1, d.2)))),
    }
    assert_eq!(buffer[..3], [5, 6, 7]);
    assert_eq!(buffer[3..], [0u8; 13]);
    assert_eq!(
        bus.inner().ops,
        vec![
            read(0x01, RECEIVED_SIZE, 2),
            read(0x01, RECEIVED_SIZE, 2),
            read(0x01, RX_READ_POINTER, 2),
            read(0x03, 0, 8),
            read(0x03, 8, 3),
            write(0x01, RX_READ_POINTER, &[0, 11]),
            write(0x01, 0x0001, &[0x40]),
        ]
    );
}

#[test]
fn receive_into_a_short_buffer_copies_what_fits_and_skips_the_whole_datagram() {
    let mut chip = Chip::new();
    let payload: Vec<u8> = (1..=20).collect();
    chip.store(0x05, RX_READ_POINTER, &[0x01, 0x00]);
    chip.arrive(0x07, 0x0100, 2048, [10, 0, 0, 9], 4000, &payload);
    chip.sizes.extend([28, 28]);
    let socket = udp(1, 2048, 5);
    let mut buffer = [0u8; 5];
    let mut bus = traced(chip);
    match socket.receive(&mut bus, &mut buffer) {
        Ok(Some((source, port, copied))) => {
            assert_eq!(source.octets(), [10, 0, 0, 9]);
            assert_eq!(port, 4000);
            assert_eq!(copied, 5);
        }
        _ => panic!("no datagram"),
    }
    assert_eq!(buffer, [1, 2, 3, 4, 5]);
    assert_eq!(bus.inner().ops[4], read(0x07, 0x0108, 5));
    assert_eq!(bus.inner().ops[5], write(0x05, RX_READ_POINTER, &[0x01, 0x1C]));
    assert_eq!(bus.inner().load(0x05, RX_READ_POINTER, 2), vec![0x01, 0x1C]);
}

#[test]
fn receive_into_an_empty_buffer_still_skips_the_datagram() {
    let mut chip = Chip::new();
    chip.arrive(0x03, 0, 2048, [192, 0, 2, 1], 9999, &[5, 6, 7]);
    chip.sizes.extend([11, 11]);
    let socket = udp(0, 2048, 5);
    let mut buffer = [0u8; 0];
    let mut bus = traced(chip);
    match socket.receive(&mut bus, &mut buffer) {
        Ok(Some((_, _, copied))) => assert_eq!(copied, 0),
        _ => panic!("no datagram"),
    }
    assert_eq!(bus.inner().ops[4], read(0x03, 8, 0));
    assert_eq!(bus.inner().ops[5], write(0x01, RX_READ_POINTER, &[0, 11]));
}

#[test]
fn receive_reads_header_and_payload_round_the_end_of_the_buffer() {
    let mut chip = Chip::new();
    chip.store(0x01, RX_READ_POINTER, &[0xFF, 0xFC]);
    chip.arrive(0x03, 0xFFFC, 2048, [172, 16, 0, 5], 1234, &[1, 2, 3, 4, 5, 6]);
    chip.sizes.extend([14, 14]);
    let socket = udp(0, 2048, 5);
    let mut buffer = [0u8; 32];
    let mut bus = traced(chip);
    match socket.receive(&mut bus, &mut buffer) {
        Ok(Some((source, port, copied))) => {
            assert_eq!(source.octets(), [172, 16, 0, 5]);
            assert_eq!(port, 1234);
            assert_eq!(copied, 6);
        }
        _ => panic!("no datagram"),
    }
    assert_eq!(buffer[..6], [1, 2, 3, 4, 5, 6]);
    assert_eq!(
        bus.inner().ops[3..],
        [
            read(0x03, 2044, 4),
            read(0x03, 0, 4),
            read(0x03, 4, 6),
            write(0x01, RX_READ_POINTER, &[0x00, 0x0A]),
            write(0x01, 0x0001, &[0x40]),
        ]
    );
}

#[test]
fn receive_splits_the_payload_round_the_end_of_the_buffer() {
    let mut chip = Chip::new();
    chip.store(0x01, RX_READ_POINTER, &[0x07, 0xF4]);
    chip.arrive(0x03, 0x07F4, 2048, [172, 16, 0, 5], 1234, &[1, 2, 3, 4, 5, 6]);
    chip.sizes.extend([14, 14]);
    let socket = udp(0, 2048, 5);
    let mut buffer = [0u8; 6];
    let mut bus = traced(chip);
    match socket.receive(&mut bus, &mut buffer) {
        Ok(Some((_, _, copied))) => assert_eq!(copied, 6),
        _ => panic!("no datagram"),
    }
    assert_eq!(buffer, [1, 2, 3, 4, 5, 6]);
    assert_eq!(
        bus.inner().ops[3..6],
        [read(0x03, 2036, 8), read(0x03, 2044, 4), read(0x03, 0, 2)]
    );
}

#[test]
fn receive_stops_at_the_first_failed_frame() {
    for frame in 0..7 {
        let mut chip = Chip::new();
        chip.arrive(0x03, 0, 2048, [192, 0, 2, 1], 9999, &[5, 6, 7]);
        chip.sizes.extend([11, 11]);
        chip.fail_at = Some(frame);
        let socket = udp(0, 2048, 5);
        let mut buffer = [0u8; 16];
        let mut bus = traced(chip);
        match socket.receive(&mut bus, &mut buffer) {
            Err(fault) => assert_eq!(fault, Fault(frame)),
            Ok(_) => panic!("frame {} did not fail", frame),
        }
        assert_eq!(bus.inner().ops.len(), frame + 1);
    }
}

#[test]
fn what_is_sent_can_be_received_through_the_ring() {
    let mut chip = Chip::new();
    chip.store(0x01, TX_WRITE_POINTER, &[0x07, 0xFE]);
    chip.interrupts.push_back(0x10);
    let socket = udp(0, 2048, 5);
    let payload = [0xDEu8, 0xAD, 0xBE, 0xEF, 0x01];
    let mut bus = traced(chip);
    assert_eq!(socket.send(&mut bus, Ipv4Addr::new(192, 0, 2, 1), 9999, &payload), Ok(()));
    let mut back = [0u8; 5];
    assert_eq!(read_wrapped(&mut bus, 0x02, 0x07FE, 2048, &mut back), Ok(()));
    assert_eq!(back, payload);
}
