use std::cell::RefCell;
use std::collections::VecDeque;
use std::rc::Rc;

use w5500::bus::wires::{BusSelect, ByteExchange};
use w5500::bus::{
    control_byte, decode_header, encode_header, ActiveBus, ActiveFourWire, Direction, TracedBus,
};
use w5500::register::socketn::{Command, Protocol};
use w5500::socket::Socket;

#[derive(Debug, Clone, PartialEq, Eq)]
enum Event {
    Select,
    Release,
    Sent(u8),
    Failed(u8),
}

#[derive(Debug, PartialEq, Eq)]
struct LinkDown;

#[derive(Default)]
struct Wires {
    events: Vec<Event>,
    replies: VecDeque<u8>,
    fail_at_exchange: Option<usize>,
    exchanges: usize,
}

struct Link(Rc<RefCell<Wires>>);

struct Select(Rc<RefCell<Wires>>);

impl ByteExchange for Link {
    type Error = LinkDown;

    fn exchange(&mut self, byte: u8) -> Result<u8, LinkDown> {
        let mut wires = self.0.borrow_mut();
        let n = wires.exchanges;
        wires.exchanges += 1;
        if wires.fail_at_exchange == Some(n) {
            wires.events.push(Event::Failed(byte));
            return Err(LinkDown);
        }
        wires.events.push(Event::Sent(byte));
        Ok(wires.replies.pop_front().unwrap_or(0))
    }
}

impl BusSelect for Select {
    fn select(&mut self) {
        self.0.borrow_mut().events.push(Event::Select);
    }

    fn release(&mut self) {
        self.0.borrow_mut().events.push(Event::Release);
    }
}

fn wired(
    replies: &[u8],
    fail_at_exchange: Option<usize>,
) -> (Rc<RefCell<Wires>>, ActiveFourWire<Link, Select>) {
    let wires = Rc::new(RefCell::new(Wires {
        events: Vec::new(),
        replies: replies.iter().copied().collect(),
        fail_at_exchange,
        exchanges: 0,
    }));
    let bus = ActiveFourWire::new(Link(wires.clone()), Select(wires.clone()));
    (wires, bus)
}

#[test]
fn control_byte_holds_block_direction_and_variable_length_mode() {
    assert_eq!(control_byte(0, Direction::Read), 0b0000_0000);
    assert_eq!(control_byte(0, Direction::Write), 0b0000_0100);
    assert_eq!(control_byte(1, Direction::Read), 0b0000_1000);
    assert_eq!(control_byte(1, Direction::Write), 0b0000_1100);
    assert_eq!(control_byte(0x0B, Direction::Write), 0b0101_1100);
    assert_eq!(control_byte(31, Direction::Read), 0b1111_1000);
    assert_eq!(control_byte(31, Direction::Write), 0b1111_1100);
}

#[test]
fn control_byte_keeps_only_five_bits_of_the_block() {
    assert_eq!(control_byte(32, Direction::Read), control_byte(0, Direction::Read));
    assert_eq!(control_byte(0xFF, Direction::Write), control_byte(31, Direction::Write));
}

#[test]
fn header_is_offset_big_endian_then_control() {
    assert_eq!(encode_header(1, 0x0024, Direction::Read), [0x00, 0x24, 0x08]);
    assert_eq!(encode_header(2, 0x07FA, Direction::Write), [0x07, 0xFA, 0x14]);
    assert_eq!(encode_header(0, 0xFFFF, Direction::Write), [0xFF, 0xFF, 0x04]);
}

#[test]
fn decode_header_reads_back_every_block_and_direction() {
    for block in 0u8..32 {
        for direction in [Direction::Read, Direction::Write] {
            for address in [0u16, 1, 0x00FF, 0x0100, 0x1234, 0xFFFF] {
                let header = encode_header(block, address, direction);
                assert_eq!(decode_header(header), (block, address, direction));
            }
        }
    }
}

#[test]
fn write_frame_sends_header_then_data_between_select_and_release() {
    let (wires, mut bus) = wired(&[], None);
    assert_eq!(bus.write_frame(0x05, 0x0010, &[0x27, 0x0F]), Ok(()));
    assert_eq!(
        wires.borrow().events,
        vec![
            Event::Select,
            Event::Sent(0x00),
            Event::Sent(0x10),
            Event::Sent(0x2C),
            Event::Sent(0x27),
            Event::Sent(0x0F),
            Event::Release,
        ]
    );
}

#[test]
fn write_frame_without_data_is_header_only() {
    let (wires, mut bus) = wired(&[], None);
    assert_eq!(bus.write_frame(0x02, 0x0000, &[]), Ok(()));
    assert_eq!(
        wires.borrow().events,
        vec![Event::Select, Event::Sent(0x00), Event::Sent(0x00), Event::Sent(0x14), Event::Release]
    );
}

#[test]
fn read_frame_fills_buffer_with_replies_after_the_header() {
    let (wires, mut bus) = wired(&[0xA0, 0xA1, 0xA2, 0x12, 0x34], None);
    let mut data = [0u8; 2];
    assert_eq!(bus.read_frame(0x01, 0x0026, &mut data), Ok(()));
    assert_eq!(data, [0x12, 0x34]);
    assert_eq!(
        wires.borrow().events,
        vec![
            Event::Select,
            Event::Sent(0x00),
            Event::Sent(0x26),
            Event::Sent(0x08),
            Event::Sent(0x00),
            Event::Sent(0x00),
            Event::Release,
        ]
    );
}

#[test]
fn read_frame_shifts_out_what_the_buffer_held() {
    let (wires, mut bus) = wired(&[0, 0, 0, 9, 8, 7], None);
    let mut data = [0x11u8, 0x22, 0x33];
    assert_eq!(bus.read_frame(0x03, 0x0100, &mut data), Ok(()));
    assert_eq!(data, [9, 8, 7]);
    assert_eq!(
        wires.borrow().events[4..7],
        [Event::Sent(0x11), Event::Sent(0x22), Event::Sent(0x33)]
    );
}

#[test]
fn failure_in_the_data_releases_select_and_stops_the_frame() {
    let (wires, mut bus) = wired(&[], Some(4));
    assert_eq!(bus.write_frame(0x01, 0x0001, &[1, 2, 3]), Err(LinkDown));
    assert_eq!(
        wires.borrow().events,
        vec![
            Event::Select,
            Event::Sent(0x00),
            Event::Sent(0x01),
            Event::Sent(0x0C),
            Event::Sent(1),
            Event::Failed(2),
            Event::Release,
        ]
    );
}

#[test]
fn failure_in_the_header_releases_select_and_sends_no_data() {
    let (wires, mut bus) = wired(&[], Some(1));
    assert_eq!(bus.write_frame(0x01, 0x0001, &[1, 2, 3]), Err(LinkDown));
    assert_eq!(
        wires.borrow().events,
        vec![Event::Select, Event::Sent(0x00), Event::Failed(0x01), Event::Release]
    );
}

#[test]
fn failed_read_keeps_the_bytes_that_arrived_and_leaves_the_rest() {
    let (wires, mut bus) = wired(&[0, 0, 0, 0x55, 0x66], Some(5));
    let mut data = [0xEEu8; 4];
    assert_eq!(bus.read_frame(0x03, 0x0000, &mut data), Err(LinkDown));
    assert_eq!(data, [0x55, 0x66, 0xEE, 0xEE]);
    assert_eq!(wires.borrow().events.last(), Some(&Event::Release));
    assert_eq!(wires.borrow().events.len(), 8);
}

#[test]
fn frames_do_not_interleave_each_has_its_own_select_and_release() {
    let (wires, mut bus) = wired(&[], None);
    assert_eq!(bus.write_frame(0x01, 0x0000, &[2]), Ok(()));
    assert_eq!(bus.write_frame(0x01, 0x0001, &[1]), Ok(()));
    let events = wires.borrow().events.clone();
    assert_eq!(events.len(), 12);
    assert_eq!(events[0], Event::Select);
    assert_eq!(events[5], Event::Release);
    assert_eq!(events[6], Event::Select);
    assert_eq!(events[11], Event::Release);
}

#[test]
fn release_gives_back_link_and_select_line() {
    let (wires, mut bus) = wired(&[], None);
    assert_eq!(bus.write_frame(0x00, 0x0000, &[]), Ok(()));
    let (mut link, mut select) = bus.release();
    select.select();
    assert_eq!(link.exchange(0x5A), Ok(0));
    select.release();
    assert_eq!(
        wires.borrow().events[5..],
        [Event::Select, Event::Sent(0x5A), Event::Release]
    );
}

#[test]
fn socket_operations_reach_the_wires_as_single_frames() {
    let (wires, bus) = wired(&[], None);
    let mut bus = TracedBus::new(bus);
    let socket = Socket::new(1);
    assert_eq!(socket.set_mode(&mut bus, Protocol::Udp), Ok(()));
    assert_eq!(socket.set_source_port(&mut bus, 0x1234), Ok(()));
    assert_eq!(socket.command(&mut bus, Command::Open), Ok(()));
    assert_eq!(
        wires.borrow().events,
        vec![
            Event::Select,
            Event::Sent(0x00),
            Event::Sent(0x00),
            Event::Sent(0x2C),
            Event::Sent(0x02),
            Event::Release,
            Event::Select,
            Event::Sent(0x00),
            Event::Sent(0x04),
            Event::Sent(0x2C),
            Event::Sent(0x12),
            Event::Sent(0x34),
            Event::Release,
            Event::Select,
            Event::Sent(0x00),
            Event::Sent(0x01),
            Event::Sent(0x2C),
            Event::Sent(0x01),
            Event::Release,
        ]
    );
}

#[test]
fn a_pointer_is_read_from_the_two_bytes_after_the_header() {
    let (wires, bus) = wired(&[0x01, 0x02, 0x03, 0xFF, 0xFA], None);
    let mut bus = TracedBus::new(bus);
    assert_eq!(Socket::new(0).get_tx_write_pointer(&mut bus), Ok(65530));
    assert_eq!(
        wires.borrow().events[..4],
        [Event::Select, Event::Sent(0x00), Event::Sent(0x24), Event::Sent(0x08)]
    );
    let (_link, _select) = bus.release().release();
    assert_eq!(wires.borrow().events.len(), 7);
}

#[test]
fn a_failed_exchange_surfaces_from_a_socket_operation_after_release() {
    let (wires, bus) = wired(&[], Some(3));
    let mut bus = TracedBus::new(bus);
    assert_eq!(Socket::new(0).set_mode(&mut bus, Protocol::Tcp), Err(LinkDown));
    assert_eq!(wires.borrow().events.last(), Some(&Event::Release));
    assert_eq!(wires.borrow().events[4], Event::Failed(0x01));
}
