//! One hardware socket: a handle on its three blocks and the operations on
//! its registers.
//!
//! A `Socket` holds nothing but its index. No register value is kept in host
//! memory between calls: the chip changes its pointers and counters on its
//! own as packets come and go, so every operation goes to the chip.

use crate::bus::{error_of, failed_in, fetched_once, ActiveBus, Direction, Frame, TracedBus};
use crate::bytes::{be16_bytes, be16_of, lemma_be16_round_trip, u16_from_be, u16_to_be};
use crate::net::Ipv4Addr;
use crate::register::socketn;
use crate::register::{register_block, rx_buffer_block, tx_buffer_block, SOCKET_COUNT};
use vstd::prelude::*;

verus! {

/// Smallest number of received bytes that can hold a datagram: the eight bytes
/// of the header that the chip puts before each payload.
pub const MIN_RECEIVE_SIZE: u16 = 8;

/// What one stabilisation round makes of its two samples of the received-size
/// register: the size, when both samples agree and a datagram header fits in
/// it, and nothing otherwise.
pub open spec fn accepted_size(first: u16, second: u16) -> Option<u16> {
    if first == second && first >= MIN_RECEIVE_SIZE {
        Some(first)
    } else {
        None
    }
}

/// Decides one stabilisation round from its two samples.
pub fn accept_size(first: u16, second: u16) -> (size: Option<u16>)
    ensures
        size == accepted_size(first, second),
{
    if first == second && first >= MIN_RECEIVE_SIZE {
        Some(first)
    } else {
        None
    }
}

/// No round of `samples` gave a size.
pub open spec fn all_rejected(samples: Seq<(u16, u16)>) -> bool {
    forall|i: int|
        0 <= i < samples.len() ==> accepted_size(
            (#[trigger] samples[i]).0,
            samples[i].1,
        ) is None
}

/// The frames of the stabilisation rounds that sampled `samples`: for each
/// round two reads of the received-size register in `block`, which brought
/// the two values of the round.
pub open spec fn size_rounds<E>(block: u8, samples: Seq<(u16, u16)>) -> Seq<Frame<E>> {
    Seq::new(
        2 * samples.len(),
        |i: int|
            Frame::fetched(
                block,
                socketn::RECEIVED_SIZE,
                be16_bytes(
                    if i % 2 == 0 {
                        samples[i / 2].0
                    } else {
                        samples[i / 2].1
                    },
                ),
            ),
    )
}

/// One more round adds its two reads to the frames of the rounds before it.
pub proof fn lemma_size_rounds_push<E>(block: u8, samples: Seq<(u16, u16)>, round: (u16, u16))
    ensures
        size_rounds::<E>(block, samples.push(round)) == size_rounds::<E>(block, samples) + seq![
            Frame::fetched(block, socketn::RECEIVED_SIZE, be16_bytes(round.0)),
            Frame::fetched(block, socketn::RECEIVED_SIZE, be16_bytes(round.1)),
        ],
        size_rounds::<E>(block, samples.push(round)).take(2 * samples.len() as int)
            == size_rounds::<E>(block, samples),
{
    let longer = size_rounds::<E>(block, samples.push(round));
    let two = seq![
        Frame::<E>::fetched(block, socketn::RECEIVED_SIZE, be16_bytes(round.0)),
        Frame::<E>::fetched(block, socketn::RECEIVED_SIZE, be16_bytes(round.1)),
    ];
    assert(longer =~= size_rounds::<E>(block, samples) + two);
    assert(longer.take(2 * samples.len() as int) =~= size_rounds::<E>(block, samples));
}

/// A read of two bytes that succeeded is the read that brought the value of
/// those two bytes.
pub proof fn lemma_fetched_u16<E>(frame: Frame<E>)
    requires
        frame.direction == Direction::Read,
        frame.data.len() == 2,
        frame.error is None,
    ensures
        frame == Frame::<E>::fetched(frame.block, frame.address, be16_bytes(be16_of(frame.data))),
{
    lemma_be16_round_trip(0, frame.data[0], frame.data[1]);
    assert(frame.data =~= seq![frame.data[0], frame.data[1]]);
}

/// A single read of a two-byte register seen as a run of one frame: it either
/// went through and brought `value`, or failed in the run that would have
/// brought `guess`.
pub proof fn lemma_read_is_run<E>(
    before: Seq<Frame<E>>,
    after: Seq<Frame<E>>,
    block: u8,
    address: u16,
    result: Result<u16, E>,
    guess: u16,
)
    requires
        fetched_once(before, after, block, address, 2),
        match result {
            Ok(value) => after.last().error is None && value == be16_of(after.last().data),
            Err(e) => after.last().error == Some(e),
        },
    ensures
        result matches Ok(value) ==> after == before + seq![
            Frame::<E>::fetched(block, address, be16_bytes(value)),
        ],
        result matches Err(e) ==> failed_in(
            before,
            after,
            seq![Frame::<E>::fetched(block, address, be16_bytes(guess))],
            e,
        ),
{
    let run = seq![Frame::<E>::fetched(block, address, be16_bytes(guess))];
    assert(after.drop_last() =~= before + run.take(0));
    if result is Ok {
        lemma_fetched_u16(after.last());
        assert(after =~= before + seq![
            Frame::<E>::fetched(block, address, be16_bytes(result->Ok_0)),
        ]);
    }
}

/// Handle on one of the eight hardware sockets.
#[derive(Debug)]
pub struct Socket {
    index: u8,
}

impl Socket {
    #[verifier::type_invariant]
    spec fn index_in_range(self) -> bool {
        self.index < SOCKET_COUNT
    }

    /// The handle on socket `index`.
    pub fn new(index: u8) -> (socket: Self)
        requires
            index < SOCKET_COUNT,
        ensures
            socket.index() == index,
    {
        Socket { index }
    }

    pub closed spec fn spec_index(&self) -> u8 {
        self.index
    }

    /// The index of this socket, 0 to 7.
    #[verifier::when_used_as_spec(spec_index)]
    pub fn index(&self) -> (index: u8)
        ensures
            index == self.index(),
            index < SOCKET_COUNT,
    {
        proof {
            use_type_invariant(self);
        }
        self.index
    }

    pub open spec fn spec_register(&self) -> u8 {
        register_block(self.index()) as u8
    }

    /// Block-select value of this socket's registers.
    #[verifier::when_used_as_spec(spec_register)]
    pub fn register(&self) -> (block: u8)
        ensures
            block == register_block(self.index()),
            block == self.register(),
    {
        proof {
            use_type_invariant(self);
        }
        (self.index * 4) + 1
    }

    pub open spec fn spec_tx_buffer(&self) -> u8 {
        tx_buffer_block(self.index()) as u8
    }

    /// Block-select value of this socket's transmit buffer.
    #[verifier::when_used_as_spec(spec_tx_buffer)]
    pub fn tx_buffer(&self) -> (block: u8)
        ensures
            block == tx_buffer_block(self.index()),
            block == self.tx_buffer(),
    {
        proof {
            use_type_invariant(self);
        }
        (self.index * 4) + 2
    }

    pub open spec fn spec_rx_buffer(&self) -> u8 {
        rx_buffer_block(self.index()) as u8
    }

    /// Block-select value of this socket's receive buffer.
    #[verifier::when_used_as_spec(spec_rx_buffer)]
    pub fn rx_buffer(&self) -> (block: u8)
        ensures
            block == rx_buffer_block(self.index()),
            block == self.rx_buffer(),
    {
        proof {
            use_type_invariant(self);
        }
        (self.index * 4) + 3
    }

    /// `after` is `before` followed by one write of `data` to the register at
    /// `address` of this socket, which ended with `result`.
    pub open spec fn wrote<E>(
        &self,
        before: Seq<Frame<E>>,
        after: Seq<Frame<E>>,
        address: u16,
        data: Seq<u8>,
        result: Result<(), E>,
    ) -> bool {
        after == before.push(
            Frame {
                direction: Direction::Write,
                block: self.register(),
                address,
                data,
                error: error_of(result),
            },
        )
    }

    /// `after` is `before` followed by one read of the two-byte register at
    /// `address` of this socket, and `result` is the value that the chip
    /// answered, or the error of the frame.
    pub open spec fn read_u16<E>(
        &self,
        before: Seq<Frame<E>>,
        after: Seq<Frame<E>>,
        address: u16,
        result: Result<u16, E>,
    ) -> bool {
        &&& fetched_once(before, after, self.register(), address, 2)
        &&& match result {
            Ok(value) => after.last().error is None && value == be16_of(after.last().data),
            Err(e) => after.last().error == Some(e),
        }
    }

    fn write_u16<SpiBus: ActiveBus>(
        &self,
        bus: &mut TracedBus<SpiBus>,
        address: u16,
        value: u16,
    ) -> (result: Result<(), SpiBus::Error>)
        ensures
            self.wrote(old(bus).frames(), final(bus).frames(), address, be16_bytes(value), result),
    {
        let data = u16_to_be(value);
        bus.write_frame(self.register(), address, data.as_slice())
    }

    fn fetch_u16<SpiBus: ActiveBus>(
        &self,
        bus: &mut TracedBus<SpiBus>,
        address: u16,
    ) -> (result: Result<u16, SpiBus::Error>)
        ensures
            self.read_u16(old(bus).frames(), final(bus).frames(), address, result),
    {
        let mut data = [0u8; 2];
        match bus.read_frame(self.register(), address, &mut data) {
            Ok(()) => Ok(u16_from_be(data)),
            Err(e) => Err(e),
        }
    }

    /// Writes the protocol to the mode register.
    pub fn set_mode<SpiBus: ActiveBus>(
        &self,
        bus: &mut TracedBus<SpiBus>,
        mode: socketn::Protocol,
    ) -> (result: Result<(), SpiBus::Error>)
        ensures
            self.wrote(
                old(bus).frames(),
                final(bus).frames(),
                socketn::MODE,
                seq![mode.bits()],
                result,
            ),
    {
        let mode = [mode.to_u8()];
        assert(mode@ =~= seq![mode[0]]);
        bus.write_frame(self.register(), socketn::MODE, mode.as_slice())
    }

    /// Clears the interrupt flags of `code` by writing their bits to the
    /// interrupt register.
    pub fn reset_interrupt<SpiBus: ActiveBus>(
        &self,
        bus: &mut TracedBus<SpiBus>,
        code: socketn::Interrupt,
    ) -> (result: Result<(), SpiBus::Error>)
        ensures
            self.wrote(
                old(bus).frames(),
                final(bus).frames(),
                socketn::INTERRUPT,
                seq![code.bits()],
                result,
            ),
    {
        let data = [code.to_u8()];
        assert(data@ =~= seq![data[0]]);
        bus.write_frame(self.register(), socketn::INTERRUPT, data.as_slice())
    }

    /// Reads the interrupt register and tells whether any bit of `code` is set
    /// in it.
    pub fn has_interrupt<SpiBus: ActiveBus>(
        &self,
        bus: &mut TracedBus<SpiBus>,
        code: socketn::Interrupt,
    ) -> (result: Result<bool, SpiBus::Error>)
        ensures
            fetched_once(
                old(bus).frames(),
                final(bus).frames(),
                self.register(),
                socketn::INTERRUPT,
                1,
            ),
            match result {
                Ok(set) => final(bus).frames().last().error is None && set == socketn::has_flag(
                    final(bus).frames().last().data[0],
                    code.bits(),
                ),
                Err(e) => final(bus).frames().last().error == Some(e),
            },
    {
        let mut data = [0u8];
        match bus.read_frame(self.register(), socketn::INTERRUPT, &mut data) {
            Ok(()) => Ok(data[0] & code.to_u8() != 0),
            Err(e) => Err(e),
        }
    }

    /// Writes the local port.
    pub fn set_source_port<SpiBus: ActiveBus>(
        &self,
        bus: &mut TracedBus<SpiBus>,
        port: u16,
    ) -> (result: Result<(), SpiBus::Error>)
        ensures
            self.wrote(
                old(bus).frames(),
                final(bus).frames(),
                socketn::SOURCE_PORT,
                be16_bytes(port),
                result,
            ),
    {
        self.write_u16(bus, socketn::SOURCE_PORT, port)
    }

    /// Writes the address of the peer.
    pub fn set_destination_ip<SpiBus: ActiveBus>(
        &self,
        bus: &mut TracedBus<SpiBus>,
        ip: Ipv4Addr,
    ) -> (result: Result<(), SpiBus::Error>)
        ensures
            self.wrote(
                old(bus).frames(),
                final(bus).frames(),
                socketn::DESTINATION_IP,
                ip@,
                result,
            ),
    {
        let data = ip.octets();
        bus.write_frame(self.register(), socketn::DESTINATION_IP, data.as_slice())
    }

    /// Writes the port of the peer.
    pub fn set_destination_port<SpiBus: ActiveBus>(
        &self,
        bus: &mut TracedBus<SpiBus>,
        port: u16,
    ) -> (result: Result<(), SpiBus::Error>)
        ensures
            self.wrote(
                old(bus).frames(),
                final(bus).frames(),
                socketn::DESTINATION_PORT,
                be16_bytes(port),
                result,
            ),
    {
        self.write_u16(bus, socketn::DESTINATION_PORT, port)
    }

    /// Reads the transmit read pointer.
    pub fn get_tx_read_pointer<SpiBus: ActiveBus>(
        &self,
        bus: &mut TracedBus<SpiBus>,
    ) -> (result: Result<u16, SpiBus::Error>)
        ensures
            self.read_u16(
                old(bus).frames(),
                final(bus).frames(),
                socketn::TX_DATA_READ_POINTER,
                result,
            ),
    {
        self.fetch_u16(bus, socketn::TX_DATA_READ_POINTER)
    }

    /// Writes the transmit read pointer.
    pub fn set_tx_read_pointer<SpiBus: ActiveBus>(
        &self,
        bus: &mut TracedBus<SpiBus>,
        pointer: u16,
    ) -> (result: Result<(), SpiBus::Error>)
        ensures
            self.wrote(
                old(bus).frames(),
                final(bus).frames(),
                socketn::TX_DATA_READ_POINTER,
                be16_bytes(pointer),
                result,
            ),
    {
        self.write_u16(bus, socketn::TX_DATA_READ_POINTER, pointer)
    }

    /// Reads the transmit write pointer.
    pub fn get_tx_write_pointer<SpiBus: ActiveBus>(
        &self,
        bus: &mut TracedBus<SpiBus>,
    ) -> (result: Result<u16, SpiBus::Error>)
        ensures
            self.read_u16(
                old(bus).frames(),
                final(bus).frames(),
                socketn::TX_DATA_WRITE_POINTER,
                result,
            ),
    {
        self.fetch_u16(bus, socketn::TX_DATA_WRITE_POINTER)
    }

    /// Writes the transmit write pointer.
    pub fn set_tx_write_pointer<SpiBus: ActiveBus>(
        &self,
        bus: &mut TracedBus<SpiBus>,
        pointer: u16,
    ) -> (result: Result<(), SpiBus::Error>)
        ensures
            self.wrote(
                old(bus).frames(),
                final(bus).frames(),
                socketn::TX_DATA_WRITE_POINTER,
                be16_bytes(pointer),
                result,
            ),
    {
        self.write_u16(bus, socketn::TX_DATA_WRITE_POINTER, pointer)
    }

    /// Reads the receive read pointer.
    pub fn get_rx_read_pointer<SpiBus: ActiveBus>(
        &self,
        bus: &mut TracedBus<SpiBus>,
    ) -> (result: Result<u16, SpiBus::Error>)
        ensures
            self.read_u16(
                old(bus).frames(),
                final(bus).frames(),
                socketn::RX_DATA_READ_POINTER,
                result,
            ),
    {
        self.fetch_u16(bus, socketn::RX_DATA_READ_POINTER)
    }

    /// Writes the receive read pointer.
    pub fn set_rx_read_pointer<SpiBus: ActiveBus>(
        &self,
        bus: &mut TracedBus<SpiBus>,
        pointer: u16,
    ) -> (result: Result<(), SpiBus::Error>)
        ensures
            self.wrote(
                old(bus).frames(),
                final(bus).frames(),
                socketn::RX_DATA_READ_POINTER,
                be16_bytes(pointer),
                result,
            ),
    {
        self.write_u16(bus, socketn::RX_DATA_READ_POINTER, pointer)
    }

    /// Writes the interrupt mask.
    pub fn set_interrupt_mask<SpiBus: ActiveBus>(
        &self,
        bus: &mut TracedBus<SpiBus>,
        mask: u8,
    ) -> (result: Result<(), SpiBus::Error>)
        ensures
            self.wrote(
                old(bus).frames(),
                final(bus).frames(),
                socketn::INTERRUPT_MASK,
                seq![mask],
                result,
            ),
    {
        let data = [mask];
        assert(data@ =~= seq![mask]);
        bus.write_frame(self.register(), socketn::INTERRUPT_MASK, data.as_slice())
    }

    /// Writes a command to the command register.
    pub fn command<SpiBus: ActiveBus>(
        &self,
        bus: &mut TracedBus<SpiBus>,
        command: socketn::Command,
    ) -> (result: Result<(), SpiBus::Error>)
        ensures
            self.wrote(
                old(bus).frames(),
                final(bus).frames(),
                socketn::COMMAND,
                seq![command.bits()],
                result,
            ),
    {
        let data = [command.to_u8()];
        assert(data@ =~= seq![data[0]]);
        bus.write_frame(self.register(), socketn::COMMAND, data.as_slice())
    }

    /// Samples the received-size register until it holds still, for at most
    /// `rounds` rounds.
    ///
    /// The chip updates the register while a packet comes in, so a single read
    /// can catch it in the middle of an update. A round reads the register
    /// twice in a row. The first round whose two samples agree on a size of at
    /// least [`MIN_RECEIVE_SIZE`] ends the sampling with that size. When none
    /// of the `rounds` rounds does, the result is `None`. A frame that fails
    /// ends the sampling with its error.
    pub fn get_receive_size<SpiBus: ActiveBus>(
        &self,
        bus: &mut TracedBus<SpiBus>,
        rounds: u32,
    ) -> (result: Result<Option<u16>, SpiBus::Error>)
        ensures
            match result {
                Ok(Some(size)) => exists|samples: Seq<(u16, u16)>|
                    {
                        &&& 0 < samples.len() <= rounds
                        &&& all_rejected(samples.drop_last())
                        &&& accepted_size(samples.last().0, samples.last().1) == Some(size)
                        &&& final(bus).frames() == old(bus).frames() + #[trigger] size_rounds::<
                            SpiBus::Error,
                        >(self.register(), samples)
                    },
                Ok(None) => exists|samples: Seq<(u16, u16)>|
                    {
                        &&& samples.len() == rounds
                        &&& all_rejected(samples)
                        &&& final(bus).frames() == old(bus).frames() + #[trigger] size_rounds::<
                            SpiBus::Error,
                        >(self.register(), samples)
                    },
                Err(e) => exists|samples: Seq<(u16, u16)>|
                    {
                        &&& 0 < samples.len() <= rounds
                        &&& all_rejected(samples.drop_last())
                        &&& failed_in(
                            old(bus).frames(),
                            final(bus).frames(),
                            #[trigger] size_rounds::<SpiBus::Error>(self.register(), samples),
                            e,
                        )
                    },
            },
    {
        let ghost before = bus.frames();
        let ghost block = self.register();
        let ghost mut samples: Seq<(u16, u16)> = Seq::empty();
        assert(bus.frames() =~= before + size_rounds::<SpiBus::Error>(block, samples));
        let mut round: u32 = 0;
        while round < rounds
            invariant
                round <= rounds,
                samples.len() == round,
                all_rejected(samples),
                block == self.register(),
                before == old(bus).frames(),
                bus.frames() == before + size_rounds::<SpiBus::Error>(block, samples),
            decreases rounds - round,
        {
            let ghost done = samples;
            let first = match self.fetch_u16(bus, socketn::RECEIVED_SIZE) {
                Ok(value) => value,
                Err(e) => {
                    proof {
                        let tried = done.push((0u16, 0u16));
                        lemma_size_rounds_push::<SpiBus::Error>(block, done, (0u16, 0u16));
                        assert(tried.drop_last() =~= done);
                        assert(bus.frames().drop_last() =~= before + size_rounds::<SpiBus::Error>(
                            block,
                            done,
                        ));
                        assert(failed_in(
                            before,
                            bus.frames(),
                            size_rounds::<SpiBus::Error>(block, tried),
                            e,
                        ));
                    }
                    return Err(e);
                },
            };
            let ghost first_frame = bus.frames().last();
            proof {
                lemma_fetched_u16(first_frame);
            }
            let second = match self.fetch_u16(bus, socketn::RECEIVED_SIZE) {
                Ok(value) => value,
                Err(e) => {
                    proof {
                        let tried = done.push((first, 0u16));
                        let run = size_rounds::<SpiBus::Error>(block, tried);
                        lemma_size_rounds_push::<SpiBus::Error>(block, done, (first, 0u16));
                        assert(tried.drop_last() =~= done);
                        assert(run.take(2 * done.len() as int + 1) =~= size_rounds::<SpiBus::Error>(
                            block,
                            done,
                        ).push(first_frame));
                        assert(bus.frames().drop_last() =~= before + run.take(
                            2 * done.len() as int + 1,
                        ));
                        assert(failed_in(before, bus.frames(), run, e));
                    }
                    return Err(e);
                },
            };
            proof {
                lemma_fetched_u16(bus.frames().last());
                lemma_size_rounds_push::<SpiBus::Error>(block, done, (first, second));
                samples = done.push((first, second));
                assert(samples.drop_last() =~= done);
                assert(bus.frames() =~= before + size_rounds::<SpiBus::Error>(block, samples));
            }
            match accept_size(first, second) {
                Some(size) => {
                    return Ok(Some(size));
                },
                None => {},
            }
            round += 1;
        }
        Ok(None)
    }
}

} // verus!
