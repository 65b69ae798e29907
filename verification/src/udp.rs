//! UDP datagrams over a socket.
//!
//! Sending and receiving keep no state in the host. Each call reads the
//! pointer it needs from the chip, moves the data through the socket's ring
//! buffer, writes the pointer back and tells the chip with a command.

use crate::bus::{
    failed_in, lemma_failed_at, lemma_failed_in_part, lemma_went_on, ActiveBus, Direction, Frame,
    TracedBus,
};
use crate::bytes::{be16, be16_bytes, u16_from_be};
use crate::net::Ipv4Addr;
use crate::register::socketn;
use crate::ring::{
    advance, advanced, check_buffer_size, is_buffer_size, read_wrapped, wrapped_frames,
    write_wrapped,
};
use crate::socket::{
    accepted_size, all_rejected, lemma_fetched_u16, lemma_read_is_run, size_rounds, Socket,
};
use vstd::prelude::*;

verus! {

/// Number of bytes that the chip puts before the payload of each datagram in
/// the receive buffer: four of the sender's address, two of the sender's port
/// and two of the length of the payload.
pub const HEADER_SIZE: usize = 8;

/// The address of the sender in a datagram header.
pub open spec fn header_source(header: Seq<u8>) -> Seq<u8>
    recommends
        header.len() == HEADER_SIZE,
{
    header.take(4)
}

/// The port of the sender in a datagram header.
pub open spec fn header_port(header: Seq<u8>) -> u16
    recommends
        header.len() == HEADER_SIZE,
{
    be16(header[4], header[5])
}

/// The length of the payload in a datagram header.
pub open spec fn header_length(header: Seq<u8>) -> u16
    recommends
        header.len() == HEADER_SIZE,
{
    be16(header[6], header[7])
}

/// Takes a datagram header apart into the sender's address, the sender's port
/// and the length of the payload.
pub fn parse_header(header: &[u8; 8]) -> (fields: (Ipv4Addr, u16, u16))
    ensures
        fields.0@ == header_source(header@),
        fields.1 == header_port(header@),
        fields.2 == header_length(header@),
{
    let source = Ipv4Addr::new(header[0], header[1], header[2], header[3]);
    assert(source@ =~= header_source(header@));
    let port = u16_from_be([header[4], header[5]]);
    let length = u16_from_be([header[6], header[7]]);
    (source, port, length)
}

/// Why sending a datagram can fail.
#[derive(Debug, PartialEq, Eq)]
pub enum UdpSocketError<E> {
    /// A frame failed on the bus.
    Bus(E),
    /// The chip did not report the datagram as sent within the polls allowed.
    SendTimeout,
}

/// The polls of the interrupt register stopped where they should: all but the
/// last of `flags` have the send-completion flag clear.
pub open spec fn polled_until_set(flags: Seq<u8>) -> bool {
    forall|i: int|
        0 <= i < flags.len() - 1 ==> !socketn::has_flag(
            #[trigger] flags[i],
            socketn::Interrupt::SendOk.bits(),
        )
}

/// The last of the polled values has the send-completion flag set.
pub open spec fn completes(flags: Seq<u8>) -> bool {
    flags.len() > 0 && socketn::has_flag(flags.last(), socketn::Interrupt::SendOk.bits())
}

/// A socket set up for UDP, together with the size of its buffers and the
/// number of times a send polls for completion.
#[derive(Debug)]
pub struct UdpSocket {
    socket: Socket,
    buffer_size: u16,
    send_retries: u32,
}

impl UdpSocket {
    #[verifier::type_invariant]
    spec fn buffer_size_valid(self) -> bool {
        is_buffer_size(self.buffer_size)
    }

    pub closed spec fn spec_socket(&self) -> &Socket {
        &self.socket
    }

    pub closed spec fn spec_buffer_size(&self) -> u16 {
        self.buffer_size
    }

    pub closed spec fn spec_send_retries(&self) -> u32 {
        self.send_retries
    }

    /// Joins a socket with the size of its transmit and receive buffers and
    /// the number of polls that a send may take. The size has to be a power of
    /// two; with any other there is no such socket.
    pub fn new(socket: Socket, buffer_size: u16, send_retries: u32) -> (udp: Option<UdpSocket>)
        ensures
            udp is Some <==> is_buffer_size(buffer_size),
            udp matches Some(u) ==> *u.socket() == socket && u.buffer_size() == buffer_size
                && u.send_retries() == send_retries,
    {
        if check_buffer_size(buffer_size) {
            Some(UdpSocket { socket, buffer_size, send_retries })
        } else {
            None
        }
    }

    /// The socket that the datagrams go through.
    #[verifier::when_used_as_spec(spec_socket)]
    pub fn socket(&self) -> (socket: &Socket)
        ensures
            socket == self.socket(),
    {
        &self.socket
    }

    /// The size of the socket's transmit buffer and of its receive buffer, in
    /// bytes.
    #[verifier::when_used_as_spec(spec_buffer_size)]
    pub fn buffer_size(&self) -> (size: u16)
        ensures
            size == self.buffer_size(),
            is_buffer_size(size),
    {
        proof {
            use_type_invariant(self);
        }
        self.buffer_size
    }

    /// How many times a send reads the interrupt register before it gives up.
    #[verifier::when_used_as_spec(spec_send_retries)]
    pub fn send_retries(&self) -> (retries: u32)
        ensures
            retries == self.send_retries(),
    {
        self.send_retries
    }

    /// Gives the socket back.
    pub fn release(self) -> (socket: Socket)
        ensures
            socket == *self.socket(),
    {
        self.socket
    }

    /// The frames that hand a datagram to the chip, when the transmit write
    /// pointer was read as `start`: the read of the pointer; the writes of the
    /// destination address and port to their registers; the payload into the
    /// transmit buffer at `start`, in one frame or, round the end of the
    /// buffer, in two; the pointer moved on by the length of the payload; and
    /// the send command.
    pub open spec fn send_frames<E>(
        &self,
        ip: Seq<u8>,
        port: u16,
        payload: Seq<u8>,
        start: u16,
    ) -> Seq<Frame<E>> {
        let registers = self.socket().register();
        seq![
            Frame::fetched(registers, socketn::TX_DATA_WRITE_POINTER, be16_bytes(start)),
            Frame::written(registers, socketn::DESTINATION_IP, ip),
            Frame::written(registers, socketn::DESTINATION_PORT, be16_bytes(port)),
        ] + wrapped_frames(
            Direction::Write,
            self.socket().tx_buffer(),
            start,
            self.buffer_size(),
            payload,
        ) + seq![
            Frame::written(
                registers,
                socketn::TX_DATA_WRITE_POINTER,
                be16_bytes(advanced(start, payload.len() as int)),
            ),
            Frame::written(registers, socketn::COMMAND, seq![socketn::Command::Send.bits()]),
        ]
    }

    /// The frames that wait for the chip to have sent, when the polls of the
    /// interrupt register brought `flags`: one read of the register for each
    /// value, and after a value with the send-completion flag set the write
    /// that clears the flag.
    pub open spec fn completion_frames<E>(&self, flags: Seq<u8>) -> Seq<Frame<E>> {
        let registers = self.socket().register();
        Seq::new(
            flags.len(),
            |i: int| Frame::fetched(registers, socketn::INTERRUPT, seq![flags[i]]),
        ) + if completes(flags) {
            seq![
                Frame::written(
                    registers,
                    socketn::INTERRUPT,
                    seq![socketn::Interrupt::SendOk.bits()],
                ),
            ]
        } else {
            Seq::empty()
        }
    }

    /// All frames of a send that no bus error cut short.
    pub open spec fn send_run<E>(
        &self,
        ip: Seq<u8>,
        port: u16,
        payload: Seq<u8>,
        start: u16,
        flags: Seq<u8>,
    ) -> Seq<Frame<E>> {
        self.send_frames(ip, port, payload, start) + self.completion_frames(flags)
    }

    /// Puts a datagram into the transmit buffer and tells the chip to send it.
    /// The result is the transmit write pointer that was read from the chip.
    fn stage<SpiBus: ActiveBus>(
        &self,
        bus: &mut TracedBus<SpiBus>,
        ip: Ipv4Addr,
        port: u16,
        data: &[u8],
    ) -> (result: Result<u16, SpiBus::Error>)
        ensures
            match result {
                Ok(start) => final(bus).frames() == old(bus).frames() + self.send_frames::<
                    SpiBus::Error,
                >(ip@, port, data@, start),
                Err(e) => exists|start: u16|
                    failed_in(
                        old(bus).frames(),
                        final(bus).frames(),
                        #[trigger] self.send_frames::<SpiBus::Error>(ip@, port, data@, start),
                        e,
                    ),
            },
    {
        proof {
            use_type_invariant(self);
        }
        let ghost before = bus.frames();
        let start = match self.socket.get_tx_write_pointer(bus) {
            Ok(start) => start,
            Err(e) => {
                proof {
                    let run = self.send_frames::<SpiBus::Error>(ip@, port, data@, 0);
                    assert(bus.frames().drop_last() =~= before + run.take(0));
                    lemma_failed_at(before, bus.frames(), run, 0, e);
                }
                return Err(e);
            },
        };
        let ghost run = self.send_frames::<SpiBus::Error>(ip@, port, data@, start);
        let ghost head = run.take(3);
        let ghost chunks = wrapped_frames::<SpiBus::Error>(
            Direction::Write,
            self.socket.tx_buffer(),
            start,
            self.buffer_size,
            data@,
        );
        let ghost cut = 3 + chunks.len() as int;
        let ghost tail = run.skip(cut);
        proof {
            lemma_fetched_u16(bus.frames().last());
            assert(before + run.take(0) =~= before);
            lemma_went_on(before, before, bus.frames(), run, 0);
        }
        let ghost earlier = bus.frames();
        match self.socket.set_destination_ip(bus, ip) {
            Ok(()) => {},
            Err(e) => {
                proof {
                    assert(bus.frames().drop_last() =~= earlier);
                    lemma_failed_at(before, bus.frames(), run, 1, e);
                }
                return Err(e);
            },
        }
        proof {
            lemma_went_on(before, earlier, bus.frames(), run, 1);
        }
        let ghost earlier = bus.frames();
        match self.socket.set_destination_port(bus, port) {
            Ok(()) => {},
            Err(e) => {
                proof {
                    assert(bus.frames().drop_last() =~= earlier);
                    lemma_failed_at(before, bus.frames(), run, 2, e);
                }
                return Err(e);
            },
        }
        proof {
            lemma_went_on(before, earlier, bus.frames(), run, 2);
            assert(run =~= head + chunks + tail);
        }
        match write_wrapped(bus, self.socket.tx_buffer(), start, self.buffer_size, data) {
            Ok(()) => {},
            Err(e) => {
                proof {
                    lemma_failed_in_part(before, bus.frames(), head, chunks, tail, e);
                }
                return Err(e);
            },
        }
        proof {
            assert(bus.frames() =~= before + run.take(cut));
        }
        let ghost earlier = bus.frames();
        match self.socket.set_tx_write_pointer(bus, advance(start, data.len())) {
            Ok(()) => {},
            Err(e) => {
                proof {
                    assert(bus.frames().drop_last() =~= earlier);
                    lemma_failed_at(before, bus.frames(), run, cut, e);
                }
                return Err(e);
            },
        }
        proof {
            lemma_went_on(before, earlier, bus.frames(), run, cut);
        }
        let ghost earlier = bus.frames();
        match self.socket.command(bus, socketn::Command::Send) {
            Ok(()) => {},
            Err(e) => {
                proof {
                    assert(bus.frames().drop_last() =~= earlier);
                    lemma_failed_at(before, bus.frames(), run, cut + 1, e);
                }
                return Err(e);
            },
        }
        proof {
            lemma_went_on(before, earlier, bus.frames(), run, cut + 1);
            assert(run.take(cut + 2) =~= run);
        }
        Ok(start)
    }

    /// Polls the interrupt register until the send-completion flag is set, at
    /// most as often as the socket allows, and clears the flag once it is.
    fn await_sent<SpiBus: ActiveBus>(&self, bus: &mut TracedBus<SpiBus>) -> (result: Result<
        (),
        UdpSocketError<SpiBus::Error>,
    >)
        ensures
            match result {
                Ok(()) => exists|flags: Seq<u8>|
                    {
                        &&& flags.len() <= self.send_retries()
                        &&& polled_until_set(flags)
                        &&& completes(flags)
                        &&& final(bus).frames() == old(bus).frames()
                            + #[trigger] self.completion_frames::<SpiBus::Error>(flags)
                    },
                Err(UdpSocketError::SendTimeout) => exists|flags: Seq<u8>|
                    {
                        &&& flags.len() == self.send_retries()
                        &&& polled_until_set(flags)
                        &&& !completes(flags)
                        &&& final(bus).frames() == old(bus).frames()
                            + #[trigger] self.completion_frames::<SpiBus::Error>(flags)
                    },
                Err(UdpSocketError::Bus(e)) => exists|flags: Seq<u8>|
                    {
                        &&& flags.len() <= self.send_retries()
                        &&& polled_until_set(flags)
                        &&& failed_in(
                            old(bus).frames(),
                            final(bus).frames(),
                            #[trigger] self.completion_frames::<SpiBus::Error>(flags),
                            e,
                        )
                    },
            },
    {
        let ghost before = bus.frames();
        let ghost mut flags: Seq<u8> = Seq::empty();
        assert(bus.frames() =~= before + self.completion_frames::<SpiBus::Error>(flags));
        let mut polls: u32 = 0;
        while polls < self.send_retries
            invariant
                polls <= self.send_retries,
                flags.len() == polls,
                polled_until_set(flags),
                !completes(flags),
                before == old(bus).frames(),
                bus.frames() == before + self.completion_frames::<SpiBus::Error>(flags),
            decreases self.send_retries - polls,
        {
            let ghost polled = flags;
            let ghost earlier = bus.frames();
            match self.socket.has_interrupt(bus, socketn::Interrupt::SendOk) {
                Err(e) => {
                    proof {
                        let tried = polled.push(0u8);
                        let run = self.completion_frames::<SpiBus::Error>(tried);
                        assert(run.take(polled.len() as int) =~= self.completion_frames::<
                            SpiBus::Error,
                        >(polled));
                        assert(bus.frames().drop_last() =~= earlier);
                        lemma_failed_at(before, bus.frames(), run, polled.len() as int, e);
                    }
                    return Err(UdpSocketError::Bus(e));
                },
                Ok(set) => {
                    proof {
                        let frame = bus.frames().last();
                        flags = polled.push(frame.data[0]);
                        assert(frame.data =~= seq![frame.data[0]]);
                        assert(flags.drop_last() =~= polled);
                    }
                    if set {
                        let ghost run = self.completion_frames::<SpiBus::Error>(flags);
                        proof {
                            assert(run.take(flags.len() as int) =~= earlier.skip(
                                before.len() as int,
                            ).push(bus.frames().last()));
                            assert(bus.frames() =~= before + run.take(flags.len() as int));
                        }
                        let ghost polled_all = bus.frames();
                        match self.socket.reset_interrupt(bus, socketn::Interrupt::SendOk) {
                            Ok(()) => {
                                proof {
                                    lemma_went_on(
                                        before,
                                        polled_all,
                                        bus.frames(),
                                        run,
                                        flags.len() as int,
                                    );
                                    assert(run.take(flags.len() as int + 1) =~= run);
                                }
                                return Ok(());
                            },
                            Err(e) => {
                                proof {
                                    assert(bus.frames().drop_last() =~= polled_all);
                                    lemma_failed_at(
                                        before,
                                        bus.frames(),
                                        run,
                                        flags.len() as int,
                                        e,
                                    );
                                }
                                return Err(UdpSocketError::Bus(e));
                            },
                        }
                    }
                    proof {
                        assert(bus.frames() =~= before + self.completion_frames::<SpiBus::Error>(
                            flags,
                        ));
                    }
                },
            }
            polls += 1;
        }
        Err(UdpSocketError::SendTimeout)
    }

    /// Sends `data` as one datagram to port `port` of the host `ip`.
    ///
    /// The transmit write pointer is read from the chip. The destination goes
    /// to its registers, the payload into the transmit buffer where the
    /// pointer stands, the pointer moves on by the length of the payload, and
    /// the send command follows. Then the interrupt register is polled, at most
    /// [`UdpSocket::send_retries`] times, until the chip reports the datagram
    /// as sent; the flag is cleared and the send has succeeded. When no poll
    /// finds the flag, the send has timed out. A frame that fails ends the send
    /// at once with the error of the bus; nothing is undone.
    pub fn send<SpiBus: ActiveBus>(
        &self,
        bus: &mut TracedBus<SpiBus>,
        ip: Ipv4Addr,
        port: u16,
        data: &[u8],
    ) -> (result: Result<(), UdpSocketError<SpiBus::Error>>)
        ensures
            match result {
                Ok(()) => exists|start: u16, flags: Seq<u8>|
                    {
                        &&& flags.len() <= self.send_retries()
                        &&& polled_until_set(flags)
                        &&& completes(flags)
                        &&& final(bus).frames() == old(bus).frames() + #[trigger] self.send_run::<
                            SpiBus::Error,
                        >(ip@, port, data@, start, flags)
                    },
                Err(UdpSocketError::SendTimeout) => exists|start: u16, flags: Seq<u8>|
                    {
                        &&& flags.len() == self.send_retries()
                        &&& polled_until_set(flags)
                        &&& !completes(flags)
                        &&& final(bus).frames() == old(bus).frames() + #[trigger] self.send_run::<
                            SpiBus::Error,
                        >(ip@, port, data@, start, flags)
                    },
                Err(UdpSocketError::Bus(e)) => exists|start: u16, flags: Seq<u8>|
                    {
                        &&& flags.len() <= self.send_retries()
                        &&& polled_until_set(flags)
                        &&& failed_in(
                            old(bus).frames(),
                            final(bus).frames(),
                            #[trigger] self.send_run::<SpiBus::Error>(
                                ip@,
                                port,
                                data@,
                                start,
                                flags,
                            ),
                            e,
                        )
                    },
            },
    {
        let ghost before = bus.frames();
        let start = match self.stage(bus, ip, port, data) {
            Ok(start) => start,
            Err(e) => {
                proof {
                    let start = choose|start: u16|
                        failed_in(
                            before,
                            bus.frames(),
                            #[trigger] self.send_frames::<SpiBus::Error>(ip@, port, data@, start),
                            e,
                        );
                    let staged = self.send_frames::<SpiBus::Error>(ip@, port, data@, start);
                    let none = Seq::<u8>::empty();
                    let rest = self.completion_frames::<SpiBus::Error>(none);
                    assert(before + Seq::<Frame<SpiBus::Error>>::empty() =~= before);
                    lemma_failed_in_part(before, bus.frames(), Seq::empty(), staged, rest, e);
                    assert(Seq::<Frame<SpiBus::Error>>::empty() + staged + rest
                        =~= self.send_run::<SpiBus::Error>(ip@, port, data@, start, none));
                }
                return Err(UdpSocketError::Bus(e));
            },
        };
        let ghost staged = self.send_frames::<SpiBus::Error>(ip@, port, data@, start);
        let result = self.await_sent(bus);
        let ghost outcome = result;
        proof {
            match outcome {
                Ok(()) => {
                    let flags = choose|flags: Seq<u8>|
                        {
                            &&& flags.len() <= self.send_retries()
                            &&& polled_until_set(flags)
                            &&& completes(flags)
                            &&& bus.frames() == before + staged
                                + #[trigger] self.completion_frames::<SpiBus::Error>(flags)
                        };
                    assert(bus.frames() =~= before + self.send_run::<SpiBus::Error>(
                        ip@,
                        port,
                        data@,
                        start,
                        flags,
                    ));
                },
                Err(UdpSocketError::SendTimeout) => {
                    let flags = choose|flags: Seq<u8>|
                        {
                            &&& flags.len() == self.send_retries()
                            &&& polled_until_set(flags)
                            &&& !completes(flags)
                            &&& bus.frames() == before + staged
                                + #[trigger] self.completion_frames::<SpiBus::Error>(flags)
                        };
                    assert(bus.frames() =~= before + self.send_run::<SpiBus::Error>(
                        ip@,
                        port,
                        data@,
                        start,
                        flags,
                    ));
                },
                Err(UdpSocketError::Bus(e)) => {
                    let flags = choose|flags: Seq<u8>|
                        {
                            &&& flags.len() <= self.send_retries()
                            &&& polled_until_set(flags)
                            &&& failed_in(
                                before + staged,
                                bus.frames(),
                                #[trigger] self.completion_frames::<SpiBus::Error>(flags),
                                e,
                            )
                        };
                    let rest = self.completion_frames::<SpiBus::Error>(flags);
                    lemma_failed_in_part(before, bus.frames(), staged, rest, Seq::empty(), e);
                    assert(staged + rest + Seq::<Frame<SpiBus::Error>>::empty()
                        =~= self.send_run::<SpiBus::Error>(ip@, port, data@, start, flags));
                },
            }
        }
        result
    }

    /// How many bytes of a payload of `length` bytes go into a buffer of
    /// `capacity` bytes: all of them when they fit, else as many as fit.
    pub open spec fn copied_len(capacity: nat, length: u16) -> nat {
        if capacity <= length {
            capacity
        } else {
            length as nat
        }
    }

    /// The frames that read a datagram out of the receive buffer, when the
    /// eight bytes at `pointer` were `header` and the bytes copied to the caller
    /// were `payload`: the header from the receive buffer at `pointer`, then
    /// the payload from right behind the header. Each of the two is one frame,
    /// or two where it goes round the end of the buffer.
    pub open spec fn content_frames<E>(
        &self,
        pointer: u16,
        header: Seq<u8>,
        payload: Seq<u8>,
    ) -> Seq<Frame<E>> {
        wrapped_frames(
            Direction::Read,
            self.socket().rx_buffer(),
            pointer,
            self.buffer_size(),
            header,
        ) + wrapped_frames(
            Direction::Read,
            self.socket().rx_buffer(),
            advanced(pointer, HEADER_SIZE as int),
            self.buffer_size(),
            payload,
        )
    }

    /// The frames that give a datagram's space back to the chip: the receive
    /// read pointer moved on from `pointer` by the header and by `length`, and
    /// the command that acknowledges the read.
    pub open spec fn acknowledge_frames<E>(&self, pointer: u16, length: u16) -> Seq<Frame<E>> {
        let registers = self.socket().register();
        seq![
            Frame::written(
                registers,
                socketn::RX_DATA_READ_POINTER,
                be16_bytes(advanced(pointer, HEADER_SIZE + length)),
            ),
            Frame::written(registers, socketn::COMMAND, seq![socketn::Command::Receive.bits()]),
        ]
    }

    /// The frames that take a datagram out of the receive buffer, when the
    /// receive read pointer was read as `pointer`, the eight bytes there were
    /// `header` and the bytes copied to the caller were `payload`: the read of
    /// the pointer; the header and the payload out of the buffer; and the
    /// pointer moved on by the header and the whole length that the header
    /// states, whether or not all of it was copied, with the command that
    /// acknowledges the read.
    pub open spec fn datagram_frames<E>(
        &self,
        pointer: u16,
        header: Seq<u8>,
        payload: Seq<u8>,
    ) -> Seq<Frame<E>> {
        seq![
            Frame::fetched(
                self.socket().register(),
                socketn::RX_DATA_READ_POINTER,
                be16_bytes(pointer),
            ),
        ] + self.content_frames(pointer, header, payload) + self.acknowledge_frames(
            pointer,
            header_length(header),
        )
    }

    /// The frames of the one stabilisation round that a receive begins with,
    /// when its two samples of the received-size register were `first` and
    /// `second`.
    pub open spec fn sample_frames<E>(&self, first: u16, second: u16) -> Seq<Frame<E>> {
        size_rounds(self.socket().register(), seq![(first, second)])
    }

    /// All frames of a receive that no bus error cut short, when the two
    /// samples of the received-size register were `first` and `second`: the
    /// two reads of the register, and, when the samples are accepted as a size,
    /// the frames that take the datagram out.
    pub open spec fn receive_run<E>(
        &self,
        first: u16,
        second: u16,
        pointer: u16,
        header: Seq<u8>,
        payload: Seq<u8>,
    ) -> Seq<Frame<E>> {
        self.sample_frames(first, second) + if accepted_size(first, second) is Some {
            self.datagram_frames(pointer, header, payload)
        } else {
            Seq::empty()
        }
    }

    /// Reads the header of the datagram at `pointer` and as much of its
    /// payload as `buffer` takes. The result is the sender's address and port,
    /// the length of the payload as the header states it, and the number of
    /// bytes copied.
    fn read_datagram<SpiBus: ActiveBus>(
        &self,
        bus: &mut TracedBus<SpiBus>,
        pointer: u16,
        buffer: &mut [u8],
    ) -> (result: Result<(Ipv4Addr, u16, u16, usize), SpiBus::Error>)
        ensures
            final(buffer)@.len() == old(buffer)@.len(),
            match result {
                Ok((source, port, length, copied)) => exists|header: Seq<u8>, payload: Seq<u8>|
                    {
                        &&& header.len() == HEADER_SIZE
                        &&& source@ == header_source(header)
                        &&& port == header_port(header)
                        &&& length == header_length(header)
                        &&& copied == Self::copied_len(old(buffer)@.len(), length)
                        &&& final(buffer)@ == payload + old(buffer)@.skip(copied as int)
                        &&& payload.len() == copied
                        &&& final(bus).frames() == old(bus).frames()
                            + #[trigger] self.content_frames::<SpiBus::Error>(
                            pointer,
                            header,
                            payload,
                        )
                    },
                Err(e) => exists|header: Seq<u8>, payload: Seq<u8>|
                    {
                        &&& header.len() == HEADER_SIZE
                        &&& payload.len() == Self::copied_len(
                            old(buffer)@.len(),
                            header_length(header),
                        )
                        &&& final(buffer)@.skip(payload.len() as int) == old(buffer)@.skip(
                            payload.len() as int,
                        )
                        &&& failed_in(
                            old(bus).frames(),
                            final(bus).frames(),
                            #[trigger] self.content_frames::<SpiBus::Error>(
                                pointer,
                                header,
                                payload,
                            ),
                            e,
                        )
                    },
            },
    {
        proof {
            use_type_invariant(self);
        }
        let ghost before = bus.frames();
        let ghost capacity = buffer@.len();
        let mut header = [0u8; 8];
        match read_wrapped(bus, self.socket.rx_buffer(), pointer, self.buffer_size, &mut header) {
            Ok(()) => {},
            Err(e) => {
                proof {
                    let payload = Seq::new(
                        Self::copied_len(capacity, header_length(header@)),
                        |i: int| 0u8,
                    );
                    let part = wrapped_frames::<SpiBus::Error>(
                        Direction::Read,
                        self.socket.rx_buffer(),
                        pointer,
                        self.buffer_size,
                        header@,
                    );
                    let tail = wrapped_frames::<SpiBus::Error>(
                        Direction::Read,
                        self.socket.rx_buffer(),
                        advanced(pointer, HEADER_SIZE as int),
                        self.buffer_size,
                        payload,
                    );
                    assert(before + Seq::<Frame<SpiBus::Error>>::empty() =~= before);
                    lemma_failed_in_part(before, bus.frames(), Seq::empty(), part, tail, e);
                    assert(Seq::<Frame<SpiBus::Error>>::empty() + part + tail
                        =~= self.content_frames::<SpiBus::Error>(pointer, header@, payload));
                }
                return Err(e);
            },
        }
        let ghost header_part = wrapped_frames::<SpiBus::Error>(
            Direction::Read,
            self.socket.rx_buffer(),
            pointer,
            self.buffer_size,
            header@,
        );
        let (source, port, length) = parse_header(&header);
        let copied: usize = if buffer.len() <= length as usize {
            buffer.len()
        } else {
            length as usize
        };
        let (wanted, _unused) = buffer.split_at_mut(copied);
        let result = read_wrapped(
            bus,
            self.socket.rx_buffer(),
            advance(pointer, HEADER_SIZE),
            self.buffer_size,
            wanted,
        );
        let ghost payload = wanted@;
        let ghost payload_part = wrapped_frames::<SpiBus::Error>(
            Direction::Read,
            self.socket.rx_buffer(),
            advanced(pointer, HEADER_SIZE as int),
            self.buffer_size,
            payload,
        );
        proof {
            assert(header_part + payload_part =~= self.content_frames::<SpiBus::Error>(
                pointer,
                header@,
                payload,
            ));
        }
        match result {
            Ok(()) => {},
            Err(e) => {
                proof {
                    lemma_failed_in_part(
                        before,
                        bus.frames(),
                        header_part,
                        payload_part,
                        Seq::empty(),
                        e,
                    );
                    assert(header_part + payload_part + Seq::<Frame<SpiBus::Error>>::empty()
                        =~= header_part + payload_part);
                    assert(buffer@.skip(copied as int) =~= old(buffer)@.skip(copied as int));
                }
                return Err(e);
            },
        }
        proof {
            assert(bus.frames() =~= before + (header_part + payload_part));
            assert(buffer@ =~= payload + old(buffer)@.skip(copied as int));
        }
        Ok((source, port, length, copied))
    }

    /// Moves the receive read pointer past a datagram of `length` bytes of
    /// payload that began at `pointer`, and tells the chip that the space is
    /// free.
    fn acknowledge<SpiBus: ActiveBus>(
        &self,
        bus: &mut TracedBus<SpiBus>,
        pointer: u16,
        length: u16,
    ) -> (result: Result<(), SpiBus::Error>)
        ensures
            match result {
                Ok(()) => final(bus).frames() == old(bus).frames() + self.acknowledge_frames::<
                    SpiBus::Error,
                >(pointer, length),
                Err(e) => failed_in(
                    old(bus).frames(),
                    final(bus).frames(),
                    self.acknowledge_frames::<SpiBus::Error>(pointer, length),
                    e,
                ),
            },
    {
        let ghost before = bus.frames();
        let ghost run = self.acknowledge_frames::<SpiBus::Error>(pointer, length);
        let next = advance(pointer, HEADER_SIZE + length as usize);
        match self.socket.set_rx_read_pointer(bus, next) {
            Ok(()) => {},
            Err(e) => {
                proof {
                    assert(bus.frames().drop_last() =~= before + run.take(0));
                    lemma_failed_at(before, bus.frames(), run, 0, e);
                }
                return Err(e);
            },
        }
        proof {
            assert(before + run.take(0) =~= before);
            lemma_went_on(before, before, bus.frames(), run, 0);
        }
        let ghost earlier = bus.frames();
        let result = self.socket.command(bus, socketn::Command::Receive);
        proof {
            if result is Ok {
                lemma_went_on(before, earlier, bus.frames(), run, 1);
                assert(run.take(2) =~= run);
            } else {
                assert(bus.frames().drop_last() =~= earlier);
                lemma_failed_at(before, bus.frames(), run, 1, result->Err_0);
            }
        }
        result
    }

    /// Receives one datagram into `buffer`, if one is ready.
    ///
    /// One stabilisation round samples the received-size register. When the
    /// round gives no size, none is ready: the result is `None`, nothing else
    /// was asked of the chip, and polling again is up to the caller. Else the
    /// receive read pointer is read, the header at that place in the receive
    /// buffer tells the sender and the length of the payload, and as much of
    /// the payload as `buffer` takes is copied to its start. The pointer moves
    /// past the whole datagram, so what did not fit is dropped, and the
    /// receive command gives the space back to the chip. The result is the
    /// sender's address and port and the number of bytes copied. A frame that
    /// fails ends the receive at once with the error of the bus.
    pub fn receive<SpiBus: ActiveBus>(
        &self,
        bus: &mut TracedBus<SpiBus>,
        buffer: &mut [u8],
    ) -> (result: Result<Option<(Ipv4Addr, u16, usize)>, SpiBus::Error>)
        ensures
            final(buffer)@.len() == old(buffer)@.len(),
            match result {
                Ok(Some((source, port, copied))) => exists|
                    first: u16,
                    second: u16,
                    pointer: u16,
                    header: Seq<u8>,
                    payload: Seq<u8>,
                |
                    {
                        &&& accepted_size(first, second) is Some
                        &&& header.len() == HEADER_SIZE
                        &&& source@ == header_source(header)
                        &&& port == header_port(header)
                        &&& copied == Self::copied_len(old(buffer)@.len(), header_length(header))
                        &&& payload.len() == copied
                        &&& final(buffer)@ == payload + old(buffer)@.skip(copied as int)
                        &&& final(bus).frames() == old(bus).frames()
                            + #[trigger] self.receive_run::<SpiBus::Error>(
                            first,
                            second,
                            pointer,
                            header,
                            payload,
                        )
                    },
                Ok(None) => exists|first: u16, second: u16|
                    {
                        &&& accepted_size(first, second) is None
                        &&& final(buffer)@ == old(buffer)@
                        &&& final(bus).frames() == old(bus).frames()
                            + #[trigger] self.sample_frames::<SpiBus::Error>(first, second)
                    },
                Err(e) => exists|
                    first: u16,
                    second: u16,
                    pointer: u16,
                    header: Seq<u8>,
                    payload: Seq<u8>,
                |
                    {
                        &&& header.len() == HEADER_SIZE
                        &&& payload.len() == Self::copied_len(
                            old(buffer)@.len(),
                            header_length(header),
                        )
                        &&& final(buffer)@.skip(payload.len() as int) == old(buffer)@.skip(
                            payload.len() as int,
                        )
                        &&& failed_in(
                            old(bus).frames(),
                            final(bus).frames(),
                            #[trigger] self.receive_run::<SpiBus::Error>(
                                first,
                                second,
                                pointer,
                                header,
                                payload,
                            ),
                            e,
                        )
                    },
            },
    {
        let ghost before = bus.frames();
        let ghost capacity = buffer@.len();
        let ghost registers = self.socket.register();
        let ghost blank = Seq::new(HEADER_SIZE as nat, |i: int| 0u8);
        let ghost nothing = Seq::new(
            Self::copied_len(capacity, header_length(blank)),
            |i: int| 0u8,
        );
        let sampled = self.socket.get_receive_size(bus, 1);
        let ghost sampling_outcome = sampled;
        let ghost (first, second) = match sampling_outcome {
            Ok(Some(size)) => {
                let samples = choose|samples: Seq<(u16, u16)>|
                    {
                        &&& 0 < samples.len() <= 1
                        &&& all_rejected(samples.drop_last())
                        &&& accepted_size(samples.last().0, samples.last().1) == Some(size)
                        &&& bus.frames() == before + #[trigger] size_rounds::<SpiBus::Error>(
                            registers,
                            samples,
                        )
                    };
                assert(samples =~= seq![(samples[0].0, samples[0].1)]);
                samples[0]
            },
            Ok(None) => {
                let samples = choose|samples: Seq<(u16, u16)>|
                    {
                        &&& samples.len() == 1
                        &&& all_rejected(samples)
                        &&& bus.frames() == before + #[trigger] size_rounds::<SpiBus::Error>(
                            registers,
                            samples,
                        )
                    };
                assert(samples =~= seq![(samples[0].0, samples[0].1)]);
                samples[0]
            },
            Err(e) => {
                let samples = choose|samples: Seq<(u16, u16)>|
                    {
                        &&& 0 < samples.len() <= 1
                        &&& all_rejected(samples.drop_last())
                        &&& failed_in(
                            before,
                            bus.frames(),
                            #[trigger] size_rounds::<SpiBus::Error>(registers, samples),
                            e,
                        )
                    };
                assert(samples =~= seq![(samples[0].0, samples[0].1)]);
                samples[0]
            },
        };
        let ghost sampling = self.sample_frames::<SpiBus::Error>(first, second);
        match sampled {
            Ok(Some(_)) => {},
            Ok(None) => {
                return Ok(None);
            },
            Err(e) => {
                proof {
                    let rest = if accepted_size(first, second) is Some {
                        self.datagram_frames::<SpiBus::Error>(0, blank, nothing)
                    } else {
                        Seq::empty()
                    };
                    assert(before + Seq::<Frame<SpiBus::Error>>::empty() =~= before);
                    lemma_failed_in_part(before, bus.frames(), Seq::empty(), sampling, rest, e);
                    assert(Seq::<Frame<SpiBus::Error>>::empty() + sampling + rest
                        =~= self.receive_run::<SpiBus::Error>(first, second, 0, blank, nothing));
                }
                return Err(e);
            },
        }
        let ghost sampled_frames = bus.frames();
        let fetched = self.socket.get_rx_read_pointer(bus);
        let ghost fetch_outcome = fetched;
        let pointer = match fetched {
            Ok(pointer) => pointer,
            Err(e) => {
                proof {
                    lemma_read_is_run(
                        sampled_frames,
                        bus.frames(),
                        registers,
                        socketn::RX_DATA_READ_POINTER,
                        fetch_outcome,
                        0,
                    );
                    let part = seq![
                        Frame::<SpiBus::Error>::fetched(
                            registers,
                            socketn::RX_DATA_READ_POINTER,
                            be16_bytes(0),
                        ),
                    ];
                    let rest = self.content_frames::<SpiBus::Error>(0, blank, nothing)
                        + self.acknowledge_frames::<SpiBus::Error>(0, header_length(blank));
                    lemma_failed_in_part(before, bus.frames(), sampling, part, rest, e);
                    assert(sampling + part + rest =~= self.receive_run::<SpiBus::Error>(
                        first,
                        second,
                        0,
                        blank,
                        nothing,
                    ));
                }
                return Err(e);
            },
        };
        let ghost pointing = seq![
            Frame::<SpiBus::Error>::fetched(
                registers,
                socketn::RX_DATA_READ_POINTER,
                be16_bytes(pointer),
            ),
        ];
        proof {
            lemma_read_is_run(
                sampled_frames,
                bus.frames(),
                registers,
                socketn::RX_DATA_READ_POINTER,
                fetch_outcome,
                0,
            );
            assert(bus.frames() =~= before + (sampling + pointing));
        }
        let (source, port, length, copied) = match self.read_datagram(bus, pointer, buffer) {
            Ok(fields) => fields,
            Err(e) => {
                proof {
                    let (header, payload) = choose|header: Seq<u8>, payload: Seq<u8>|
                        {
                            &&& header.len() == HEADER_SIZE
                            &&& payload.len() == Self::copied_len(capacity, header_length(header))
                            &&& buffer@.skip(payload.len() as int) == old(buffer)@.skip(
                                payload.len() as int,
                            )
                            &&& failed_in(
                                before + (sampling + pointing),
                                bus.frames(),
                                #[trigger] self.content_frames::<SpiBus::Error>(
                                    pointer,
                                    header,
                                    payload,
                                ),
                                e,
                            )
                        };
                    let part = self.content_frames::<SpiBus::Error>(pointer, header, payload);
                    let rest = self.acknowledge_frames::<SpiBus::Error>(
                        pointer,
                        header_length(header),
                    );
                    lemma_failed_in_part(
                        before,
                        bus.frames(),
                        sampling + pointing,
                        part,
                        rest,
                        e,
                    );
                    assert((sampling + pointing) + part + rest =~= self.receive_run::<
                        SpiBus::Error,
                    >(first, second, pointer, header, payload));
                }
                return Err(e);
            },
        };
        let ghost (header, payload) = choose|header: Seq<u8>, payload: Seq<u8>|
            {
                &&& header.len() == HEADER_SIZE
                &&& source@ == header_source(header)
                &&& port == header_port(header)
                &&& length == header_length(header)
                &&& copied == Self::copied_len(capacity, length)
                &&& buffer@ == payload + old(buffer)@.skip(copied as int)
                &&& payload.len() == copied
                &&& bus.frames() == before + (sampling + pointing)
                    + #[trigger] self.content_frames::<SpiBus::Error>(pointer, header, payload)
            };
        let ghost content = self.content_frames::<SpiBus::Error>(pointer, header, payload);
        let ghost closing = self.acknowledge_frames::<SpiBus::Error>(pointer, length);
        let ghost run = self.receive_run::<SpiBus::Error>(first, second, pointer, header, payload);
        proof {
            assert(bus.frames() =~= before + (sampling + pointing + content));
            assert(sampling + pointing + content + closing =~= run);
        }
        match self.acknowledge(bus, pointer, length) {
            Ok(()) => {},
            Err(e) => {
                proof {
                    lemma_failed_in_part(
                        before,
                        bus.frames(),
                        sampling + pointing + content,
                        closing,
                        Seq::empty(),
                        e,
                    );
                    assert(sampling + pointing + content + closing + Seq::<
                        Frame<SpiBus::Error>,
                    >::empty() =~= run);
                }
                return Err(e);
            },
        }
        proof {
            assert(bus.frames() =~= before + run);
        }
        Ok(Some((source, port, copied)))
    }
}

/// The order of a send: the destination address and port are written before
/// any byte of the payload goes into the transmit buffer; the payload comes
/// next, and nothing but payload lies between the destination and the pointer;
/// then the transmit write pointer is written, moved on by exactly the length
/// of the payload; and the send command is the last frame.
pub proof fn lemma_send_order<E>(
    udp: UdpSocket,
    ip: Seq<u8>,
    port: u16,
    payload: Seq<u8>,
    start: u16,
)
    requires
        is_buffer_size(udp.buffer_size()),
    ensures
        ({
            let run = udp.send_frames::<E>(ip, port, payload, start);
            let registers = udp.socket().register();
            &&& run.len() == 6 || run.len() == 7
            &&& run[1] == Frame::<E>::written(registers, socketn::DESTINATION_IP, ip)
            &&& run[2] == Frame::<E>::written(registers, socketn::DESTINATION_PORT, be16_bytes(port))
            &&& forall|i: int|
                3 <= i < run.len() - 2 ==> (#[trigger] run[i]).block == udp.socket().tx_buffer()
                    && run[i].direction == Direction::Write
            &&& run[run.len() - 2] == Frame::<E>::written(
                registers,
                socketn::TX_DATA_WRITE_POINTER,
                be16_bytes(advanced(start, payload.len() as int)),
            )
            &&& run.last() == Frame::<E>::written(
                registers,
                socketn::COMMAND,
                seq![socketn::Command::Send.bits()],
            )
        }),
{
}

/// A send that times out has polled exactly as often as the socket allows:
/// when no polled value completes the send, the frames after the send command
/// are one read of the interrupt register for each value, and nothing else.
pub proof fn lemma_timeout_polls<E>(udp: UdpSocket, flags: Seq<u8>)
    requires
        !completes(flags),
    ensures
        udp.completion_frames::<E>(flags).len() == flags.len(),
        forall|i: int|
            0 <= i < flags.len() ==> #[trigger] udp.completion_frames::<E>(flags)[i]
                == Frame::<E>::fetched(udp.socket().register(), socketn::INTERRUPT, seq![flags[i]]),
{
}

/// A datagram is skipped whole, however little of it was copied: the receive
/// read pointer is written as the old pointer moved on by the eight bytes of
/// the header and the full length that the header states, and the receive
/// command follows as the last frame. With a buffer shorter than the payload,
/// the number of bytes copied is the length of the buffer.
pub proof fn lemma_receive_skips_whole_datagram<E>(
    udp: UdpSocket,
    pointer: u16,
    header: Seq<u8>,
    payload: Seq<u8>,
    capacity: nat,
)
    ensures
        ({
            let run = udp.datagram_frames::<E>(pointer, header, payload);
            let registers = udp.socket().register();
            &&& run[run.len() - 2] == Frame::<E>::written(
                registers,
                socketn::RX_DATA_READ_POINTER,
                be16_bytes(advanced(pointer, 8 + header_length(header))),
            )
            &&& run.last() == Frame::<E>::written(
                registers,
                socketn::COMMAND,
                seq![socketn::Command::Receive.bits()],
            )
            &&& capacity < header_length(header) ==> UdpSocket::copied_len(
                capacity,
                header_length(header),
            ) == capacity
            &&& capacity >= header_length(header) ==> UdpSocket::copied_len(
                capacity,
                header_length(header),
            ) == header_length(header)
        }),
{
}

} // verus!
