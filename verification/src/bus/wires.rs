//! The wires between the host and the chip: a serial link and the bus-select
//! line, together with the history of what happened on them.

use vstd::prelude::*;

verus! {

/// A full-duplex serial link: one byte goes out and the byte that the other
/// side shifted back during the same eight clocks comes in.
pub trait ByteExchange {
    /// Why an exchange can fail.
    type Error;

    /// Sends `byte` and returns the byte received in exchange.
    fn exchange(&mut self, byte: u8) -> Result<u8, Self::Error>;
}

/// The bus-select line of the chip.
pub trait BusSelect {
    /// Asserts bus-select: the chip starts to listen for a frame.
    fn select(&mut self);

    /// Releases bus-select: the frame, if one was under way, is over.
    fn release(&mut self);
}

/// One thing that happened on the wires.
pub enum WireEvent<E> {
    /// Bus-select was asserted.
    Select,
    /// `sent` was shifted out; `reply` is the byte shifted in, or why the
    /// exchange failed.
    Exchange { sent: u8, reply: Result<u8, E> },
    /// Bus-select was released.
    Release,
}

/// A serial link and a bus-select line, with the history of the wires.
///
/// The wires are driven only through the three methods of this type. Each of
/// them is one call of the link or of the line, and adds what happened to the
/// history.
pub struct Wires<Spi: ByteExchange, ChipSelect: BusSelect> {
    spi: Spi,
    cs: ChipSelect,
    events: Ghost<Seq<WireEvent<Spi::Error>>>,
}

impl<Spi: ByteExchange, ChipSelect: BusSelect> Wires<Spi, ChipSelect> {
    /// Everything that happened on the wires so far, oldest first.
    pub closed spec fn events(&self) -> Seq<WireEvent<Spi::Error>> {
        self.events@
    }

    /// The serial link, as it is now.
    pub closed spec fn link(&self) -> Spi {
        self.spi
    }

    /// The bus-select line, as it is now.
    pub closed spec fn select_line(&self) -> ChipSelect {
        self.cs
    }

    /// Takes over the link and the bus-select line. The history starts empty.
    pub fn new(spi: Spi, cs: ChipSelect) -> (wires: Self)
        ensures
            wires.events() == Seq::<WireEvent<Spi::Error>>::empty(),
            wires.link() == spi,
            wires.select_line() == cs,
    {
        Wires { spi, cs, events: Ghost(Seq::empty()) }
    }

    /// Gives the link and the bus-select line back.
    pub fn release(self) -> (parts: (Spi, ChipSelect))
        ensures
            parts.0 == self.link(),
            parts.1 == self.select_line(),
    {
        (self.spi, self.cs)
    }

    /// Asserts bus-select, by one call of the line's `select`.
    pub fn select(&mut self)
        ensures
            final(self).events() == old(self).events().push(WireEvent::Select),
            final(self).link() == old(self).link(),
            exists|line: &mut ChipSelect|
                {
                    &&& *line == old(self).select_line()
                    &&& *final(line) == final(self).select_line()
                    &&& call_ensures(<ChipSelect as BusSelect>::select, (line,), ())
                },
    {
        self.cs.select();
        proof {
            self.events@ = self.events@.push(WireEvent::Select);
        }
    }

    /// Releases bus-select, by one call of the line's `release`.
    pub fn deselect(&mut self)
        ensures
            final(self).events() == old(self).events().push(WireEvent::Release),
            final(self).link() == old(self).link(),
            exists|line: &mut ChipSelect|
                {
                    &&& *line == old(self).select_line()
                    &&& *final(line) == final(self).select_line()
                    &&& call_ensures(<ChipSelect as BusSelect>::release, (line,), ())
                },
    {
        self.cs.release();
        proof {
            self.events@ = self.events@.push(WireEvent::Release);
        }
    }

    /// Exchanges one byte, by one call of the link's `exchange`. The reply is
    /// what that call gave.
    pub fn exchange(&mut self, byte: u8) -> (reply: Result<u8, Spi::Error>)
        ensures
            final(self).events() == old(self).events().push(
                (WireEvent::Exchange { sent: byte, reply }),
            ),
            final(self).select_line() == old(self).select_line(),
            exists|link: &mut Spi|
                {
                    &&& *link == old(self).link()
                    &&& *final(link) == final(self).link()
                    &&& call_ensures(<Spi as ByteExchange>::exchange, (link, byte), reply)
                },
    {
        let reply = self.spi.exchange(byte);
        proof {
            self.events@ = self.events@.push(WireEvent::Exchange { sent: byte, reply });
        }
        reply
    }
}

} // verus!
