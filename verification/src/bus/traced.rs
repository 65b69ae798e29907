//! A bus with the history of its frames.

use super::{error_of, ActiveBus, Direction, Frame};
use vstd::prelude::*;

verus! {

/// A bus together with the history of the frames driven on it.
///
/// The driver reaches the chip only through the two methods of this type, and
/// each of them adds exactly one frame to the history, also when the frame
/// fails. The history exists for the contracts alone: it says what a
/// procedure asked of the chip, in which order, and what it was answered.
pub struct TracedBus<SpiBus: ActiveBus> {
    bus: SpiBus,
    frames: Ghost<Seq<Frame<SpiBus::Error>>>,
}

impl<SpiBus: ActiveBus> TracedBus<SpiBus> {
    /// Every frame driven on this bus since it was taken over, oldest first.
    pub closed spec fn frames(&self) -> Seq<Frame<SpiBus::Error>> {
        self.frames@
    }

    pub closed spec fn spec_inner(&self) -> &SpiBus {
        &self.bus
    }

    /// Takes over a bus. The history starts empty.
    pub fn new(bus: SpiBus) -> (traced: Self)
        ensures
            traced.frames() == Seq::<Frame<SpiBus::Error>>::empty(),
            *traced.inner() == bus,
    {
        TracedBus { bus, frames: Ghost(Seq::empty()) }
    }

    /// The bus underneath, to look at.
    #[verifier::when_used_as_spec(spec_inner)]
    pub fn inner(&self) -> (bus: &SpiBus)
        ensures
            bus == self.inner(),
    {
        &self.bus
    }

    /// Gives the bus back.
    pub fn release(self) -> (bus: SpiBus)
        ensures
            bus == *self.inner(),
    {
        self.bus
    }

    /// Reads `data.len()` bytes from `address` in `block` into `data`.
    ///
    /// This is one call of the `read_frame` of the bus underneath, with these
    /// arguments: the result, what `data` holds afterwards and the new state of
    /// the bus are what that call gave. The frame joins the history.
    pub fn read_frame(&mut self, block: u8, address: u16, data: &mut [u8]) -> (result: Result<
        (),
        SpiBus::Error,
    >)
        ensures
            final(data)@.len() == old(data)@.len(),
            final(self).frames() == old(self).frames().push(
                (Frame {
                    direction: Direction::Read,
                    block,
                    address,
                    data: final(data)@,
                    error: error_of(result),
                }),
            ),
            exists|bus: &mut SpiBus, buffer: &mut [u8]|
                {
                    &&& *bus == *old(self).inner()
                    &&& *final(bus) == *final(self).inner()
                    &&& buffer@ == old(data)@
                    &&& final(buffer)@ == final(data)@
                    &&& call_ensures(
                        <SpiBus as ActiveBus>::read_frame,
                        (bus, block, address, buffer),
                        result,
                    )
                },
    {
        let result = self.bus.read_frame(block, address, data);
        proof {
            self.frames@ = self.frames@.push(
                Frame {
                    direction: Direction::Read,
                    block,
                    address,
                    data: data@,
                    error: error_of(result),
                },
            );
        }
        result
    }

    /// Writes the bytes of `data` to `address` in `block`.
    ///
    /// This is one call of the `write_frame` of the bus underneath, with these
    /// arguments: the result and the new state of the bus are what that call
    /// gave. The frame joins the history.
    pub fn write_frame(&mut self, block: u8, address: u16, data: &[u8]) -> (result: Result<
        (),
        SpiBus::Error,
    >)
        ensures
            final(self).frames() == old(self).frames().push(
                (Frame {
                    direction: Direction::Write,
                    block,
                    address,
                    data: data@,
                    error: error_of(result),
                }),
            ),
            exists|bus: &mut SpiBus|
                {
                    &&& *bus == *old(self).inner()
                    &&& *final(bus) == *final(self).inner()
                    &&& call_ensures(
                        <SpiBus as ActiveBus>::write_frame,
                        (bus, block, address, data),
                        result,
                    )
                },
    {
        let result = self.bus.write_frame(block, address, data);
        proof {
            self.frames@ = self.frames@.push(
                Frame {
                    direction: Direction::Write,
                    block,
                    address,
                    data: data@,
                    error: error_of(result),
                },
            );
        }
        result
    }
}

} // verus!
