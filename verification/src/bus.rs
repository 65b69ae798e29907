//! Frame transport.
//!
//! Every access to the chip is one frame: the host asserts bus-select, sends a
//! three-byte header (the 16-bit offset inside a block, high byte first, then
//! the control byte), exchanges the data bytes, and releases bus-select. A
//! frame has no length field; it ends when bus-select is released.
//!
//! [`ActiveBus`] is the frame-level interface to the chip, and
//! [`ActiveFourWire`] implements it on top of a byte-exchange primitive and a
//! bus-select line. The rest of the driver drives a bus through a
//! [`TracedBus`], which keeps the history of the frames for the contracts.

use vstd::prelude::*;

pub mod four_wire;
pub mod traced;
pub mod wires;

pub use four_wire::ActiveFourWire;
pub use traced::TracedBus;

verus! {

/// Which way the data bytes of a frame travel.
#[derive(Clone, Copy, PartialEq, Eq, Structural, Debug)]
pub enum Direction {
    /// The chip sends the data bytes to the host.
    Read,
    /// The host sends the data bytes to the chip.
    Write,
}

/// Bit of the control byte that is set in a write frame and clear in a read frame.
pub const WRITE_MODE_MASK: u8 = 0b0000_0100;

/// The control byte of a frame: the block-select value in the five high bits,
/// the direction in bit 2, and the two low bits clear, which selects the
/// variable-length data mode. Only the low five bits of `block` are used.
pub open spec fn control_byte_of(block: u8, direction: Direction) -> u8 {
    ((block as int % 32) * 8 + if direction is Write { 4int } else { 0int }) as u8
}

/// Computes the control byte of a frame.
pub fn control_byte(block: u8, direction: Direction) -> (control: u8)
    ensures
        control == control_byte_of(block, direction),
{
    let select: u8 = block << 3;
    assert(select == (block as int % 32) * 8) by (bit_vector)
        requires
            select == block << 3,
    ;
    match direction {
        Direction::Write => {
            let control: u8 = select | WRITE_MODE_MASK;
            assert(control == select + 4) by (bit_vector)
                requires
                    control == select | 4u8,
                    select % 8 == 0,
            ;
            control
        },
        Direction::Read => select,
    }
}

/// The three header bytes of a frame: offset high byte, offset low byte,
/// control byte.
pub open spec fn header_of(block: u8, address: u16, direction: Direction) -> Seq<u8> {
    seq![(address / 256) as u8, (address % 256) as u8, control_byte_of(block, direction)]
}

/// Builds the header of a frame.
pub fn encode_header(block: u8, address: u16, direction: Direction) -> (header: [u8; 3])
    ensures
        header@ == header_of(block, address, direction),
{
    let hi: u8 = (address / 256) as u8;
    let lo: u8 = (address % 256) as u8;
    let header: [u8; 3] = [hi, lo, control_byte(block, direction)];
    assert(header@ =~= header_of(block, address, direction));
    header
}

/// The block-select value, offset and direction that a header carries.
pub open spec fn header_fields(header: Seq<u8>) -> (u8, u16, Direction)
    recommends
        header.len() == 3,
{
    (
        header[2] / 8,
        (header[0] as int * 256 + header[1] as int) as u16,
        if (header[2] as int / 4) % 2 == 1 {
            Direction::Write
        } else {
            Direction::Read
        },
    )
}

/// Reads the block-select value, offset and direction out of a header.
pub fn decode_header(header: [u8; 3]) -> (fields: (u8, u16, Direction))
    ensures
        fields == header_fields(header@),
{
    let control: u8 = header[2];
    let block: u8 = control >> 3;
    assert(block == control / 8) by (bit_vector)
        requires
            block == control >> 3,
    ;
    let write: bool = control & WRITE_MODE_MASK != 0;
    assert(write <==> (control as int / 4) % 2 == 1) by (bit_vector)
        requires
            write <==> control & 4u8 != 0,
    ;
    let address: u16 = header[0] as u16 * 256 + header[1] as u16;
    let direction = if write {
        Direction::Write
    } else {
        Direction::Read
    };
    (block, address, direction)
}

/// A header gives back the fields it was built from, the block-select value
/// reduced to its five bits.
pub proof fn lemma_header_round_trip(block: u8, address: u16, direction: Direction)
    ensures
        header_of(block, address, direction).len() == 3,
        header_fields(header_of(block, address, direction)) == (
            (block % 32) as u8,
            address,
            direction,
        ),
{
}

/// One frame as the bus saw it: what the driver asked for and what came of it.
///
/// For a write, `data` is what the driver sent. For a read, `data` is what the
/// caller's buffer held once the frame was over, so its length is the number
/// of bytes asked for, whether or not the frame succeeded.
pub struct Frame<E> {
    pub direction: Direction,
    pub block: u8,
    pub address: u16,
    pub data: Seq<u8>,
    /// Why the frame failed; `None` when it succeeded.
    pub error: Option<E>,
}

/// The error of a result that carries no value; `None` for `Ok`.
pub open spec fn error_of<E>(result: Result<(), E>) -> Option<E> {
    match result {
        Ok(_) => None,
        Err(e) => Some(e),
    }
}

impl<E> Frame<E> {
    /// A write of `data` to `address` in `block` that succeeded.
    pub open spec fn written(block: u8, address: u16, data: Seq<u8>) -> Frame<E> {
        Frame { direction: Direction::Write, block, address, data, error: None }
    }

    /// A read from `address` in `block` that succeeded and brought `data`.
    pub open spec fn fetched(block: u8, address: u16, data: Seq<u8>) -> Frame<E> {
        Frame { direction: Direction::Read, block, address, data, error: None }
    }

    /// Both frames ask the same of the bus: the same direction, block, offset
    /// and number of bytes, and for a write the same bytes.
    pub open spec fn asks_like(self, other: Frame<E>) -> bool {
        &&& self.direction == other.direction
        &&& self.block == other.block
        &&& self.address == other.address
        &&& self.data.len() == other.data.len()
        &&& self.direction is Write ==> self.data == other.data
    }
}

/// `after` is `before` followed by one read of `len` bytes from `address` in
/// `block`.
pub open spec fn fetched_once<E>(
    before: Seq<Frame<E>>,
    after: Seq<Frame<E>>,
    block: u8,
    address: u16,
    len: nat,
) -> bool {
    &&& after == before.push(after.last())
    &&& after.last().direction == Direction::Read
    &&& after.last().block == block
    &&& after.last().address == address
    &&& after.last().data.len() == len
}

/// `after` is `before` followed by the frames of `run` up to and including
/// one that failed with `error`: the frames before it went as in `run`, the
/// failed one asked what `run` asks at that place, and nothing was issued
/// after it.
pub open spec fn failed_in<E>(
    before: Seq<Frame<E>>,
    after: Seq<Frame<E>>,
    run: Seq<Frame<E>>,
    error: E,
) -> bool {
    let issued = after.len() - before.len();
    &&& 0 < issued <= run.len()
    &&& after.drop_last() == before + run.take(issued - 1)
    &&& after.last().asks_like(run[issued - 1])
    &&& after.last().error == Some(error)
}

/// A frame that failed at place `k` of `run`, after the frames before it went
/// as in `run`, makes a failed run.
pub proof fn lemma_failed_at<E>(
    before: Seq<Frame<E>>,
    after: Seq<Frame<E>>,
    run: Seq<Frame<E>>,
    k: int,
    error: E,
)
    requires
        0 <= k < run.len(),
        after.len() > 0,
        after.drop_last() == before + run.take(k),
        after.last().asks_like(run[k]),
        after.last().error == Some(error),
    ensures
        failed_in(before, after, run, error),
{
    assert(after.drop_last().len() == after.len() - 1);
    assert((before + run.take(k)).len() == before.len() + k);
}

/// A frame that went as `run` has it at place `k`, after the `k` frames before
/// it, makes `k + 1` frames of `run`.
pub proof fn lemma_went_on<E>(
    before: Seq<Frame<E>>,
    earlier: Seq<Frame<E>>,
    after: Seq<Frame<E>>,
    run: Seq<Frame<E>>,
    k: int,
)
    requires
        0 <= k < run.len(),
        earlier == before + run.take(k),
        after == earlier.push(run[k]),
    ensures
        after == before + run.take(k + 1),
        after.drop_last() == before + run.take(k),
{
    assert(after =~= before + run.take(k + 1));
    assert(after.drop_last() =~= before + run.take(k));
}

/// A run that fails inside one of its parts fails as a whole at the same frame:
/// if `part` was started after `head` had gone through and failed, then the run
/// `head + part + tail` failed.
pub proof fn lemma_failed_in_part<E>(
    before: Seq<Frame<E>>,
    after: Seq<Frame<E>>,
    head: Seq<Frame<E>>,
    part: Seq<Frame<E>>,
    tail: Seq<Frame<E>>,
    error: E,
)
    requires
        failed_in(before + head, after, part, error),
    ensures
        failed_in(before, after, head + part + tail, error),
{
    let run = head + part + tail;
    let issued = after.len() - before.len();
    let inner = issued - head.len();
    assert(run.take(issued - 1) =~= head + part.take(inner - 1));
    assert(before + run.take(issued - 1) =~= (before + head) + part.take(inner - 1));
    assert(run[issued - 1] == part[inner - 1]);
}

/// A bus on which frames can be exchanged with the chip.
///
/// What a read brings and whether a frame succeeds is up to the chip and the
/// wiring; nothing is promised of either. A frame that fails may have been
/// carried out in part. The one thing stated of a read, that the buffer is as
/// long afterwards as it was before, holds of every implementation: a slice
/// cannot be made longer or shorter through a reference to it.
pub trait ActiveBus {
    /// Why a frame can fail.
    type Error;

    /// Reads `data.len()` bytes from `address` in `block` into `data`.
    fn read_frame(&mut self, block: u8, address: u16, data: &mut [u8]) -> (result: Result<
        (),
        Self::Error,
    >)
        ensures
            final(data)@.len() == old(data)@.len(),
    ;

    /// Writes the bytes of `data` to `address` in `block`.
    fn write_frame(&mut self, block: u8, address: u16, data: &[u8]) -> Result<(), Self::Error>;
}

} // verus!
