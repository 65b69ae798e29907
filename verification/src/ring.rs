//! Circular buffers.
//!
//! The transmit and the receive buffer of a socket are rings. A position in
//! the data stream is a 16-bit pointer that counts on modulo 65536, whatever
//! the size of the buffer; the place in the buffer block is the pointer modulo
//! the buffer size. A run of bytes that would pass the end of the buffer
//! continues at its start, so it takes two frames instead of one.

use crate::bus::{failed_in, ActiveBus, Direction, Frame, TracedBus};
use vstd::prelude::*;

verus! {

/// The sizes that a buffer can have: the powers of two that a 16-bit value
/// can hold. Each of them divides 65536, so that a pointer that wraps to 0
/// keeps its place in the buffer.
pub open spec fn is_buffer_size(size: u16) -> bool {
    ||| size == 1
    ||| size == 2
    ||| size == 4
    ||| size == 8
    ||| size == 16
    ||| size == 32
    ||| size == 64
    ||| size == 128
    ||| size == 256
    ||| size == 512
    ||| size == 1024
    ||| size == 2048
    ||| size == 4096
    ||| size == 8192
    ||| size == 16384
    ||| size == 32768
}

/// Tells whether `size` is a size that a buffer can have.
pub fn check_buffer_size(size: u16) -> (valid: bool)
    ensures
        valid == is_buffer_size(size),
{
    let valid: bool = size != 0 && size & (size - 1) as u16 == 0;
    assert(valid == is_buffer_size(size)) by (bit_vector)
        requires
            valid == (size != 0 && size & (size - 1) as u16 == 0),
    ;
    valid
}

/// The place in a buffer of `size` bytes that `pointer` stands for.
pub open spec fn wrapped_offset(pointer: u16, size: u16) -> int
    recommends
        size > 0,
{
    pointer as int % size as int
}

/// How many of `len` bytes that start at `pointer` lie before the end of a
/// buffer of `size` bytes: all of them when they fit, else those up to the end.
pub open spec fn first_chunk_len(pointer: u16, size: u16, len: int) -> int
    recommends
        size > 0,
{
    let room = size - wrapped_offset(pointer, size);
    if len <= room {
        len
    } else {
        room
    }
}

/// The pointer `count` bytes after `pointer`. Pointers count modulo 65536,
/// not modulo the size of the buffer.
pub open spec fn advanced(pointer: u16, count: int) -> u16 {
    ((pointer + count) % 65536) as u16
}

/// Moves a pointer on by `count` bytes.
pub fn advance(pointer: u16, count: usize) -> (next: u16)
    ensures
        next == advanced(pointer, count as int),
{
    let step: u32 = (count % 65536) as u32;
    let next: u32 = (pointer as u32 + step) % 65536;
    next as u16
}

/// How far the pointer `ahead` is in front of the pointer `behind`, counting
/// modulo 65536.
pub open spec fn distance(behind: u16, ahead: u16) -> u16 {
    ((ahead - behind) % 65536) as u16
}

/// The number of received bytes that the host has not read yet: how far the
/// receive write pointer is in front of the receive read pointer.
pub fn unread_bytes(rx_read: u16, rx_write: u16) -> (count: u16)
    ensures
        count == distance(rx_read, rx_write),
{
    if rx_write >= rx_read {
        rx_write - rx_read
    } else {
        (65536 - (rx_read - rx_write) as u32) as u16
    }
}

/// The room left in a transmit buffer of `size` bytes: the size less the
/// bytes between the transmit read pointer and the transmit write pointer,
/// modulo 65536.
pub fn free_space(size: u16, tx_read: u16, tx_write: u16) -> (room: u16)
    ensures
        room == distance(distance(tx_read, tx_write), size),
{
    unread_bytes(unread_bytes(tx_read, tx_write), size)
}

/// A pointer that was moved on by `count` bytes is `count` bytes in front of
/// where it was, modulo 65536.
pub proof fn lemma_advanced_distance(pointer: u16, count: nat)
    ensures
        distance(pointer, advanced(pointer, count as int)) == count % 65536,
{
}

/// Moving a pointer on moves its place in the buffer on by as much, round the
/// end of the buffer. This is why pointers can count modulo 65536 whatever the
/// size of the buffer, and it holds because the size divides 65536.
pub proof fn lemma_advanced_offset(pointer: u16, count: nat, size: u16)
    requires
        is_buffer_size(size),
    ensures
        wrapped_offset(advanced(pointer, count as int), size) == (wrapped_offset(pointer, size)
            + count) % (size as int),
{
    let laps: int = if size == 1 {
        65536
    } else if size == 2 {
        32768
    } else if size == 4 {
        16384
    } else if size == 8 {
        8192
    } else if size == 16 {
        4096
    } else if size == 32 {
        2048
    } else if size == 64 {
        1024
    } else if size == 128 {
        512
    } else if size == 256 {
        256
    } else if size == 512 {
        128
    } else if size == 1024 {
        64
    } else if size == 2048 {
        32
    } else if size == 4096 {
        16
    } else if size == 8192 {
        8
    } else if size == 16384 {
        4
    } else {
        2
    };
    assert(size * laps == 65536);
    vstd::arithmetic::div_mod::lemma_mod_mod(pointer + count, size as int, laps);
    vstd::arithmetic::div_mod::lemma_add_mod_noop_right(count as int, pointer as int, size as int);
}

/// Cuts a run of `len` bytes that starts at `pointer` where it passes the end
/// of a buffer of `size` bytes. The result is the place of the first byte in
/// the buffer, the number of bytes up to the end of the buffer, and the number
/// of bytes that continue at offset 0.
pub fn split_at_wrap(pointer: u16, size: u16, len: usize) -> (split: (u16, usize, usize))
    requires
        size > 0,
    ensures
        split.0 == wrapped_offset(pointer, size),
        split.1 == first_chunk_len(pointer, size, len as int),
        split.1 + split.2 == len,
{
    let offset: u16 = pointer % size;
    let room: usize = (size - offset) as usize;
    if len <= room {
        (offset, len, 0)
    } else {
        (offset, room, len - room)
    }
}

/// The frames that move `data` to or from a buffer of `size` bytes in `block`,
/// starting at `pointer`, when all of them succeed: one frame at the place of
/// `pointer` when the bytes fit before the end of the buffer; else one frame
/// with the bytes up to the end, and one at offset 0 with the rest.
pub open spec fn wrapped_frames<E>(
    direction: Direction,
    block: u8,
    pointer: u16,
    size: u16,
    data: Seq<u8>,
) -> Seq<Frame<E>>
    recommends
        size > 0,
{
    let offset = wrapped_offset(pointer, size) as u16;
    let first = first_chunk_len(pointer, size, data.len() as int);
    if first == data.len() {
        seq![Frame { direction, block, address: offset, data, error: None }]
    } else {
        seq![
            Frame { direction, block, address: offset, data: data.take(first), error: None },
            Frame { direction, block, address: 0, data: data.skip(first), error: None },
        ]
    }
}

/// Writes `data` to the buffer of `size` bytes in `block`, starting at
/// `pointer` and continuing at the start of the buffer where the end is passed.
pub fn write_wrapped<SpiBus: ActiveBus>(
    bus: &mut TracedBus<SpiBus>,
    block: u8,
    pointer: u16,
    size: u16,
    data: &[u8],
) -> (result: Result<(), SpiBus::Error>)
    requires
        size > 0,
    ensures
        match result {
            Ok(()) => final(bus).frames() == old(bus).frames() + wrapped_frames::<SpiBus::Error>(
                Direction::Write,
                block,
                pointer,
                size,
                data@,
            ),
            Err(e) => failed_in(
                old(bus).frames(),
                final(bus).frames(),
                wrapped_frames::<SpiBus::Error>(Direction::Write, block, pointer, size, data@),
                e,
            ),
        },
{
    let ghost before = bus.frames();
    let ghost run = wrapped_frames::<SpiBus::Error>(Direction::Write, block, pointer, size, data@);
    let (offset, first, second) = split_at_wrap(pointer, size, data.len());
    if second == 0 {
        let result = bus.write_frame(block, offset, data);
        proof {
            assert(bus.frames().drop_last() =~= before + run.take(0));
            if result is Ok {
                assert(bus.frames() =~= before + run);
            }
        }
        result
    } else {
        let (head, tail) = data.split_at(first);
        match bus.write_frame(block, offset, head) {
            Ok(()) => {},
            Err(e) => {
                proof {
                    assert(bus.frames().drop_last() =~= before + run.take(0));
                }
                return Err(e);
            },
        }
        let result = bus.write_frame(block, 0, tail);
        proof {
            assert(bus.frames().drop_last() =~= before + run.take(1));
            if result is Ok {
                assert(bus.frames() =~= before + run);
            }
        }
        result
    }
}

/// Fills `data` from the buffer of `size` bytes in `block`, starting at
/// `pointer` and continuing at the start of the buffer where the end is passed.
pub fn read_wrapped<SpiBus: ActiveBus>(
    bus: &mut TracedBus<SpiBus>,
    block: u8,
    pointer: u16,
    size: u16,
    data: &mut [u8],
) -> (result: Result<(), SpiBus::Error>)
    requires
        size > 0,
    ensures
        final(data)@.len() == old(data)@.len(),
        match result {
            Ok(()) => final(bus).frames() == old(bus).frames() + wrapped_frames::<SpiBus::Error>(
                Direction::Read,
                block,
                pointer,
                size,
                final(data)@,
            ),
            Err(e) => failed_in(
                old(bus).frames(),
                final(bus).frames(),
                wrapped_frames::<SpiBus::Error>(
                    Direction::Read,
                    block,
                    pointer,
                    size,
                    final(data)@,
                ),
                e,
            ),
        },
{
    let ghost before = bus.frames();
    let (offset, first, second) = split_at_wrap(pointer, size, data.len());
    if second == 0 {
        let result = bus.read_frame(block, offset, data);
        proof {
            let run = wrapped_frames::<SpiBus::Error>(Direction::Read, block, pointer, size, data@);
            assert(bus.frames().drop_last() =~= before + run.take(0));
            if result is Ok {
                assert(bus.frames() =~= before + run);
            }
        }
        result
    } else {
        let (head, tail) = data.split_at_mut(first);
        match bus.read_frame(block, offset, head) {
            Ok(()) => {},
            Err(e) => {
                proof {
                    let run = wrapped_frames::<SpiBus::Error>(
                        Direction::Read,
                        block,
                        pointer,
                        size,
                        head@ + tail@,
                    );
                    assert(bus.frames().drop_last() =~= before + run.take(0));
                    assert((head@ + tail@).take(first as int) =~= head@);
                }
                return Err(e);
            },
        }
        let result = bus.read_frame(block, 0, tail);
        proof {
            let run = wrapped_frames::<SpiBus::Error>(
                Direction::Read,
                block,
                pointer,
                size,
                head@ + tail@,
            );
            assert((head@ + tail@).take(first as int) =~= head@);
            assert((head@ + tail@).skip(first as int) =~= tail@);
            assert(bus.frames().drop_last() =~= before + run.take(1));
            if result is Ok {
                assert(bus.frames() =~= before + run);
            }
        }
        result
    }
}

/// A buffer block after `data` was written to it from `address` on.
pub open spec fn stored(memory: Seq<u8>, address: int, data: Seq<u8>) -> Seq<u8> {
    Seq::new(
        memory.len(),
        |i: int|
            if address <= i < address + data.len() {
                data[i - address]
            } else {
                memory[i]
            },
    )
}

/// A buffer block after the writes of `frames`, taken in order.
pub open spec fn stored_all<E>(memory: Seq<u8>, frames: Seq<Frame<E>>) -> Seq<u8>
    decreases frames.len(),
{
    if frames.len() == 0 {
        memory
    } else {
        stored(
            stored_all(memory, frames.drop_last()),
            frames.last().address as int,
            frames.last().data,
        )
    }
}

/// The `len` bytes that a buffer block holds from `offset` on, going round
/// from its end to its start.
pub open spec fn ring_read(memory: Seq<u8>, offset: int, len: nat) -> Seq<u8> {
    Seq::new(len, |i: int| memory[(offset + i) % (memory.len() as int)])
}

/// How a run of bytes is cut: into one frame at the place of the pointer when
/// it ends before the end of the buffer, else into two, of which the first
/// goes up to the end of the buffer and the second starts at offset 0 and has
/// the rest. Either way the frames hold the bytes of the run in order, none
/// left out and none twice.
pub proof fn lemma_wrapped_frames_cover<E>(
    direction: Direction,
    block: u8,
    pointer: u16,
    size: u16,
    data: Seq<u8>,
)
    requires
        size > 0,
    ensures
        ({
            let frames = wrapped_frames::<E>(direction, block, pointer, size, data);
            let offset = wrapped_offset(pointer, size);
            &&& 0 <= offset < size
            &&& frames[0].address == offset
            &&& offset + data.len() <= size ==> frames.len() == 1 && frames[0].data == data
            &&& offset + data.len() > size ==> {
                &&& frames.len() == 2
                &&& frames[0].data.len() == size - offset
                &&& frames[1].address == 0
                &&& frames[1].data.len() == data.len() - (size - offset)
                &&& frames[0].data + frames[1].data == data
            }
        }),
{
    let offset = wrapped_offset(pointer, size);
    let first = first_chunk_len(pointer, size, data.len() as int);
    if offset + data.len() > size {
        assert(data.take(first) + data.skip(first) =~= data);
    }
}

proof fn lemma_second_lap(x: int, size: int)
    by (nonlinear_arith)
    requires
        0 < size,
        size <= x < 2 * size,
    ensures
        x % size == x - size,
{
}

proof fn lemma_first_lap(x: int, size: int)
    by (nonlinear_arith)
    requires
        0 <= x < size,
    ensures
        x % size == x,
{
}

/// What is written into a ring comes out of it again: after the frames that
/// write `data` at `pointer`, reading as many bytes from the place of
/// `pointer` on, round the end of the buffer, gives `data`. This holds for
/// every run that is no longer than the buffer; a longer one overwrites its
/// own start.
pub proof fn lemma_wrapped_write_reads_back<E>(
    memory: Seq<u8>,
    block: u8,
    pointer: u16,
    data: Seq<u8>,
)
    requires
        0 < memory.len() <= u16::MAX,
        data.len() <= memory.len(),
    ensures
        ring_read(
            stored_all(
                memory,
                wrapped_frames::<E>(
                    Direction::Write,
                    block,
                    pointer,
                    memory.len() as u16,
                    data,
                ),
            ),
            wrapped_offset(pointer, memory.len() as u16),
            data.len(),
        ) == data,
{
    let size = memory.len() as u16;
    let frames = wrapped_frames::<E>(Direction::Write, block, pointer, size, data);
    let offset = wrapped_offset(pointer, size);
    let first = first_chunk_len(pointer, size, data.len() as int);
    let after = stored_all(memory, frames);
    let back = ring_read(after, offset, data.len());
    reveal_with_fuel(stored_all, 3);
    lemma_wrapped_frames_cover::<E>(Direction::Write, block, pointer, size, data);
    assert(after.len() == memory.len());
    assert forall|i: int| 0 <= i < data.len() implies back[i] == data[i] by {
        if offset + i < size {
            lemma_first_lap(offset + i, size as int);
        } else {
            lemma_second_lap(offset + i, size as int);
        }
        if frames.len() == 2 {
            assert(frames.drop_last() =~= seq![frames[0]]);
            assert(frames.drop_last().drop_last() =~= Seq::<Frame<E>>::empty());
        } else {
            assert(frames.drop_last() =~= Seq::<Frame<E>>::empty());
        }
    }
    assert(back =~= data);
}

} // verus!
