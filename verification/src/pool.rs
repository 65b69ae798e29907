//! Which of the eight sockets are in use.
//!
//! A socket is handed out to one owner at a time. The pool keeps one bit for
//! each socket, set while the socket is free, and hands out the free socket
//! with the lowest index.

use crate::register::SOCKET_COUNT;
use crate::socket::Socket;
use bit_field::BitField;
use vstd::prelude::*;

verus! {

/// Whether bit `index` of `bits` is set, bit 0 being the least significant.
pub open spec fn bit_at(bits: u8, index: u8) -> bool {
    bits & (1u8 << index) != 0
}

/// `bits` with bit `index` set, if `value` is true, or cleared, if it is
/// false, and every other bit as it was.
pub open spec fn with_bit(bits: u8, index: u8, value: bool) -> u8 {
    if value {
        bits | (1u8 << index)
    } else {
        bits & !(1u8 << index)
    }
}

/// `bit_field::BitField::get_bit` on a byte. The contract claims that it tells
/// whether the bit at `index` is set, index 0 being the least significant bit.
/// It panics on an index of 8 or more, which `requires` leaves out.
#[verifier::external_body]
fn get_bit(bits: u8, index: u8) -> (set: bool)
    requires
        index < 8,
    ensures
        set == bit_at(bits, index),
{
    bits.get_bit(index as usize)
}

/// `bit_field::BitField::set_bit` on a byte. The contract claims that it sets
/// the bit at `index` to `value` and leaves the other bits as they were. It
/// panics on an index of 8 or more, which `requires` leaves out.
#[verifier::external_body]
fn set_bit(bits: u8, index: u8, value: bool) -> (changed: u8)
    requires
        index < 8,
    ensures
        changed == with_bit(bits, index, value),
{
    let mut changed = bits;
    changed.set_bit(index as usize, value);
    changed
}

/// Changing one bit changes that bit and no other.
pub proof fn lemma_with_bit(bits: u8, index: u8, other: u8, value: bool)
    by (bit_vector)
    requires
        index < 8,
        other < 8,
    ensures
        bit_at(with_bit(bits, index, value), other) == (if other == index {
            value
        } else {
            bit_at(bits, other)
        }),
{
}

/// The sockets that nobody has taken.
#[derive(Debug)]
pub struct SocketPool {
    free: u8,
}

impl SocketPool {
    /// Whether socket `index` is in the pool, that is, free to be taken.
    pub closed spec fn has(&self, index: u8) -> bool {
        bit_at(self.free, index)
    }

    /// A pool with all eight sockets in it.
    pub fn new() -> (pool: Self)
        ensures
            forall|index: u8| index < SOCKET_COUNT ==> pool.has(index),
    {
        let pool = SocketPool { free: 0xFF };
        assert forall|index: u8| index < SOCKET_COUNT implies pool.has(index) by {
            assert(bit_at(0xFF, index)) by (bit_vector)
                requires
                    index < 8,
            ;
        }
        pool
    }

    /// Tells whether socket `index` is in the pool.
    pub fn is_free(&self, index: u8) -> (free: bool)
        requires
            index < SOCKET_COUNT,
        ensures
            free == self.has(index),
    {
        get_bit(self.free, index)
    }

    /// Takes the free socket with the lowest index out of the pool. With no
    /// socket free, the pool stays as it is and there is nothing to take.
    pub fn take_socket(&mut self) -> (socket: Option<Socket>)
        ensures
            match socket {
                Some(taken) => {
                    &&& old(self).has(taken.index())
                    &&& forall|index: u8| index < taken.index() ==> !old(self).has(index)
                    &&& forall|index: u8|
                        index < SOCKET_COUNT ==> final(self).has(index) == (old(self).has(index)
                            && index != taken.index())
                },
                None => {
                    &&& forall|index: u8| index < SOCKET_COUNT ==> !old(self).has(index)
                    &&& *final(self) == *old(self)
                },
            },
    {
        let mut index: u8 = 0;
        while index < SOCKET_COUNT
            invariant
                index <= SOCKET_COUNT,
                *self == *old(self),
                forall|lower: u8| lower < index ==> !self.has(lower),
            decreases SOCKET_COUNT - index,
        {
            if get_bit(self.free, index) {
                let ghost before = self.free;
                self.free = set_bit(self.free, index, false);
                proof {
                    assert forall|other: u8| other < SOCKET_COUNT implies self.has(other) == (
                    old(self).has(other) && other != index) by {
                        lemma_with_bit(before, index, other, false);
                    }
                }
                return Some(Socket::new(index));
            }
            index += 1;
        }
        None
    }

    /// Puts a socket back into the pool.
    pub fn release_socket(&mut self, socket: Socket)
        ensures
            forall|index: u8|
                index < SOCKET_COUNT ==> final(self).has(index) == (old(self).has(index) || index
                    == socket.index()),
    {
        let ghost before = self.free;
        let index = socket.index();
        self.free = set_bit(self.free, index, true);
        proof {
            assert forall|other: u8| other < SOCKET_COUNT implies self.has(other) == (old(
                self,
            ).has(other) || other == index) by {
                lemma_with_bit(before, index, other, true);
            }
        }
    }
}

} // verus!
