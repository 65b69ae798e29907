//! Register map: where the chip keeps what.
//!
//! The address space of the chip is cut into blocks, chosen by the five-bit
//! block-select value of a frame. Block 0 holds the common registers. Each of
//! the eight sockets has three blocks of its own: its registers, its transmit
//! buffer and its receive buffer. Inside a socket's register block the
//! offsets are the same for every socket; they are listed in [`socketn`].

use vstd::prelude::*;

pub mod socketn;

verus! {

/// Block-select value of the common register block.
pub const COMMON: u8 = 0;

/// Number of hardware sockets.
pub const SOCKET_COUNT: u8 = 8;

/// Block-select value of the register block of socket `index`.
pub open spec fn register_block(index: u8) -> int {
    index * 4 + 1
}

/// Block-select value of the transmit buffer of socket `index`.
pub open spec fn tx_buffer_block(index: u8) -> int {
    index * 4 + 2
}

/// Block-select value of the receive buffer of socket `index`.
pub open spec fn rx_buffer_block(index: u8) -> int {
    index * 4 + 3
}

/// The three blocks of socket `index`, in the order registers, transmit
/// buffer, receive buffer.
pub open spec fn blocks_of(index: u8) -> Seq<int> {
    seq![register_block(index), tx_buffer_block(index), rx_buffer_block(index)]
}

/// No block is shared: the three blocks of a socket differ from each other,
/// from the common block, and from every block of any other socket. Each fits
/// the five bits that a frame has for it.
pub proof fn lemma_blocks_distinct(i: u8, j: u8)
    requires
        i < SOCKET_COUNT,
        j < SOCKET_COUNT,
    ensures
        forall|a: int| 0 <= a < 3 ==> 0 < #[trigger] blocks_of(i)[a] < 32,
        forall|a: int| 0 <= a < 3 ==> #[trigger] blocks_of(i)[a] != COMMON,
        forall|a: int, b: int|
            0 <= a < 3 && 0 <= b < 3 && a != b ==> #[trigger] blocks_of(i)[a]
                != #[trigger] blocks_of(i)[b],
        i != j ==> forall|a: int, b: int|
            0 <= a < 3 && 0 <= b < 3 ==> #[trigger] blocks_of(i)[a] != #[trigger] blocks_of(j)[b],
{
}

} // verus!
