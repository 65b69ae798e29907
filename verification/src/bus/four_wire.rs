//! The frame transport over a four-wire serial bus: clock, two data lines and
//! a bus-select line that brackets each frame.

use super::wires::{BusSelect, ByteExchange, WireEvent, Wires};
use super::{encode_header, header_of, ActiveBus, Direction};
use vstd::prelude::*;

verus! {

/// `xs` is what exchanging the bytes of `sent` in order, stopping at the first
/// failure, leaves on the wires: one exchange per byte that was tried, each of
/// the byte at its place in `sent`. With `Ok` every byte was exchanged and every
/// exchange succeeded. With `Err(e)` all exchanges but the last succeeded and
/// the last failed with `e`.
pub open spec fn is_exchange_run<E>(
    xs: Seq<WireEvent<E>>,
    sent: Seq<u8>,
    result: Result<(), E>,
) -> bool {
    &&& xs.len() <= sent.len()
    &&& forall|i: int|
        0 <= i < xs.len() ==> (#[trigger] xs[i]) is Exchange && xs[i]->sent == sent[i]
    &&& forall|i: int| 0 <= i < xs.len() - 1 ==> (#[trigger] xs[i])->reply is Ok
    &&& match result {
        Ok(()) => xs.len() == sent.len() && (xs.len() > 0 ==> xs.last()->reply is Ok),
        Err(e) => xs.len() > 0 && xs.last()->reply == Err::<u8, E>(e),
    }
}

/// The exchanges of the frame that takes the wires from `before` to `after`:
/// what lies between the select and the release.
pub open spec fn exchanges_between<E>(
    before: Seq<WireEvent<E>>,
    after: Seq<WireEvent<E>>,
) -> Seq<WireEvent<E>> {
    after.subrange(before.len() as int + 1, after.len() - 1)
}

/// `after` is `before` followed by exactly one frame: a select, the exchanges
/// of the bytes of `sent` up to the first failure, and a release.
pub open spec fn is_one_frame<E>(
    before: Seq<WireEvent<E>>,
    after: Seq<WireEvent<E>>,
    sent: Seq<u8>,
    result: Result<(), E>,
) -> bool {
    &&& after.len() >= before.len() + 2
    &&& after.take(before.len() as int) == before
    &&& after[before.len() as int] == WireEvent::<E>::Select
    &&& after.last() == WireEvent::<E>::Release
    &&& is_exchange_run(exchanges_between(before, after), sent, result)
}

/// What a buffer that held `old` holds after the exchanges `xs`, of which the
/// first `lead` were made for other bytes and the rest for the bytes of the
/// buffer in order: the reply where an exchange took place and succeeded, the
/// old byte everywhere else.
pub open spec fn filled_by<E>(xs: Seq<WireEvent<E>>, lead: int, old: Seq<u8>) -> Seq<u8> {
    Seq::new(
        old.len(),
        |j: int|
            if lead + j < xs.len() && xs[lead + j]->reply is Ok {
                xs[lead + j]->reply->Ok_0
            } else {
                old[j]
            },
    )
}

/// The frame transport on a serial link `Spi` with the bus-select line
/// `ChipSelect`.
///
/// Its contracts say what each frame looks like on the wires, byte by byte,
/// over the history that the wires keep.
pub struct ActiveFourWire<Spi: ByteExchange, ChipSelect: BusSelect> {
    wires: Wires<Spi, ChipSelect>,
}

impl<Spi: ByteExchange, ChipSelect: BusSelect> ActiveFourWire<Spi, ChipSelect> {
    /// The wires that the frames go over.
    pub closed spec fn wires(&self) -> Wires<Spi, ChipSelect> {
        self.wires
    }

    /// Everything that happened on the wires so far, oldest first.
    pub open spec fn events(&self) -> Seq<WireEvent<Spi::Error>> {
        self.wires().events()
    }

    /// Takes over the link and the bus-select line. The history starts empty.
    pub fn new(spi: Spi, cs: ChipSelect) -> (bus: Self)
        ensures
            bus.events() == Seq::<WireEvent<Spi::Error>>::empty(),
            bus.wires().link() == spi,
            bus.wires().select_line() == cs,
    {
        ActiveFourWire { wires: Wires::new(spi, cs) }
    }

    /// Gives the link and the bus-select line back.
    pub fn release(self) -> (parts: (Spi, ChipSelect))
        ensures
            parts.0 == self.wires().link(),
            parts.1 == self.wires().select_line(),
    {
        self.wires.release()
    }

    /// Sends the bytes of `bytes` in order and drops what comes back.
    fn write_bytes(&mut self, bytes: &[u8]) -> (result: Result<(), Spi::Error>)
        ensures
            old(self).events().is_prefix_of(final(self).events()),
            is_exchange_run(
                final(self).events().skip(old(self).events().len() as int),
                bytes@,
                result,
            ),
    {
        let ghost start = self.wires.events();
        let mut i: usize = 0;
        while i < bytes.len()
            invariant
                i <= bytes.len(),
                start == old(self).events(),
                start.is_prefix_of(self.wires.events()),
                self.wires.events().len() == start.len() + i,
                is_exchange_run(
                    self.wires.events().skip(start.len() as int),
                    bytes@.take(i as int),
                    Ok(()),
                ),
            decreases bytes.len() - i,
        {
            let ghost so_far = self.wires.events();
            match self.wires.exchange(bytes[i]) {
                Ok(_) => {},
                Err(e) => {
                    proof {
                        let xs = self.wires.events().skip(start.len() as int);
                        assert(xs.drop_last() =~= so_far.skip(start.len() as int));
                        assert forall|j: int| 0 <= j < xs.len() - 1 implies (#[trigger] xs[j])
                            is Exchange && xs[j]->sent == bytes@[j] && xs[j]->reply is Ok by {
                            assert(xs[j] == so_far.skip(start.len() as int)[j]);
                            assert(bytes@.take(i as int)[j] == bytes@[j]);
                        }
                    }
                    return Err(e);
                },
            }
            proof {
                let xs = self.wires.events().skip(start.len() as int);
                let prev = so_far.skip(start.len() as int);
                assert(xs.drop_last() =~= prev);
                assert forall|j: int| 0 <= j < xs.len() implies (#[trigger] xs[j]) is Exchange
                    && xs[j]->sent == bytes@.take(i + 1)[j] && xs[j]->reply is Ok by {
                    if j < xs.len() - 1 {
                        assert(xs[j] == prev[j]);
                        assert(bytes@.take(i as int)[j] == bytes@[j]);
                    }
                }
            }
            i += 1;
        }
        assert(bytes@.take(i as int) =~= bytes@);
        Ok(())
    }

    /// Sends the bytes that `bytes` holds, in order, and puts in the place of
    /// each the byte that came back.
    fn read_bytes(&mut self, bytes: &mut [u8]) -> (result: Result<(), Spi::Error>)
        ensures
            final(bytes)@.len() == old(bytes)@.len(),
            old(self).events().is_prefix_of(final(self).events()),
            is_exchange_run(
                final(self).events().skip(old(self).events().len() as int),
                old(bytes)@,
                result,
            ),
            final(bytes)@ == filled_by(
                final(self).events().skip(old(self).events().len() as int),
                0,
                old(bytes)@,
            ),
    {
        let ghost start = self.wires.events();
        let mut i: usize = 0;
        while i < bytes.len()
            invariant
                i <= bytes.len(),
                bytes@.len() == old(bytes)@.len(),
                start == old(self).events(),
                start.is_prefix_of(self.wires.events()),
                self.wires.events().len() == start.len() + i,
                is_exchange_run(
                    self.wires.events().skip(start.len() as int),
                    old(bytes)@.take(i as int),
                    Ok(()),
                ),
                bytes@ == filled_by(self.wires.events().skip(start.len() as int), 0, old(bytes)@),
            decreases bytes.len() - i,
        {
            let ghost so_far = self.wires.events();
            let ghost held = bytes@;
            assert(bytes@[i as int] == old(bytes)@[i as int]);
            match self.wires.exchange(bytes[i]) {
                Ok(reply) => {
                    bytes[i] = reply;
                },
                Err(e) => {
                    proof {
                        let xs = self.wires.events().skip(start.len() as int);
                        let prev = so_far.skip(start.len() as int);
                        assert(xs.drop_last() =~= prev);
                        assert forall|j: int| 0 <= j < xs.len() - 1 implies (#[trigger] xs[j])
                            is Exchange && xs[j]->sent == old(bytes)@[j] && xs[j]->reply is Ok by {
                            assert(xs[j] == prev[j]);
                            assert(old(bytes)@.take(i as int)[j] == old(bytes)@[j]);
                        }
                        assert forall|j: int| 0 <= j < bytes@.len() implies bytes@[j]
                            == filled_by(xs, 0, old(bytes)@)[j] by {
                            if j < xs.len() - 1 {
                                assert(xs[j] == prev[j]);
                            }
                        }
                        assert(bytes@ =~= filled_by(xs, 0, old(bytes)@));
                    }
                    return Err(e);
                },
            }
            proof {
                let xs = self.wires.events().skip(start.len() as int);
                let prev = so_far.skip(start.len() as int);
                assert(xs.drop_last() =~= prev);
                assert forall|j: int| 0 <= j < xs.len() implies (#[trigger] xs[j]) is Exchange
                    && xs[j]->sent == old(bytes)@.take(i + 1)[j] && xs[j]->reply is Ok by {
                    if j < xs.len() - 1 {
                        assert(xs[j] == prev[j]);
                        assert(old(bytes)@.take(i as int)[j] == old(bytes)@[j]);
                    }
                }
                assert forall|j: int| 0 <= j < bytes@.len() implies bytes@[j] == filled_by(
                    xs,
                    0,
                    old(bytes)@,
                )[j] by {
                    if j < xs.len() - 1 {
                        assert(xs[j] == prev[j]);
                    }
                }
                assert(bytes@ =~= filled_by(xs, 0, old(bytes)@));
            }
            i += 1;
        }
        assert(old(bytes)@.take(i as int) =~= old(bytes)@);
        Ok(())
    }
}

/// A sequence that grew out of `a` is `a` followed by what was added.
proof fn lemma_grown<A>(a: Seq<A>, b: Seq<A>)
    requires
        a.is_prefix_of(b),
    ensures
        b == a + b.skip(a.len() as int),
{
    assert(b =~= a + b.skip(a.len() as int)) by {
        assert forall|i: int| 0 <= i < a.len() implies a[i] == b[i] by {
            assert(b.subrange(0, a.len() as int)[i] == b[i]);
        }
    }
}

/// Two runs of exchanges made one after the other are one run of the bytes of
/// both, when the first went through.
proof fn lemma_runs_join<E>(
    first: Seq<WireEvent<E>>,
    second: Seq<WireEvent<E>>,
    head: Seq<u8>,
    rest: Seq<u8>,
    result: Result<(), E>,
)
    requires
        is_exchange_run(first, head, Ok(())),
        is_exchange_run(second, rest, result),
    ensures
        is_exchange_run(first + second, head + rest, result),
{
    let xs = first + second;
    assert forall|i: int| 0 <= i < xs.len() implies (#[trigger] xs[i]) is Exchange && xs[i]->sent
        == (head + rest)[i] && (i < xs.len() - 1 ==> xs[i]->reply is Ok) by {
        if i < first.len() {
            assert(xs[i] == first[i]);
        } else {
            assert(xs[i] == second[i - first.len()]);
        }
    }
    if second.len() > 0 {
        assert(xs.last() == second.last());
    } else if first.len() > 0 {
        assert(xs.last() == first.last());
    }
}

/// A run that failed stays a failed run of any longer sequence of bytes.
proof fn lemma_run_failed_early<E>(xs: Seq<WireEvent<E>>, head: Seq<u8>, rest: Seq<u8>, error: E)
    requires
        is_exchange_run(xs, head, Err(error)),
    ensures
        is_exchange_run(xs, head + rest, Err(error)),
{
    assert forall|i: int| 0 <= i < xs.len() implies (#[trigger] xs[i])->sent == (head
        + rest)[i] by {
        assert((head + rest)[i] == head[i]);
    }
}

impl<Spi: ByteExchange, ChipSelect: BusSelect> ActiveBus for ActiveFourWire<Spi, ChipSelect> {
    type Error = Spi::Error;

    /// On the wires this is one frame: the read header of `block` and
    /// `address`, then one exchange for each byte of `data`, in which the byte
    /// that `data` held goes out and the reply takes its place. The frame stops
    /// at the first exchange that fails, and bus-select is released in every
    /// case.
    fn read_frame(&mut self, block: u8, address: u16, data: &mut [u8]) -> (result: Result<
        (),
        Spi::Error,
    >)
        ensures
            is_one_frame(
                old(self).events(),
                final(self).events(),
                header_of(block, address, Direction::Read) + old(data)@,
                result,
            ),
            final(data)@ == filled_by(
                exchanges_between(old(self).events(), final(self).events()),
                3,
                old(data)@,
            ),
    {
        let header = encode_header(block, address, Direction::Read);
        let ghost before = self.wires.events();
        self.wires.select();
        let ghost selected = self.wires.events();
        let mut result = self.write_bytes(header.as_slice());
        let ghost headed = self.wires.events();
        if result.is_ok() {
            result = self.read_bytes(data);
        }
        let ghost done = self.wires.events();
        self.wires.deselect();
        proof {
            let first = headed.skip(selected.len() as int);
            let second = done.skip(headed.len() as int);
            let xs = exchanges_between(before, self.wires.events());
            lemma_grown(selected, headed);
            lemma_grown(headed, done);
            assert(self.wires.events() =~= before + seq![WireEvent::Select] + first + second + seq![
                WireEvent::Release,
            ]);
            assert(xs =~= first + second);
            assert(self.wires.events().take(before.len() as int) =~= before);
            if first.len() == 3 && first.last()->reply is Ok {
                lemma_runs_join(first, second, header@, old(data)@, result);
                assert forall|j: int| 0 <= j < data@.len() implies data@[j] == filled_by(
                    xs,
                    3,
                    old(data)@,
                )[j] by {
                    if j < second.len() {
                        assert(xs[3 + j] == second[j]);
                    }
                }
            } else {
                lemma_run_failed_early(first, header@, old(data)@, result->Err_0);
            }
            assert(data@ =~= filled_by(xs, 3, old(data)@));
        }
        result
    }

    /// On the wires this is one frame: the write header of `block` and
    /// `address`, then the bytes of `data`, one exchange each. The frame stops
    /// at the first exchange that fails, and bus-select is released in every
    /// case.
    fn write_frame(&mut self, block: u8, address: u16, data: &[u8]) -> (result: Result<
        (),
        Spi::Error,
    >)
        ensures
            is_one_frame(
                old(self).events(),
                final(self).events(),
                header_of(block, address, Direction::Write) + data@,
                result,
            ),
    {
        let header = encode_header(block, address, Direction::Write);
        let ghost before = self.wires.events();
        self.wires.select();
        let ghost selected = self.wires.events();
        let mut result = self.write_bytes(header.as_slice());
        let ghost headed = self.wires.events();
        if result.is_ok() {
            result = self.write_bytes(data);
        }
        let ghost done = self.wires.events();
        self.wires.deselect();
        proof {
            let first = headed.skip(selected.len() as int);
            let second = done.skip(headed.len() as int);
            let xs = exchanges_between(before, self.wires.events());
            lemma_grown(selected, headed);
            lemma_grown(headed, done);
            assert(self.wires.events() =~= before + seq![WireEvent::Select] + first + second + seq![
                WireEvent::Release,
            ]);
            assert(xs =~= first + second);
            assert(self.wires.events().take(before.len() as int) =~= before);
            if first.len() == 3 && first.last()->reply is Ok {
                lemma_runs_join(first, second, header@, data@, result);
            } else {
                lemma_run_failed_early(first, header@, data@, result->Err_0);
            }
        }
        result
    }
}

} // verus!
