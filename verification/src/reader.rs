//! Reading single bits.

use crate::bits::{lemma_mask, unpack};
use crate::padding::{Error, NoPadding, Padding};
use crate::wire::{decode_spec, encode_spec, lemma_round_trip, marks_end, settled};
use vstd::prelude::*;

verus! {

/// What a reader has taken in and given out: its view.
pub struct ReaderView {
    /// All the bytes accepted so far, in order.
    pub input: Seq<u8>,
    /// Whether the end of the input has been announced.
    pub ended: bool,
    /// The number of bits handed out so far.
    pub served: nat,
}

/// What the next read gives, in a reader with the view `state`.
///
/// Once the input has ended, the stream is known: the bits of its decoding
/// that have not been served come one by one, then `None`; a stream that
/// does not decode gives its error. Before that, a bit is served only from
/// a byte that is payload whatever follows, and the reader asks for input
/// otherwise.
pub open spec fn next_bit_spec<P: Padding>(padding: P, state: ReaderView) -> Result<
    Option<bool>,
    Error,
> {
    if state.ended {
        match decode_spec(padding, state.input) {
            Err(e) => Err(e),
            Ok(bits) => if state.served < bits.len() {
                Ok(Some(bits[state.served as int]))
            } else {
                Ok(None)
            },
        }
    } else if state.served < 8 * settled(padding, state.input.len()) {
        Ok(Some(unpack(state.input)[state.served as int]))
    } else {
        Err(Error::NeedInput)
    }
}

/// Whether a reader with the view `state` has served no more bits than its
/// input holds for it: while the input goes on, those of the bytes that are
/// payload whatever follows; once it has ended, those of its decoding.
pub open spec fn in_bounds<P: Padding>(padding: P, state: ReaderView) -> bool {
    &&& state.served <= 8 * state.input.len()
    &&& if state.ended {
        decode_spec(padding, state.input) matches Ok(bits) ==> state.served <= bits.len()
    } else {
        state.served <= 8 * settled(padding, state.input.len())
    }
}

/// The number of bytes that a reader with the view `state` can take in: the
/// free part of a lookahead of `max_size + 1` bytes, of which the bytes whose
/// bits are not all served are held; nothing once the input has ended.
pub open spec fn room_spec<P: Padding>(padding: P, state: ReaderView) -> nat {
    if state.ended {
        0
    } else {
        (padding.max_size_spec() + 1 - (state.input.len() - state.served / 8)) as nat
    }
}

/// The part of `chunk` that a reader with the view `state` takes in: as much
/// of it as there is room for.
pub open spec fn accepted_spec<P: Padding>(padding: P, state: ReaderView, chunk: Seq<u8>) -> Seq<u8> {
    if chunk.len() <= room_spec(padding, state) {
        chunk
    } else {
        chunk.take(room_spec(padding, state) as int)
    }
}

/// The view of a reader after it was offered `chunk` in the view `state`.
///
/// Without room nothing changes. With room, an empty chunk announces the end
/// of the input, and of any other the reader takes in what it can.
pub open spec fn offered_spec<P: Padding>(padding: P, state: ReaderView, chunk: Seq<u8>) -> ReaderView {
    if room_spec(padding, state) == 0 {
        state
    } else if chunk.len() == 0 {
        ReaderView { ended: true, ..state }
    } else {
        ReaderView { input: state.input + accepted_spec(padding, state, chunk), ..state }
    }
}

/// What a reader with the view `state` answers when it is offered `chunk`:
/// the number of bytes it took in, or, where the chunk announced the end of
/// an input that does not decode, the error.
pub open spec fn taken_spec<P: Padding>(padding: P, state: ReaderView, chunk: Seq<u8>) -> Result<
    usize,
    Error,
> {
    if room_spec(padding, state) == 0 {
        Ok(0)
    } else if chunk.len() == 0 {
        match decode_spec(padding, state.input) {
            Err(e) => Err(e),
            Ok(_) => Ok(0),
        }
    } else {
        Ok(accepted_spec(padding, state, chunk).len() as usize)
    }
}

/// **BitReader** is a reader for single bit values
///
/// The reader owns no channel. It holds a lookahead of `max_size() + 1`
/// bytes, which the caller fills with what its source gives
/// ([`fill_buffer`](BitReader::fill_buffer)). The byte at the front of a full
/// lookahead is payload whatever follows; once the source is exhausted, the
/// padding says how many bits of the front byte are payload.
///
/// The view of a reader is the input it has accepted, whether that has
/// ended, and the number of bits it has served.
pub struct BitReader<P: Padding> {
    padder: P,
    ended: bool,
    current: u8,
    buffer: Vec<u8>,
    capacity: usize,
    bits_left: usize,
    failure: Option<Error>,
    input: Ghost<Seq<u8>>,
    served: Ghost<nat>,
}

/// The end is final. Where a read gives `None`, the input has ended, and an
/// offer of more input is not taken and changes nothing; a read changes
/// nothing either, so that every later read gives `None` as well.
pub proof fn lemma_end_is_final<P: Padding>(padding: P, state: ReaderView, chunk: Seq<u8>)
    requires
        next_bit_spec(padding, state) == Ok::<Option<bool>, Error>(None),
    ensures
        state.ended,
        offered_spec(padding, state, chunk) == state,
        taken_spec(padding, state, chunk) == Ok::<usize, Error>(0),
{
}

/// A bit that is served before the input has ended stands: whatever input
/// follows, if the whole decodes, the reader would serve the same bit at the
/// same place knowing all of it.
pub proof fn lemma_early_bits_stand<P: Padding>(
    padding: P,
    input: Seq<u8>,
    more: Seq<u8>,
    served: nat,
)
    requires
        served < 8 * settled(padding, input.len()),
        decode_spec(padding, input + more) is Ok,
    ensures
        next_bit_spec(padding, ReaderView { input, ended: false, served }) == next_bit_spec(
            padding,
            ReaderView { input: input + more, ended: true, served },
        ),
{
    let whole = input + more;
}

/// Round trip at the reader: with a strategy that marks the end of their
/// stream, a reader that was given the stream of `bits` and told of its end
/// serves those bits in order and then `None`, at every read.
pub proof fn lemma_read_back<P: Padding>(padding: P, bits: Seq<bool>, served: nat)
    requires
        marks_end(padding, (bits.len() % 8) as u8),
    ensures
        next_bit_spec(
            padding,
            ReaderView { input: encode_spec(padding, bits), ended: true, served },
        ) == (if served < bits.len() {
            Ok::<Option<bool>, Error>(Some(bits[served as int]))
        } else {
            Ok(None)
        }),
{
    lemma_round_trip(padding, bits);
}

impl<P: Padding> View for BitReader<P> {
    type V = ReaderView;

    closed spec fn view(&self) -> ReaderView {
        ReaderView { input: self.input@, ended: self.ended, served: self.served@ }
    }
}

impl BitReader<NoPadding> {
    /// Create a new BitReader, with no padding.
    pub fn new() -> (reader: Self)
        ensures
            reader.wf(),
            reader@ == (ReaderView { input: Seq::empty(), ended: false, served: 0 }),
            reader.padding() == (NoPadding {  }),
    {
        BitReader::with_padding(NoPadding::new())
    }
}

impl<P: Padding> BitReader<P> {
    /// The strategy that the end of the input is read with.
    pub closed spec fn padding(&self) -> P {
        self.padder
    }

    /// The lookahead holds the input from the byte that is being served on,
    /// and the cursor is the position of the next bit in that byte. While the
    /// input goes on, bits are served from a full lookahead only. Once it has
    /// ended, the count of bits left is what remains of its decoding.
    pub closed spec fn wf(&self) -> bool {
        let input = self.input@;
        let served = self.served@;
        &&& self.capacity == self.padder.max_size_spec() + 1
        &&& self.current as nat == served % 8
        &&& served <= 8 * input.len()
        &&& self.buffer@ == input.skip((served / 8) as int)
        &&& self.buffer@.len() <= self.capacity
        &&& !self.ended ==> {
            &&& self.failure is None
            &&& served <= 8 * settled(self.padder, input.len())
            &&& self.buffer@.len() < self.capacity ==> served == 8 * settled(
                self.padder,
                input.len(),
            )
        }
        &&& self.ended ==> match decode_spec(self.padder, input) {
            Err(e) => self.failure == Some(e),
            Ok(bits) => {
                &&& self.failure is None
                &&& served + self.bits_left == bits.len()
                &&& bits =~= unpack(input).take(bits.len() as int)
                &&& bits.len() <= 8 * input.len()
                &&& self.current + self.bits_left <= 8
                &&& self.bits_left > 0 ==> self.buffer@.len() > 0
            },
        }
    }

    /// A reader never serves more bits than its input holds for it.
    pub proof fn lemma_in_bounds(&self)
        requires
            self.wf(),
        ensures
            in_bounds(self.padding(), self@),
    {
    }

    /// Create a new BitReader, using the supplied padding.
    pub fn with_padding(padder: P) -> (reader: Self)
        requires
            padder.max_size_spec() < usize::MAX,
        ensures
            reader.wf(),
            reader@ == (ReaderView { input: Seq::empty(), ended: false, served: 0 }),
            reader.padding() == padder,
    {
        let capacity = padder.max_size() + 1;
        let reader = BitReader {
            padder,
            ended: false,
            current: 0,
            buffer: Vec::new(),
            capacity,
            bits_left: 0,
            failure: None,
            input: Ghost(Seq::empty()),
            served: Ghost(0),
        };
        assert(reader.buffer@ =~= reader.input@.skip(0));
        reader
    }

    /// The number of bytes that [`fill_buffer`](BitReader::fill_buffer) can
    /// take in now. While it is not zero, the reader waits for input or for
    /// its end.
    pub fn wants(&self) -> (room: usize)
        requires
            self.wf(),
        ensures
            room == room_spec(self.padding(), self@),
    {
        if self.ended {
            0
        } else {
            self.capacity - self.buffer.len()
        }
    }

    /// Offer the reader what one read of the source gave: some bytes, or
    /// none, which says that the source is exhausted.
    ///
    /// A reader without room takes nothing. Otherwise it takes the bytes in,
    /// as many as it has room for, and returns their number; or it notes the
    /// end of the input and has the padding say how many bits of the bytes
    /// in the lookahead are payload. It returns an error if the padding
    /// cannot say, and the reader then gives that error at every read.
    pub fn fill_buffer(&mut self, chunk: &[u8]) -> (taken: Result<usize, Error>)
        requires
            old(self).wf(),
        ensures
            final(self).wf(),
            final(self).padding() == old(self).padding(),
            final(self)@ == offered_spec(old(self).padding(), old(self)@, chunk@),
            taken == taken_spec(old(self).padding(), old(self)@, chunk@),
    {
        if self.ended || self.buffer.len() == self.capacity {
            return Ok(0);
        }
        if chunk.len() == 0 {
            self.ended = true;
            assert(self.buffer@ =~= self.input@.skip(settled(self.padder, self.input@.len()) as int));
            match self.padder.bits_left(self.buffer.as_slice()) {
                Err(e) => {
                    self.failure = Some(e);
                    Err(e)
                },
                Ok(left) => {
                    if left <= 8 && (left == 0 || self.buffer.len() > 0) {
                        self.bits_left = left;
                        Ok(0)
                    } else {
                        self.failure = Some(Error::MalformedTrailer);
                        Err(Error::MalformedTrailer)
                    }
                },
            }
        } else {
            let ghost before = self.buffer@;
            let mut taken: usize = 0;
            while taken < chunk.len() && self.buffer.len() < self.capacity
                invariant
                    taken <= chunk.len(),
                    self.buffer@ == before + chunk@.take(taken as int),
                    self.buffer@.len() <= self.capacity,
                    self.capacity == old(self).capacity,
                    self.padder == old(self).padder,
                    self.ended == old(self).ended,
                    self.current == old(self).current,
                    self.failure == old(self).failure,
                    self.input == old(self).input,
                    self.served == old(self).served,
                decreases chunk.len() - taken,
            {
                self.buffer.push(chunk[taken]);
                taken = taken + 1;
            }
            assert(chunk@.take(chunk@.len() as int) =~= chunk@);
            let ghost grown = self.input@ + chunk@.take(taken as int);
            self.input = Ghost(grown);
            assert(self.buffer@ =~= grown.skip((self.served@ / 8) as int));
            Ok(taken)
        }
    }

    /// Read a single bit.
    ///
    /// End of stream is signaled by returning `Ok(None)`, at every read from
    /// then on.
    ///
    /// # Failures
    /// Returns [`Error::NeedInput`] while [`wants`](BitReader::wants) is not
    /// zero, and the error of the end of the input once that was refused.
    pub fn read_bit(&mut self) -> (bit: Result<Option<bool>, Error>)
        requires
            old(self).wf(),
        ensures
            final(self).wf(),
            final(self).padding() == old(self).padding(),
            bit == next_bit_spec(old(self).padding(), old(self)@),
            final(self)@ == (ReaderView {
                served: if bit matches Ok(Some(_)) {
                    old(self)@.served + 1
                } else {
                    old(self)@.served
                },
                ..old(self)@
            }),
    {
        if self.ended {
            if let Some(e) = self.failure {
                return Err(e);
            }
            if self.bits_left == 0 {
                return Ok(None);
            }
            self.bits_left = self.bits_left - 1;
        } else if self.buffer.len() < self.capacity {
            return Err(Error::NeedInput);
        }
        let front = self.buffer[0];
        let mask = 0x80u8 >> self.current;
        let bit = front & mask == mask;
        proof {
            lemma_mask(front, self.current);
        }
        self.current = self.current + 1;
        self.served = Ghost((self.served@ + 1) as nat);
        if self.current == 8 {
            self.current = 0;
            self.buffer.remove(0);
            assert(self.buffer@ =~= self.input@.skip((self.served@ / 8) as int));
        }
        Ok(Some(bit))
    }

    /// The next bit, or `None` where [`read_bit`](BitReader::read_bit) gives
    /// no bit: at the end of the stream, and on an error.
    pub fn next(&mut self) -> (bit: Option<bool>)
        requires
            old(self).wf(),
        ensures
            final(self).wf(),
            final(self).padding() == old(self).padding(),
            bit == match next_bit_spec(old(self).padding(), old(self)@) {
                Ok(bit) => bit,
                Err(_) => None,
            },
            final(self)@ == (ReaderView {
                served: if bit is Some {
                    old(self)@.served + 1
                } else {
                    old(self)@.served
                },
                ..old(self)@
            }),
    {
        match self.read_bit() {
            Ok(bit) => bit,
            Err(_) => None,
        }
    }
}

} // verus!
