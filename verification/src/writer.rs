//! Writing single bits.

use crate::bits::{
    lemma_bit_at_pack, lemma_mask, lemma_pack_push, lemma_weights, pack, packed, tail,
};
use crate::padding::{NoPadding, Padding};
use crate::wire::trailer_spec;
use vstd::prelude::*;

verus! {

/// **BitWriter** is a writer for single bit values
///
/// Bits are grouped to bytes, the first bit being the most significant bit
/// of its byte. The writer owns no channel: [`write_bit`](BitWriter::write_bit)
/// hands back each byte as it becomes complete, and
/// [`finish`](BitWriter::finish) hands back the bytes that end the stream,
/// for the caller to send in that order.
///
/// The view of a writer is the sequence of all bits written to it.
/// The default padding is [`NoPadding`].
pub struct BitWriter<P: Padding> {
    padder: P,
    last_byte: u8,
    last_fill: u8,
    written: Ghost<Seq<bool>>,
}

impl<P: Padding> View for BitWriter<P> {
    type V = Seq<bool>;

    closed spec fn view(&self) -> Seq<bool> {
        self.written@
    }
}

/// The byte that becomes complete with the last of `bits`, if one does.
pub open spec fn completed(bits: Seq<bool>) -> Option<u8> {
    if bits.len() > 0 && bits.len() % 8 == 0 {
        Some(packed(bits).last())
    } else {
        None
    }
}

/// The bytes that a writer hands back, one at every eighth bit, are in order
/// the bytes that the bits written so far fill.
pub proof fn lemma_packed_push(bits: Seq<bool>, bit: bool)
    ensures
        packed(bits.push(bit)) == match completed(bits.push(bit)) {
            Some(byte) => packed(bits).push(byte),
            None => packed(bits),
        },
{
    let more = bits.push(bit);
    let bytes = match completed(more) {
        Some(byte) => packed(bits).push(byte),
        None => packed(bits),
    };
    assert(packed(more) =~= bytes) by {
        assert forall|k: int| 0 <= k < bits.len() / 8 implies packed(more)[k] == packed(bits)[k] by {
            assert(more.subrange(8 * k, 8 * k + 8) =~= bits.subrange(8 * k, 8 * k + 8));
        }
    }
}

impl BitWriter<NoPadding> {
    /// Create a new BitWriter with no padding.
    pub fn new() -> (writer: Self)
        ensures
            writer.wf(),
            writer@ == Seq::<bool>::empty(),
            writer.padding() == (NoPadding {  }),
    {
        BitWriter::with_padding(NoPadding::new())
    }
}

impl<P: Padding> BitWriter<P> {
    /// The strategy that will end the stream.
    pub closed spec fn padding(&self) -> P {
        self.padder
    }

    /// The accumulator holds the bits past the last byte boundary.
    pub closed spec fn wf(&self) -> bool {
        &&& self.last_fill as nat == self@.len() % 8
        &&& self.last_byte == pack(tail(self@))
    }

    /// Create a new BitWriter with the given padding
    pub fn with_padding(padder: P) -> (writer: Self)
        ensures
            writer.wf(),
            writer@ == Seq::<bool>::empty(),
            writer.padding() == padder,
    {
        let writer = BitWriter { padder, last_byte: 0, last_fill: 0, written: Ghost(Seq::empty()) };
        proof {
            lemma_weights();
            assert(tail(writer@) =~= Seq::<bool>::empty());
        }
        writer
    }

    /// Write a single bit.
    ///
    /// Returns the byte that the bit completes, if it is the eighth of one:
    /// the next byte of the stream.
    pub fn write_bit(&mut self, bit: bool) -> (flushed: Option<u8>)
        requires
            old(self).wf(),
        ensures
            final(self).wf(),
            final(self)@ == old(self)@.push(bit),
            final(self).padding() == old(self).padding(),
            flushed == completed(final(self)@),
    {
        let ghost before = self@;
        let ghost pending = tail(before);
        proof {
            lemma_pack_push(pending, bit);
            lemma_bit_at_pack(pending, self.last_fill as int);
            lemma_mask(self.last_byte, self.last_fill);
        }
        if bit {
            self.last_byte = self.last_byte | (0x80u8 >> self.last_fill);
        }
        self.last_fill = self.last_fill + 1;
        self.written = Ghost(before.push(bit));
        assert(self.last_byte == pack(pending.push(bit)));
        if self.last_fill == 8 {
            let byte = self.last_byte;
            self.last_byte = 0;
            self.last_fill = 0;
            proof {
                lemma_weights();
            }
            Some(byte)
        } else {
            assert(tail(self@) =~= pending.push(bit));
            None
        }
    }

    /// End the stream.
    ///
    /// Returns the trailer: what the padding makes of the bits that have not
    /// filled a byte. The writer is used up.
    pub fn finish(self) -> (trailer: Vec<u8>)
        requires
            self.wf(),
        ensures
            trailer@ == trailer_spec(self.padding(), self@),
    {
        self.padder.pad(self.last_byte, self.last_fill)
    }
}

} // verus!
