//! The wire format: which bytes stand for a sequence of bits under a padding
//! strategy, and which bits a sequence of bytes stands for.

use crate::bits::{
    lemma_bit_at_packed, lemma_bit_at_tail, lemma_weights, pack, packed, tail, unpack,
};
use crate::padding::{Error, LengthPadding, NoPadding, Padding};
use vstd::prelude::*;

verus! {

/// The bytes that end the stream of `bits`: what the strategy makes of the
/// bits past the last byte boundary.
pub open spec fn trailer_spec<P: Padding>(padding: P, bits: Seq<bool>) -> Seq<u8> {
    padding.pad_spec(pack(tail(bits)), (bits.len() % 8) as u8)
}

/// The stream that stands for `bits`: the bytes they fill, then the trailer.
pub open spec fn encode_spec<P: Padding>(padding: P, bits: Seq<bool>) -> Seq<u8> {
    packed(bits) + trailer_spec(padding, bits)
}

/// How many of the first `len` bytes of a stream are payload whatever
/// follows them: all but the last `max_size`.
pub open spec fn settled<P: Padding>(padding: P, len: nat) -> nat {
    if len >= padding.max_size_spec() {
        (len - padding.max_size_spec()) as nat
    } else {
        0
    }
}

/// The bits that the complete stream `bytes` stands for.
///
/// The bytes before the last `max_size` are payload, eight bits each. The
/// strategy says how many bits of the first of the remaining bytes are
/// payload as well. Its answer is refused where it is more than eight, or
/// more than zero with no byte left.
pub open spec fn decode_spec<P: Padding>(padding: P, bytes: Seq<u8>) -> Result<Seq<bool>, Error> {
    let whole = settled(padding, bytes.len());
    let last_bytes = bytes.skip(whole as int);
    match padding.bits_left_spec(last_bytes) {
        Err(e) => Err(e),
        Ok(left) => if left <= 8 && (left == 0 || last_bytes.len() > 0) {
            Ok(unpack(bytes).take(8 * whole + left))
        } else {
            Err(Error::MalformedTrailer)
        },
    }
}

/// Whether the strategy marks the end of a stream whose last byte holds
/// `fill` payload bits in a way that it reads back.
///
/// With payload in the last byte, the trailer is as long as the lookahead of
/// the strategy, begins with that byte, and is read as `fill` bits left.
/// Without, the trailer is as long as the lookahead and read as no bits
/// left; or it is one byte shorter, and read as no bits left alone and as
/// eight bits left behind any byte.
pub open spec fn marks_end<P: Padding>(padding: P, fill: u8) -> bool {
    if fill > 0 {
        forall|last_byte: u8|
            {
                let trailer = #[trigger] padding.pad_spec(last_byte, fill);
                &&& trailer.len() == padding.max_size_spec()
                &&& trailer.len() > 0
                &&& trailer[0] == last_byte
                &&& padding.bits_left_spec(trailer) == Ok::<usize, Error>(fill as usize)
            }
    } else {
        let trailer = padding.pad_spec(0, 0);
        &&& padding.bits_left_spec(trailer) == Ok::<usize, Error>(0)
        &&& {
            ||| trailer.len() == padding.max_size_spec()
            ||| {
                &&& trailer.len() + 1 == padding.max_size_spec()
                &&& forall|byte: u8| #[trigger]
                    padding.bits_left_spec(seq![byte] + trailer) == Ok::<usize, Error>(8)
            }
        }
    }
}

/// The bits of a stream come first in the bits of its bytes: where the
/// bytes that the bits fill are followed by the packed tail, if there is
/// one, and by anything else.
pub proof fn lemma_unpack_packed(bits: Seq<bool>, rest: Seq<u8>)
    requires
        bits.len() % 8 > 0 ==> rest.len() > 0 && rest[0] == pack(tail(bits)),
    ensures
        unpack(packed(bits) + rest).take(bits.len() as int) == bits,
{
    let stream = packed(bits) + rest;
    let decoded = unpack(stream).take(bits.len() as int);
    assert(decoded =~= bits) by {
        assert forall|i: int| 0 <= i < bits.len() implies decoded[i] == bits[i] by {
            if i < 8 * (bits.len() / 8) {
                lemma_bit_at_packed(bits, i);
            } else {
                lemma_bit_at_tail(bits, i % 8);
            }
        }
    }
}

/// Round trip: with a strategy that marks the end of their stream, the
/// stream of a sequence of bits decodes, and to those bits exactly.
pub proof fn lemma_round_trip<P: Padding>(padding: P, bits: Seq<bool>)
    requires
        marks_end(padding, (bits.len() % 8) as u8),
    ensures
        decode_spec(padding, encode_spec(padding, bits)) == Ok::<Seq<bool>, Error>(bits),
{
    let trailer = trailer_spec(padding, bits);
    let stream = encode_spec(padding, bits);
    let whole = settled(padding, stream.len());
    let last_bytes = stream.skip(whole as int);
    let full = bits.len() / 8;
    let rest = bits.len() % 8;
    let left: usize = if rest > 0 || whole == full {
        rest as usize
    } else {
        8
    };
    assert(padding.bits_left_spec(last_bytes) == Ok::<usize, Error>(left) && 8 * whole + left
        == bits.len() && (left == 0 || last_bytes.len() > 0)) by {
        if rest > 0 {
            assert(last_bytes =~= trailer);
        } else {
            assert(pack(tail(bits)) == 0) by {
                lemma_weights();
            }
            if trailer.len() == padding.max_size_spec() || full == 0 {
                assert(last_bytes =~= trailer);
            } else {
                let byte = packed(bits)[full - 1];
                assert(last_bytes =~= seq![byte] + trailer);
            }
        }
    }
    lemma_unpack_packed(bits, trailer);
}

/// [`LengthPadding`] marks the end of every stream.
pub proof fn lemma_length_padding_marks_end(fill: u8)
    requires
        fill < 8,
    ensures
        marks_end(LengthPadding {  }, fill),
{
    let padding = LengthPadding {  };
    if fill == 0 {
        assert forall|byte: u8| #[trigger]
            padding.bits_left_spec(seq![byte] + padding.pad_spec(0, 0)) == Ok::<usize, Error>(
                8,
            ) by {
            assert(seq![byte] + padding.pad_spec(0, 0) =~= seq![byte, 8u8]);
        }
    }
}

/// [`NoPadding`] marks the end of a stream that ends on a byte boundary, and
/// of no other.
pub proof fn lemma_no_padding_marks_end(fill: u8)
    ensures
        marks_end(NoPadding {  }, fill) <==> fill == 0,
{
    let padding = NoPadding {  };
    if fill > 0 {
        assert(padding.pad_spec(0, fill).len() != padding.max_size_spec());
    }
}

/// Round trip with [`LengthPadding`]: the stream of any sequence of bits
/// decodes, and to those bits exactly.
pub proof fn lemma_length_padding_round_trip(bits: Seq<bool>)
    ensures
        decode_spec(LengthPadding {  }, encode_spec(LengthPadding {  }, bits)) == Ok::<
            Seq<bool>,
            Error,
        >(bits),
{
    lemma_length_padding_marks_end((bits.len() % 8) as u8);
    lemma_round_trip(LengthPadding {  }, bits);
}

/// What comes back with [`NoPadding`]: the bits that went in, and after them
/// the zeros that filled the last byte. The stream does not tell the two
/// apart.
pub proof fn lemma_no_padding_zero_fill(bits: Seq<bool>)
    ensures
        decode_spec(NoPadding {  }, encode_spec(NoPadding {  }, bits)) == Ok::<Seq<bool>, Error>(
            bits + Seq::new(((8 - bits.len() % 8) % 8) as nat, |i: int| false),
        ),
{
    let padding = NoPadding {  };
    let stream = encode_spec(padding, bits);
    let full = bits.len() / 8;
    let expected = bits + Seq::new(((8 - bits.len() % 8) % 8) as nat, |i: int| false);
    let decoded = unpack(stream).take(8 * stream.len() as int);
    assert(decoded =~= expected) by {
        assert forall|i: int| 0 <= i < decoded.len() implies decoded[i] == expected[i] by {
            if i < 8 * full {
                lemma_bit_at_packed(bits, i);
            } else {
                lemma_bit_at_tail(bits, i % 8);
            }
        }
    }
}

/// Round trip with [`NoPadding`]: the stream of a sequence of bits that ends
/// on a byte boundary decodes to those bits exactly.
pub proof fn lemma_no_padding_round_trip(bits: Seq<bool>)
    requires
        bits.len() % 8 == 0,
    ensures
        decode_spec(NoPadding {  }, encode_spec(NoPadding {  }, bits)) == Ok::<Seq<bool>, Error>(
            bits,
        ),
{
    lemma_no_padding_marks_end(0);
    lemma_round_trip(NoPadding {  }, bits);
}

} // verus!
