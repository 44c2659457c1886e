//! Whole streams in memory: all the bits of a stream written at once, and a
//! stream that arrives in pieces read to its end.

use crate::bits::{packed, unpack};
use crate::padding::{Error, Padding};
use crate::reader::{next_bit_spec, BitReader};
use crate::wire::{decode_spec, encode_spec, settled};
use crate::writer::{lemma_packed_push, BitWriter};
use vstd::prelude::*;
use vstd::slice::slice_subrange;

verus! {

/// The bytes of `chunks`, one chunk after the other.
pub open spec fn joined(chunks: Seq<Vec<u8>>) -> Seq<u8> {
    chunks.map_values(|chunk: Vec<u8>| chunk@).flatten()
}

/// Write `bits` with a [`BitWriter`] and end the stream: the bytes that a
/// sink would have received.
pub fn encode<P: Padding>(padder: P, bits: &[bool]) -> (bytes: Vec<u8>)
    ensures
        bytes@ == encode_spec(padder, bits@),
{
    let mut writer = BitWriter::with_padding(padder);
    let mut bytes: Vec<u8> = Vec::new();
    let mut i: usize = 0;
    while i < bits.len()
        invariant
            i <= bits.len(),
            writer.wf(),
            writer.padding() == padder,
            writer@ == bits@.take(i as int),
            bytes@ == packed(writer@),
        decreases bits.len() - i,
    {
        proof {
            lemma_packed_push(writer@, bits@[i as int]);
        }
        match writer.write_bit(bits[i]) {
            Some(byte) => bytes.push(byte),
            None => {},
        }
        i = i + 1;
    }
    assert(bits@.take(i as int) =~= bits@);
    let mut trailer = writer.finish();
    bytes.append(&mut trailer);
    bytes
}

/// Read from `reader` until it has no bit to give, and append the bits to
/// `bits`.
fn drain<P: Padding>(reader: &mut BitReader<P>, bits: &mut Vec<bool>)
    requires
        old(reader).wf(),
        old(bits)@ == unpack(old(reader)@.input).take(old(reader)@.served as int),
    ensures
        final(reader).wf(),
        final(reader).padding() == old(reader).padding(),
        final(reader)@.input == old(reader)@.input,
        final(reader)@.ended == old(reader)@.ended,
        final(bits)@ == unpack(final(reader)@.input).take(final(reader)@.served as int),
        !(next_bit_spec(final(reader).padding(), final(reader)@) matches Ok(Some(_))),
{
    loop
        invariant
            reader.wf(),
            reader.padding() == old(reader).padding(),
            reader@.input == old(reader)@.input,
            reader@.ended == old(reader)@.ended,
            bits@ == unpack(reader@.input).take(reader@.served as int),
        ensures
            !(next_bit_spec(reader.padding(), reader@) matches Ok(Some(_))),
        decreases 8 * reader@.input.len() - reader@.served,
    {
        proof {
            reader.lemma_in_bounds();
        }
        match reader.read_bit() {
            Ok(Some(bit)) => {
                bits.push(bit);
                proof {
                    reader.lemma_in_bounds();
                }
            },
            _ => {
                break ;
            },
        }
    }
}

/// Read a stream that arrives as `chunks`, one piece after the other, with a
/// [`BitReader`], to its end: all the bits of the stream, or the error of
/// its end.
///
/// The result depends on the bytes alone, not on how they are cut into
/// pieces: a source that gives one byte at a time is read as one that gives
/// everything at once. An empty piece adds nothing; the input ends where the
/// pieces end.
pub fn decode_chunks<P: Padding>(padder: P, chunks: &[Vec<u8>]) -> (bits: Result<Vec<bool>, Error>)
    requires
        padder.max_size_spec() < usize::MAX,
    ensures
        match bits {
            Ok(bits) => decode_spec(padder, joined(chunks@)) == Ok::<Seq<bool>, Error>(bits@),
            Err(e) => decode_spec(padder, joined(chunks@)) == Err::<Seq<bool>, Error>(e),
        },
{
    let ghost padding = padder;
    let mut reader = BitReader::with_padding(padder);
    let mut bits: Vec<bool> = Vec::new();
    let mut i: usize = 0;
    while i < chunks.len()
        invariant
            i <= chunks.len(),
            reader.wf(),
            reader.padding() == padding,
            !reader@.ended,
            reader@.input == joined(chunks@.take(i as int)),
            reader@.served == 8 * settled(padding, reader@.input.len()),
            bits@ == unpack(reader@.input).take(reader@.served as int),
        decreases chunks.len() - i,
    {
        let chunk = chunks[i].as_slice();
        let ghost before = reader@.input;
        let mut pos: usize = 0;
        while pos < chunk.len()
            invariant
                pos <= chunk.len(),
                reader.wf(),
                reader.padding() == padding,
                !reader@.ended,
                reader@.input == before + chunk@.take(pos as int),
                reader@.served == 8 * settled(padding, reader@.input.len()),
                bits@ == unpack(reader@.input).take(reader@.served as int),
            decreases chunk.len() - pos,
        {
            let rest = slice_subrange(chunk, pos, chunk.len());
            let taken = match reader.fill_buffer(rest) {
                Ok(taken) => taken,
                Err(_) => 0,
            };
            proof {
                assert(chunk@.take(pos + taken) =~= chunk@.take(pos as int) + rest@.take(
                    taken as int,
                ));
                assert(unpack(reader@.input).take(reader@.served as int) =~= bits@);
            }
            pos = pos + taken;
            drain(&mut reader, &mut bits);
            proof {
                reader.lemma_in_bounds();
            }
        }
        proof {
            let views = chunks@.take(i as int).map_values(|chunk: Vec<u8>| chunk@);
            views.lemma_flatten_push(chunk@);
            assert(chunks@.take(i + 1).map_values(|chunk: Vec<u8>| chunk@) =~= views.push(chunk@));
        }
        i = i + 1;
    }
    assert(chunks@.take(i as int) =~= chunks@);
    let end: Vec<u8> = Vec::new();
    match reader.fill_buffer(end.as_slice()) {
        Err(e) => Err(e),
        Ok(_) => {
            drain(&mut reader, &mut bits);
            proof {
                reader.lemma_in_bounds();
            }
            Ok(bits)
        },
    }
}

} // verus!
