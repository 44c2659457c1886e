//! Padding strategies: how the end of a bit stream is marked in a stream of
//! whole bytes, and how the mark is read back.

use vstd::prelude::*;

verus! {

/// Why a bit could not be read.
#[derive(Clone, Copy, Debug, PartialEq, Eq, Structural)]
pub enum Error {
    /// The reader has neither enough bytes in its lookahead to tell payload
    /// from trailer, nor been told that the input is over.
    NeedInput,
    /// The last bytes of the input do not describe a final byte: the count
    /// of valid bits is more than eight, or there is no byte for it to count.
    MalformedTrailer,
}

/// **Padding** says what a [`BitWriter`](crate::writer::BitWriter) appends
/// to a stream when it is finished, and what a
/// [`BitReader`](crate::reader::BitReader) makes of the last bytes of one.
///
/// The three operations are functions of their arguments: what each returns
/// is given a name here (`max_size_spec`, `pad_spec`, `bits_left_spec`), and
/// the contracts of writer and reader are stated over those names. A
/// strategy is not asked to be sensible: the reader checks the counts it is
/// handed.
pub trait Padding {
    /// The value of [`max_size`](Padding::max_size).
    spec fn max_size_spec(&self) -> usize;

    /// The bytes that [`pad`](Padding::pad) returns.
    spec fn pad_spec(&self, last_byte: u8, byte_fill: u8) -> Seq<u8>;

    /// The answer of [`bits_left`](Padding::bits_left).
    spec fn bits_left_spec(&self, last_bytes: Seq<u8>) -> Result<usize, Error>;

    /// The number of bytes at the end of a stream that the strategy has to
    /// see in order to find the end of the payload. A reader hands at most
    /// this many bytes to [`bits_left`](Padding::bits_left).
    fn max_size(&self) -> (size: usize)
        ensures
            size == self.max_size_spec(),
    ;

    /// The bytes that end a stream whose last, incomplete byte is
    /// `last_byte`, of which the `byte_fill` most significant bits are
    /// payload. The strategy is responsible for `last_byte` itself: what is
    /// not returned here is lost.
    fn pad(&self, last_byte: u8, byte_fill: u8) -> (trailer: Vec<u8>)
        ensures
            trailer@ == self.pad_spec(last_byte, byte_fill),
    ;

    /// The number of payload bits in the first of `last_bytes`, the final
    /// bytes of a stream: the last `max_size()` of them, or all of them if
    /// the stream is shorter.
    fn bits_left(&self, last_bytes: &[u8]) -> (left: Result<usize, Error>)
        ensures
            left == self.bits_left_spec(last_bytes@),
    ;
}

/// **NoPadding** adds nothing to a stream but the zeros that fill its last
/// byte. It is the strategy of a writer or reader made with `new`.
///
/// The stream does not say how many bits of its last byte are payload: a
/// reader takes every byte as eight bits.
#[derive(Debug)]
pub struct NoPadding {}

impl NoPadding {
    /// Create a new instance
    pub fn new() -> (padding: Self)
        ensures
            padding == (NoPadding {  }),
    {
        NoPadding {  }
    }
}

impl Default for NoPadding {
    fn default() -> (padding: Self)
        ensures
            padding == (NoPadding {  }),
    {
        NoPadding {  }
    }
}

impl Padding for NoPadding {
    open spec fn max_size_spec(&self) -> usize {
        0
    }

    open spec fn pad_spec(&self, last_byte: u8, byte_fill: u8) -> Seq<u8> {
        if byte_fill > 0 {
            seq![last_byte]
        } else {
            Seq::empty()
        }
    }

    open spec fn bits_left_spec(&self, last_bytes: Seq<u8>) -> Result<usize, Error> {
        Ok(0)
    }

    fn max_size(&self) -> (size: usize) {
        0
    }

    fn pad(&self, last_byte: u8, byte_fill: u8) -> (trailer: Vec<u8>) {
        let mut trailer = Vec::new();
        if byte_fill > 0 {
            trailer.push(last_byte);
        }
        trailer
    }

    fn bits_left(&self, last_bytes: &[u8]) -> (left: Result<usize, Error>) {
        Ok(0)
    }
}

/// **LengthPadding** ends a stream with a byte that counts the payload bits
/// of the byte before it.
///
/// A stream whose payload ends inside a byte ends with that byte and the
/// count, one to seven. A stream whose payload fills its last byte, or is
/// empty, ends with the single byte 8.
#[derive(Debug)]
pub struct LengthPadding {}

impl LengthPadding {
    /// Create a new instance
    pub fn new() -> (padding: Self)
        ensures
            padding == (LengthPadding {  }),
    {
        LengthPadding {  }
    }
}

impl Default for LengthPadding {
    fn default() -> (padding: Self)
        ensures
            padding == (LengthPadding {  }),
    {
        LengthPadding {  }
    }
}

impl Padding for LengthPadding {
    open spec fn max_size_spec(&self) -> usize {
        2
    }

    open spec fn pad_spec(&self, last_byte: u8, byte_fill: u8) -> Seq<u8> {
        if byte_fill > 0 {
            seq![last_byte, byte_fill]
        } else {
            seq![8u8]
        }
    }

    /// The last of the bytes is the count. With a byte before it, the count
    /// is the answer; alone, it counts the bits of a byte that is not there,
    /// and the answer is zero. A count above eight is refused.
    open spec fn bits_left_spec(&self, last_bytes: Seq<u8>) -> Result<usize, Error> {
        if last_bytes.len() == 0 {
            Ok(0)
        } else if last_bytes.last() > 8 {
            Err(Error::MalformedTrailer)
        } else if last_bytes.len() == 1 {
            Ok(0)
        } else {
            Ok(last_bytes.last() as usize)
        }
    }

    fn max_size(&self) -> (size: usize) {
        2
    }

    fn pad(&self, last_byte: u8, byte_fill: u8) -> (trailer: Vec<u8>) {
        let mut trailer = Vec::new();
        if byte_fill > 0 {
            trailer.push(last_byte);
            trailer.push(byte_fill);
        } else {
            trailer.push(8u8);
        }
        trailer
    }

    fn bits_left(&self, last_bytes: &[u8]) -> (left: Result<usize, Error>) {
        let len = last_bytes.len();
        if len == 0 {
            return Ok(0);
        }
        let count = last_bytes[len - 1];
        if count > 8 {
            Err(Error::MalformedTrailer)
        } else if len == 1 {
            Ok(0)
        } else {
            Ok(count as usize)
        }
    }
}

} // verus!
