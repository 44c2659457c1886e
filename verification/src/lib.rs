//! **bitstream** reads and writes single bits over channels that carry whole
//! bytes.
//!
//! A [`BitWriter`] packs bits into bytes, most significant bit first, and a
//! [`BitReader`] hands them out again. How the stream says where its last
//! bit lies is the business of a [`Padding`]: [`NoPadding`] says nothing,
//! [`LengthPadding`] appends a count.
//!
//! Neither writer nor reader touches a channel. The writer hands back the
//! bytes to send, the reader is given the bytes that were received; the
//! caller does the sending and the receiving.

pub mod bits;
pub mod padding;
pub mod reader;
pub mod stream;
pub mod wire;
pub mod writer;

pub use padding::{Error, LengthPadding, NoPadding, Padding};
pub use reader::BitReader;
pub use writer::BitWriter;
