//! A decoder for the ITM and DWT packet protocol of ARMv7-M (Appendix D4
//! of the architecture reference manual).
//!
//! Raw, unframed trace bytes are pushed into a [`Decoder`], which turns
//! them into [`TracePacket`]s (or [`MalformedPacket`]s) and can associate
//! those packets with a reconstructed [`Timestamp`].
//!
//! The decoder works on a stream of bits ([`stream`]): each pushed byte
//! adds its bits, least significant first, and each call of
//! [`Decoder::next`] performs one [`stream::step`]. A packet whose bytes
//! are not all there yet stays pending, header included, so the stream may
//! be pushed in chunks of any size ([`chunks`]).

mod bitbuf;
pub mod chunks;
pub mod decoder;
pub mod header;
pub mod laws;
pub mod packet;
pub mod payload;
pub mod stream;
pub mod timestamp;

pub use bitbuf::{bits_of_bytes, MAX_BITS};
pub use decoder::{Decoder, DecoderOptions};
pub use header::{decode_header, HeaderVariant, PacketStub};
pub use packet::{
    Exception, ExceptionAction, MalformedPacket, MemoryAccessType, TimestampDataRelation,
    TracePacket, VectActive,
};
pub use payload::{extract_timestamp, handle_hardware_source};
pub use timestamp::{Timestamp, TimestampedTracePackets};
