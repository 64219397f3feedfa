//! Audio between a Linux host with a real headset and a Windows guest with
//! virtual audio devices.
//!
//! Uncompressed 16-bit PCM travels over UDP, with a jitter buffer at each receiver.
//! The wire format is in [`packet`], the jitter buffer in [`jitter`]; [`host`] and
//! [`vm`] hold what the two agents decide. Neither touches a socket, a clock or a
//! sound device: whoever runs them does.

pub mod bytes;
pub mod clock;
pub mod endpoint;
pub mod format;
pub mod format_laws;
pub mod handshake_laws;
pub mod host;
pub mod jitter;
pub mod jitter_laws;
pub mod operation_laws;
pub mod packet;
pub mod packet_laws;
pub mod pcm;
pub mod pull_laws;
pub mod push_laws;
pub mod reader;
pub mod reopen;
pub mod resampler;
pub mod rounding;
pub mod sample_laws;
pub mod text;
pub mod vm;
pub mod wire_laws;

pub use crate::format::{Codec, Format};
pub use crate::jitter::{JitterBuffer, JitterStats};
pub use crate::packet::{
    decode, decode_samples, encode_audio, token_matches, AudioHeader, DecodeError, Direction,
    Incoming, Packet, PacketType, Status, MAGIC, MAX_PACKET, VERSION,
};
