//! Ground-station software core: CCSDS space-packet framing, a Hamming(7,4)
//! single-error-correcting block code, the bit-level side of the BPSK/QPSK
//! modems, a deterministic xorshift generator for reproducible simulations,
//! bit-error counting, and two-line element set (TLE) validation and column
//! scanning.

pub mod bits;
pub mod constellation;
pub mod error;
pub mod fec;
pub mod frame;
pub mod modem;
pub mod rng;
pub mod tle;

pub use crate::error::{FrameError, OrbitError};
pub use crate::fec::{Decoder, Encoder, Hamming74};
pub use crate::frame::{PacketType, SequenceFlags, SpacePacket, SpacePacketHeader};
pub use crate::modem::{Bpsk, Qpsk};
pub use crate::rng::Rng;
