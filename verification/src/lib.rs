//! Wire codec for VITA Radio Transport (VITA-49) packets.
//!
//! A packet is a header word followed by up to four optional fields, a
//! payload and an optional trailer word. Which fields are present is decided
//! by flags in the header, and the payload length is what is left of the
//! declared packet size once every other field has been accounted for.

pub mod class_id;
pub mod error;
pub mod header;
pub mod laws;
pub mod packet;
pub mod trailer;
pub mod wire;

pub use class_id::ClassId;
pub use error::{Error, ParseError};
pub use header::{Header, PktType, Tsf, Tsi};
pub use packet::VrtPacket;
pub use trailer::Trailer;
