//! The APRS packet model and its textual form.

pub mod packet;
pub mod parser;

pub use packet::{AprsPacket, CallSign};
pub use parser::parse_packet;
