//! What goes over a TNC's serial line: KISS frames with AX.25 inside, or lines of text.

pub mod kiss;
pub mod ax25;

pub use ax25::{aprs_to_ax25, ax25_to_aprs, decode_ax25_address, encode_ax25_address};
pub mod link;
