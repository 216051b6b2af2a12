//! An APRS gateway's packet plane: the packet model and its textual form, the
//! KISS and AX.25 codecs, the digipeater, the router's gating policy, the
//! smart-beacon scheduler, and the line protocols around them.

pub mod aprs;
pub mod beacon;
pub mod clock;
pub mod config;
pub mod digipeater;
pub mod filter;
pub mod gps;
pub mod message;
pub mod network;
pub mod router;
pub mod seen;
pub mod serial;
pub mod telemetry;
pub mod text;
