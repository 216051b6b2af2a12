//! The gateway's configuration, as plain values.

use vstd::prelude::*;

verus! {

/// The whole configuration.
#[derive(Debug, Clone)]
pub struct Config {
    pub mycall: String,
    pub serial_ports: Vec<SerialPortConfig>,
    pub aprs_is: Option<AprsIsConfig>,
    pub digipeater: DigipeaterConfig,
    pub telemetry: TelemetryConfig,
    pub filters: Vec<FilterConfig>,
    pub gps: Option<GpsConfig>,
    pub beacon: Option<BeaconConfig>,
}

/// One serial-attached TNC.
#[derive(Debug, Clone)]
pub struct SerialPortConfig {
    pub name: String,
    pub device: String,
    pub baud_rate: u32,
    pub protocol: SerialProtocol,
    pub tx_enable: bool,
    pub rx_enable: bool,
}

/// How a TNC frames packets on its serial line.
#[derive(Debug, Clone, Copy, PartialEq, Eq, Structural)]
pub enum SerialProtocol {
    Kiss,
    Tnc2,
}

/// The APRS-IS server and the account used there.
#[derive(Debug, Clone)]
pub struct AprsIsConfig {
    pub server: String,
    pub port: u16,
    pub callsign: String,
    pub passcode: String,
    pub filter: Option<String>,
    pub tx_enable: bool,
    pub rx_enable: bool,
}

/// The digipeater's own call, its aliases and its limits.
#[derive(Debug, Clone)]
pub struct DigipeaterConfig {
    pub enabled: bool,
    pub mycall: String,
    pub aliases: Vec<String>,
    /// Seconds during which a packet seen before is not repeated again.
    pub viscous_delay: u32,
    /// A packet with this many used hops is not repeated.
    pub max_hops: u8,
}

/// When telemetry is sent, and with which comment.
#[derive(Debug, Clone)]
pub struct TelemetryConfig {
    pub enabled: bool,
    pub interval: u32,
    pub comment: String,
}

/// One filter rule: a pattern and what to do with a packet that matches it.
#[derive(Debug, Clone)]
pub struct FilterConfig {
    pub name: String,
    pub action: FilterAction,
    pub pattern: String,
}

/// What a filter rule does with a packet that matches.
#[derive(Debug, Clone, Copy, PartialEq, Eq, Structural)]
pub enum FilterAction {
    Drop,
    Pass,
}

/// Where positions come from.
#[derive(Debug, Clone)]
pub struct GpsConfig {
    /// One of `none`, `serial`, `gpsd`, `fixed`.
    pub gps_type: String,
    pub device: Option<String>,
    pub baud_rate: Option<u32>,
    pub host: Option<String>,
    pub port: Option<u16>,
    /// For a fixed position: `lat,lon[,alt]`.
    pub position: Option<String>,
}

/// What the position beacon says and how often.
#[derive(Debug, Clone)]
pub struct BeaconConfig {
    pub enabled: bool,
    pub callsign: String,
    /// Seconds after which a beacon is sent whatever the motion.
    pub interval: u32,
    pub path: String,
    pub symbol_table: char,
    pub symbol: char,
    pub comment: String,
    pub timestamp: bool,
    pub smart_beacon: SmartBeaconConfig,
}

/// The thresholds of smart beaconing. Times are in seconds, speeds in knots, angles in degrees.
#[derive(Debug, Clone, Copy)]
pub struct SmartBeaconConfig {
    pub enabled: bool,
    pub check_interval: u32,
    pub min_interval: u32,
    pub stationary_interval: u32,
    pub low_speed: u32,
    pub low_speed_interval: u32,
    pub high_speed: u32,
    pub high_speed_interval: u32,
    pub turn_angle: u32,
    pub turn_speed: u32,
}

impl Default for SmartBeaconConfig {
    fn default() -> (r: Self)
        ensures
            r == (SmartBeaconConfig {
                enabled: true,
                check_interval: 5,
                min_interval: 30,
                stationary_interval: 600,
                low_speed: 5,
                low_speed_interval: 300,
                high_speed: 60,
                high_speed_interval: 60,
                turn_angle: 20,
                turn_speed: 5,
            }),
    {
        SmartBeaconConfig {
            enabled: true,
            check_interval: 5,
            min_interval: 30,
            stationary_interval: 600,
            low_speed: 5,
            low_speed_interval: 300,
            high_speed: 60,
            high_speed_interval: 60,
            turn_angle: 20,
            turn_speed: 5,
        }
    }
}

} // verus!
