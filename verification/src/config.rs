//! The gateway's configuration model.
//!
//! What the gateway reads from its configuration file: where measurements
//! come from (a serial port or a replayed file), where they go (HTTP
//! upload, a file, stdout), and the logging filter. The file handling and
//! the mapping onto the serial-port driver's own types stay with the
//! caller; these are the plain values and their defaults.

use vstd::prelude::*;

verus! {

/// Serial data bits per character.
#[derive(Debug, Clone, Copy, PartialEq, Eq, Structural)]
pub enum DataBitsDef {
    Five,
    Six,
    Seven,
    Eight,
}

/// Serial parity.
#[derive(Debug, Clone, Copy, PartialEq, Eq, Structural)]
pub enum ParityDef {
    NoParity,
    Odd,
    Even,
}

/// Serial flow control.
#[derive(Debug, Clone, Copy, PartialEq, Eq, Structural)]
pub enum FlowControlDef {
    NoFlowControl,
    Software,
    Hardware,
}

/// Serial stop bits.
#[derive(Debug, Clone, Copy, PartialEq, Eq, Structural)]
pub enum StopBitsDef {
    One,
    Two,
}

/// The serial-port options of a serial source.
#[derive(Debug, Clone, Copy, PartialEq, Eq, Structural)]
pub struct SerialOptions {
    pub baud_rate: u32,
    pub data_bits: DataBitsDef,
    pub flow_control: FlowControlDef,
    pub parity: ParityDef,
    pub stop_bits: StopBitsDef,
}

/// Where measurements are obtained from.
pub enum MeasurementSource {
    /// A serial port speaking one of the two wire protocols.
    Serial { path: Option<String>, version: usize, options: SerialOptions },
    /// Reserved.
    WebSocket { url: String },
    /// A newline-delimited JSON file, replayed with its original timing.
    File { path: String, repeat: bool },
}

/// The settings of an HTTP upload destination.
pub struct HttpConfig {
    pub endpoint: String,
    pub http_proxy: Option<String>,
    pub https_proxy: Option<String>,
    pub identity_cert: Option<String>,
    pub identity_cert_pass: Option<String>,
    pub root_certs: Vec<String>,
    pub timeout_ms: Option<u64>,
}

/// Where measurements are sent to.
pub enum MeasurementDestination {
    /// Measurements are batched into a JSON array and POSTed to `endpoint`.
    Http { config: HttpConfig, retry_attempts: u64, queue_rate_ms: u64 },
    /// Reserved.
    WebSocket { endpoint: String },
    /// Measurements are written to a file as JSON lines.
    File { path: String, append: bool },
    /// Measurements are written to stdout as JSON lines.
    Stdout,
}

/// The gateway's whole configuration.
pub struct AppConfig {
    pub log: String,
    pub source: MeasurementSource,
    pub destination: Vec<MeasurementDestination>,
}

/// Default for `repeat` on a file source: replay in a loop.
pub fn default_true() -> (r: bool)
    ensures
        r == true,
{
    true
}

/// Default number of upload retries.
pub fn default_1() -> (r: u64)
    ensures
        r == 1,
{
    1
}

/// Default upload tick, in milliseconds.
pub fn default_100() -> (r: u64)
    ensures
        r == 100,
{
    100
}

/// Default request timeout, in seconds.
pub fn default_some_30() -> (r: Option<u64>)
    ensures
        r == Some(30u64),
{
    Some(30)
}

/// Default logging filter.
pub fn default_log() -> (r: String)
    ensures
        r@ == "warn"@,
{
    "warn".to_owned()
}

/// Default geometry version tag.
pub fn version_0() -> (r: String)
    ensures
        r@ == "0"@,
{
    "0".to_owned()
}

/// The configuration the gateway writes when it finds none: a version-1
/// serial source on COM1 at 921600 baud, 8N1 without flow control,
/// writing to stdout.
pub fn default_config() -> (c: AppConfig)
    ensures
        c.log@ == "warn"@,
        (c.source matches MeasurementSource::Serial { path, version, options } ==> {
            &&& path matches Some(p) && p@ == "COM1"@
            &&& version == 1
            &&& options == (SerialOptions {
                baud_rate: 921600u32,
                data_bits: DataBitsDef::Eight,
                flow_control: FlowControlDef::NoFlowControl,
                parity: ParityDef::NoParity,
                stop_bits: StopBitsDef::One,
            })
        }),
        c.source is Serial,
        c.destination@.len() == 1,
        c.destination@[0] is Stdout,
{
    let mut destination: Vec<MeasurementDestination> = Vec::new();
    destination.push(MeasurementDestination::Stdout);
    AppConfig {
        log: default_log(),
        source: MeasurementSource::Serial {
            path: Some("COM1".to_owned()),
            version: 1,
            options: SerialOptions {
                baud_rate: 921600,
                data_bits: DataBitsDef::Eight,
                flow_control: FlowControlDef::NoFlowControl,
                parity: ParityDef::NoParity,
                stop_bits: StopBitsDef::One,
            },
        },
        destination,
    }
}

} // verus!
