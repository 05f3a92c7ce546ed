//! Building blocks of an IPv4 SYN scanner.
//!
//! A scan is read from text ([`ports`], [`services`], [`targets`]) into a
//! configuration ([`config`]), which is checked and turned into the responses to
//! expect ([`scan`], [`probes`], [`nonce`]). Probes are built ([`packet`]) and
//! paced ([`transmit`]) while responses are correlated ([`response`]) and collected
//! ([`receive`]). Progress and results are written out as text ([`progress`],
//! [`report`]). Sockets, clocks, threads and files are left to the caller, who
//! performs what the state machines ask for and tells them what came of it.

pub mod config;
pub mod duration;
pub mod interfaces;
pub mod nonce;
pub mod packet;
pub mod ports;
pub mod probes;
pub mod progress;
pub mod receive;
pub mod report;
pub mod response;
pub mod scan;
pub mod services;
pub mod targets;
pub mod text;
pub mod transmit;

pub use config::{PortState, ScanConfig, ScanError, ScanResult};
pub use duration::Duration;
pub use interfaces::interface_ipv4;
pub use ports::parse_ports;
pub use progress::ScanProgress;
pub use scan::IncompleteScanError;
pub use services::ports_from_services;
pub use targets::parse_targets;
