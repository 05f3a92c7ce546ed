//! What a scan is asked to do, what it reports, and which requests are refused.

use crate::duration::Duration;
use crate::targets::MAX_PROBES;
use crate::text::{decimal_text, endpoint_text};
use vstd::prelude::*;

verus! {

/// The bandwidth of a scan that does not choose one, in KiB/s.
pub const DEFAULT_BANDWIDTH_KIB: u64 = 15;

/// The response timeout of a scan that does not choose one, in seconds.
pub const DEFAULT_TIMEOUT_SECS: u64 = 30;

/// The state inferred from a TCP response.
#[derive(Clone, Copy, Debug, PartialEq, Eq, Structural)]
#[non_exhaustive]
pub enum PortState {
    /// A SYN/ACK was received.
    Open,
    /// A RST was received.
    Closed,
}

/// One response produced by a scan.
#[derive(Clone, Copy, Debug, PartialEq, Eq, Structural)]
#[non_exhaustive]
pub struct ScanResult {
    /// The responding host.
    pub host: u32,
    /// The responding TCP port.
    pub port: u16,
    /// The inferred port state.
    pub state: PortState,
}

impl ScanResult {
    /// The host and port that responded.
    pub open spec fn pair(self) -> (u32, u16) {
        (self.host, self.port)
    }

    /// Creates a scan result for the given host, port, and inferred state.
    #[must_use]
    pub fn new(host: u32, port: u16, state: PortState) -> (result: Self)
        ensures
            result == (ScanResult { host, port, state }),
    {
        ScanResult { host, port, state }
    }
}

/// Configuration for one SYN scan.
#[derive(Debug)]
#[non_exhaustive]
pub struct ScanConfig {
    /// IPv4 addresses to scan.
    ///
    /// Addresses must be unique.
    pub targets: Vec<u32>,
    /// TCP ports to scan.
    ///
    /// Ports must be unique.
    pub ports: Vec<u16>,
    /// Source IPv4 address assigned to the selected interface.
    pub source: u32,
    /// Approximate maximum packet bandwidth in KiB/s.
    ///
    /// [`ScanConfig::new`] defaults this to 15 KiB/s, or approximately 384
    /// probes per second at 40 bytes a probe.
    pub bandwidth_kib: u64,
    /// Time to listen for late replies after the final probe.
    pub timeout: Duration,
    /// Whether RST responses should be returned.
    pub show_closed: bool,
}

impl ScanConfig {
    /// Creates a configuration with 15 KiB/s bandwidth and a 30-second timeout.
    #[must_use]
    pub fn new(targets: Vec<u32>, ports: Vec<u16>, source: u32) -> (config: Self)
        ensures
            config.targets == targets,
            config.ports == ports,
            config.source == source,
            config.bandwidth_kib == DEFAULT_BANDWIDTH_KIB,
            config.timeout@ == DEFAULT_TIMEOUT_SECS * 1_000_000_000,
            !config.show_closed,
    {
        ScanConfig {
            targets,
            ports,
            source,
            bandwidth_kib: DEFAULT_BANDWIDTH_KIB,
            timeout: Duration::from_secs(DEFAULT_TIMEOUT_SECS),
            show_closed: false,
        }
    }
}

impl Clone for ScanConfig {
    fn clone(&self) -> (config: Self)
        ensures
            config.targets@ == self.targets@,
            config.ports@ == self.ports@,
            config.source == self.source,
            config.bandwidth_kib == self.bandwidth_kib,
            config.timeout == self.timeout,
            config.show_closed == self.show_closed,
    {
        ScanConfig {
            targets: self.targets.clone(),
            ports: self.ports.clone(),
            source: self.source,
            bandwidth_kib: self.bandwidth_kib,
            timeout: self.timeout,
            show_closed: self.show_closed,
        }
    }
}

/// Why a scan is refused.
#[derive(Clone, Copy, Debug, PartialEq, Eq, Structural)]
pub enum ScanError {
    /// There is no target or no port.
    NothingToScan,
    /// The bandwidth is zero.
    ZeroBandwidth,
    /// The response timeout is zero.
    ZeroTimeout,
    /// The number of probes cannot be counted.
    SizeOverflow,
    /// There are more probes than a scan may send.
    TooManyProbes {
        /// The number of probes.
        count: usize,
    },
    /// A host and port are asked for twice.
    DuplicatePair {
        /// The host.
        host: u32,
        /// The port.
        port: u16,
    },
    /// The bandwidth cannot be counted in bytes per second.
    BandwidthTooLarge,
}

/// The message of an error.
pub open spec fn scan_error_text(error: ScanError) -> Seq<char> {
    match error {
        ScanError::NothingToScan => "at least one target and one port are required"@,
        ScanError::ZeroBandwidth => "bandwidth must be greater than zero"@,
        ScanError::ZeroTimeout => "timeout must be greater than zero"@,
        ScanError::SizeOverflow => "scan size overflow"@,
        ScanError::TooManyProbes { count } => "scan contains "@ + crate::text::decimal(
            count as nat,
        ) + " probes; maximum is "@ + crate::text::decimal(MAX_PROBES as nat)
            + " (one port on a /8 or all 65,535 ports on a /24); split larger scans"@,
        ScanError::DuplicatePair { host, port } => "duplicate host/port pair "@
            + crate::text::endpoint(host, port)
            + "; ScanConfig targets and ports must be unique"@,
        ScanError::BandwidthTooLarge => "bandwidth is too large"@,
    }
}

impl ScanError {
    /// The message of the error.
    pub fn message(&self) -> (text: String)
        ensures
            text@ == scan_error_text(*self),
    {
        match self {
            ScanError::NothingToScan => {
                "at least one target and one port are required".to_string()
            },
            ScanError::ZeroBandwidth => "bandwidth must be greater than zero".to_string(),
            ScanError::ZeroTimeout => "timeout must be greater than zero".to_string(),
            ScanError::SizeOverflow => "scan size overflow".to_string(),
            ScanError::TooManyProbes { count } => {
                let mut text = "scan contains ".to_string();
                text.append(decimal_text(*count as u64).as_str());
                text.append(" probes; maximum is ");
                text.append(decimal_text(MAX_PROBES as u64).as_str());
                text.append(
                    " (one port on a /8 or all 65,535 ports on a /24); split larger scans",
                );
                text
            },
            ScanError::DuplicatePair { host, port } => {
                let mut text = "duplicate host/port pair ".to_string();
                text.append(endpoint_text(*host, *port).as_str());
                text.append("; ScanConfig targets and ports must be unique");
                text
            },
            ScanError::BandwidthTooLarge => "bandwidth is too large".to_string(),
        }
    }
}

/// The number of probes of a scan with so many targets and ports, or why there is
/// no such scan.
pub open spec fn admitted(
    target_count: usize,
    port_count: usize,
    bandwidth_kib: u64,
) -> Result<usize, ScanError> {
    if target_count == 0 || port_count == 0 {
        Err(ScanError::NothingToScan)
    } else if bandwidth_kib == 0 {
        Err(ScanError::ZeroBandwidth)
    } else if target_count * port_count > usize::MAX {
        Err(ScanError::SizeOverflow)
    } else if target_count * port_count > MAX_PROBES {
        Err(ScanError::TooManyProbes { count: (target_count * port_count) as usize })
    } else {
        Ok((target_count * port_count) as usize)
    }
}

/// Counts the probes of a scan with so many targets and ports, or refuses it.
pub fn validate_probe_count(
    target_count: usize,
    port_count: usize,
    bandwidth_kib: u64,
) -> (probes: Result<usize, ScanError>)
    ensures
        probes == admitted(target_count, port_count, bandwidth_kib),
{
    if target_count == 0 || port_count == 0 {
        return Err(ScanError::NothingToScan);
    }
    if bandwidth_kib == 0 {
        return Err(ScanError::ZeroBandwidth);
    }
    match target_count.checked_mul(port_count) {
        None => Err(ScanError::SizeOverflow),
        Some(count) => {
            if count > MAX_PROBES {
                Err(ScanError::TooManyProbes { count })
            } else {
                Ok(count)
            }
        },
    }
}

/// Counts the probes of a scan, or refuses it.
pub fn validate_scan(config: &ScanConfig) -> (probes: Result<usize, ScanError>)
    ensures
        probes == admitted(
            config.targets.len(),
            config.ports.len(),
            config.bandwidth_kib,
        ),
{
    validate_probe_count(config.targets.len(), config.ports.len(), config.bandwidth_kib)
}

/// The number of host/port pairs of a configuration, whether or not a scan of them
/// is admitted.
pub fn pair_count(config: &ScanConfig) -> (pairs: Result<usize, ScanError>)
    ensures
        pairs == if config.targets@.len() * config.ports@.len() <= usize::MAX {
            Ok::<usize, ScanError>((config.targets@.len() * config.ports@.len()) as usize)
        } else {
            Err(ScanError::SizeOverflow)
        },
{
    match config.targets.len().checked_mul(config.ports.len()) {
        Some(pairs) => Ok(pairs),
        None => Err(ScanError::SizeOverflow),
    }
}

/// The response timeout for a number of seconds, which must not be zero.
pub fn response_timeout(secs: u64) -> (timeout: Result<Duration, ScanError>)
    ensures
        secs == 0 ==> timeout == Err::<Duration, ScanError>(ScanError::ZeroTimeout),
        secs != 0 ==> timeout is Ok && timeout->Ok_0@ == secs * 1_000_000_000,
{
    if secs == 0 {
        Err(ScanError::ZeroTimeout)
    } else {
        Ok(Duration::from_secs(secs))
    }
}

/// A scan that is admitted has something to send and no more than the limit, and
/// no smaller scan at the same bandwidth is refused.
pub proof fn law_admitted_scans(
    target_count: usize,
    port_count: usize,
    bandwidth_kib: u64,
    fewer_targets: usize,
    fewer_ports: usize,
)
    requires
        admitted(target_count, port_count, bandwidth_kib) is Ok,
        0 < fewer_targets <= target_count,
        0 < fewer_ports <= port_count,
    ensures
        0 < admitted(target_count, port_count, bandwidth_kib)->Ok_0 <= MAX_PROBES,
        admitted(target_count, port_count, bandwidth_kib)->Ok_0 == target_count * port_count,
        admitted(fewer_targets, fewer_ports, bandwidth_kib) is Ok,
{
    assert(0 < target_count * port_count) by (nonlinear_arith)
        requires
            target_count > 0,
            port_count > 0,
    ;
    assert(fewer_targets * fewer_ports <= target_count * port_count) by (nonlinear_arith)
        requires
            fewer_targets <= target_count,
            fewer_ports <= port_count,
    ;
}

/// Which scans are admitted. There must be a target and a port, then bandwidth, then a
/// number of probes that can be counted, then at most 16777214 of them. The first of
/// these that fails is the reason.
pub proof fn law_admission(target_count: usize, port_count: usize, bandwidth_kib: u64)
    ensures
        ({
            let result = admitted(target_count, port_count, bandwidth_kib);
            let some = target_count > 0 && port_count > 0;
            let probes = target_count * port_count;
            &&& result is Ok <==> some && bandwidth_kib > 0 && probes <= 16777214
            &&& result is Ok ==> result->Ok_0 == probes
            &&& result == Err::<usize, ScanError>(ScanError::NothingToScan) <==> !some
            &&& result == Err::<usize, ScanError>(ScanError::ZeroBandwidth) <==> some
                && bandwidth_kib == 0
            &&& result == Err::<usize, ScanError>(ScanError::SizeOverflow) <==> some
                && bandwidth_kib > 0 && probes > usize::MAX
            &&& result is Err && result->Err_0 is TooManyProbes <==> some && bandwidth_kib > 0
                && 16777214 < probes <= usize::MAX
            &&& result is Err && result->Err_0 is TooManyProbes ==> result->Err_0->count == probes
        }),
{
}

/// What the messages of refused scans say.
pub proof fn law_scan_messages(count: usize, host: u32, port: u16)
    ensures
        scan_error_text(ScanError::NothingToScan)
            == "at least one target and one port are required"@,
        scan_error_text(ScanError::ZeroBandwidth) == "bandwidth must be greater than zero"@,
        scan_error_text(ScanError::ZeroTimeout) == "timeout must be greater than zero"@,
        scan_error_text(ScanError::SizeOverflow) == "scan size overflow"@,
        scan_error_text(ScanError::BandwidthTooLarge) == "bandwidth is too large"@,
        scan_error_text(ScanError::TooManyProbes { count }) == "scan contains "@
            + crate::text::decimal(count as nat)
            + " probes; maximum is 16777214 (one port on a /8 or all 65,535 ports on a /24); split larger scans"@,
        scan_error_text(ScanError::DuplicatePair { host, port }) == "duplicate host/port pair "@
            + crate::text::dotted_quad(host) + ":"@ + crate::text::decimal(port as nat)
            + "; ScanConfig targets and ports must be unique"@,
{
    reveal_strlit(" probes; maximum is ");
    reveal_strlit(" (one port on a /8 or all 65,535 ports on a /24); split larger scans");
    reveal_strlit(
        " probes; maximum is 16777214 (one port on a /8 or all 65,535 ports on a /24); split larger scans",
    );
    assert(crate::text::decimal(16777214) =~= seq!['1', '6', '7', '7', '7', '2', '1', '4']) by {
        reveal_with_fuel(crate::text::decimal, 9);
    }
    assert(scan_error_text(ScanError::TooManyProbes { count }) =~= "scan contains "@
        + crate::text::decimal(count as nat)
        + " probes; maximum is 16777214 (one port on a /8 or all 65,535 ports on a /24); split larger scans"@);
    assert(scan_error_text(ScanError::DuplicatePair { host, port })
        =~= "duplicate host/port pair "@ + crate::text::dotted_quad(host) + ":"@
        + crate::text::decimal(port as nat) + "; ScanConfig targets and ports must be unique"@);
}

} // verus!
