use vstd::prelude::*;

verus! {

/// The address of the host to scan, held as plain integers.
#[derive(Clone, Copy, PartialEq, Eq, Structural)]
pub enum Target {
    /// An IPv4 address, most significant octet first.
    V4(u32),
    /// An IPv6 address, most significant segment first.
    V6(u128),
}

/// Why a scan was refused before any probe.
#[derive(Clone, Copy, Debug, PartialEq, Eq, Structural)]
pub enum ConfigError {
    /// The target does not read as an IPv4 or IPv6 address.
    InvalidTarget,
    /// The worker count is zero.
    ZeroThreads,
    /// The per-probe timeout is zero.
    ZeroTimeout,
}

/// What a scan is asked to do.
#[derive(Clone, Copy)]
pub struct ScanConfig {
    pub ipaddr: Target,
    /// How many probes may be in flight at once.
    pub threads: u16,
    /// How long one probe may take, in milliseconds.
    pub timeout: u64,
    /// A pause before each dispatch, in milliseconds.
    pub delay: u64,
    /// Probe the ports in a shuffled order rather than ascending.
    pub randomize: bool,
}

/// The error a configuration is refused with, if any; the worker count is
/// checked first.
pub open spec fn config_error(c: ScanConfig) -> Option<ConfigError> {
    if c.threads == 0 {
        Some(ConfigError::ZeroThreads)
    } else if c.timeout == 0 {
        Some(ConfigError::ZeroTimeout)
    } else {
        None
    }
}

impl ScanConfig {
    /// Checks that the configuration allows a scan to start.
    pub fn validate(&self) -> (r: Result<(), ConfigError>)
        ensures
            match config_error(*self) {
                Some(e) => r == Err::<(), ConfigError>(e),
                None => r is Ok,
            },
    {
        if self.threads == 0 {
            Err(ConfigError::ZeroThreads)
        } else if self.timeout == 0 {
            Err(ConfigError::ZeroTimeout)
        } else {
            Ok(())
        }
    }
}

} // verus!
