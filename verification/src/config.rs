//! Agent start-up configuration and its validation rules.

use vstd::prelude::*;

verus! {

/// Options the agent is started with: the collector's address, the reporting
/// intervals, and the agent's own identity.
///
/// A `host_report_interval` or `ip_report_interval` of 0 means "report once at
/// startup, never again"; the state-report interval must be nonzero.
pub struct Command {
    /// Collector host name or address.
    pub url: String,
    /// Collector port, kept textual because it is only ever spliced into an
    /// endpoint string.
    pub port: String,
    /// Seconds between host reports; 0 means once at startup only.
    pub host_report_interval: u64,
    /// Seconds between state reports; must be nonzero.
    pub state_report_interval: u64,
    /// Hours between IP reports; 0 means once at startup only.
    pub ip_report_interval: u64,
    /// This agent's identity, assigned out of band.
    pub agent_id: u64,
}

/// Why a configuration was rejected.
#[derive(Clone, Copy, PartialEq, Eq, Structural, Debug)]
pub enum ConfigError {
    EmptyUrl,
    EmptyPort,
    ZeroStateInterval,
}

impl Command {
    /// A configuration is acceptable when the collector address is complete
    /// and the state-report interval is nonzero.
    pub open spec fn spec_valid(&self) -> bool {
        &&& self.url@.len() > 0
        &&& self.port@.len() > 0
        &&& self.state_report_interval != 0
    }

    /// The error `validate` reports, checking the URL first, then the port,
    /// then the state-report interval.
    pub open spec fn spec_validate(&self) -> Result<(), ConfigError> {
        if self.url@.len() == 0 {
            Err(ConfigError::EmptyUrl)
        } else if self.port@.len() == 0 {
            Err(ConfigError::EmptyPort)
        } else if self.state_report_interval == 0 {
            Err(ConfigError::ZeroStateInterval)
        } else {
            Ok(())
        }
    }

    /// Accepts exactly the configurations the agent can run with: a nonempty
    /// URL, a nonempty port, and a nonzero state-report interval. The first
    /// failing check names the error.
    pub fn validate(&self) -> (r: Result<(), ConfigError>)
        ensures
            r == self.spec_validate(),
            r is Ok <==> self.spec_valid(),
    {
        if self.url.as_str().is_empty() {
            Err(ConfigError::EmptyUrl)
        } else if self.port.as_str().is_empty() {
            Err(ConfigError::EmptyPort)
        } else if self.state_report_interval == 0 {
            Err(ConfigError::ZeroStateInterval)
        } else {
            Ok(())
        }
    }

    /// The endpoint string the transport dials: `grpc://<url>:<port>`.
    pub fn endpoint(&self) -> (r: String)
        ensures
            r@ == "grpc://"@ + self.url@ + ":"@ + self.port@,
    {
        let mut s = String::from_str("grpc://");
        s.append(self.url.as_str());
        s.append(":");
        s.append(self.port.as_str());
        proof {
            assert(s@ =~= "grpc://"@ + self.url@ + ":"@ + self.port@);
        }
        s
    }
}

} // verus!
