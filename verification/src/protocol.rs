//! The messages the agent and the collector exchange, and the builders the
//! agent uses to assemble them.
//!
//! The shapes mirror the wire schema: every request carries an optional
//! `AgentInfo`, and the collector rejects a request whose required
//! sub-message is missing rather than tearing the stream down.

use vstd::prelude::*;

verus! {

/// Who is reporting: the agent's build version and its out-of-band identity.
#[derive(Clone, PartialEq, Eq, Debug)]
pub struct AgentInfo {
    pub agent_version: String,
    pub server_id: u64,
}

/// Dynamic metrics sampled once per reporting tick.
///
/// Ratios are carried as scaled integers: `cpu_usage` in hundredths of a
/// percent, the load averages in thousandths. Transfer counters are
/// cumulative bytes, speeds are bytes per refresh interval.
#[derive(Clone, Copy, PartialEq, Eq, Structural, Debug)]
pub struct StateSnapshot {
    /// CPU usage in hundredths of a percent (1250 is 12.50%).
    pub cpu_usage: u64,
    pub mem_used: u64,
    pub swap_used: u64,
    pub disk_used: u64,
    pub net_in_transfer: u64,
    pub net_out_transfer: u64,
    pub net_in_speed: u64,
    pub net_out_speed: u64,
    /// One-minute load average in thousandths (1500 is 1.5).
    pub load1: u64,
    pub load5: u64,
    pub load15: u64,
}

/// Static-ish host descriptor, produced at startup or on explicit command and
/// replaced whole, never mutated.
#[derive(Clone, PartialEq, Eq, Debug)]
pub struct HostSnapshot {
    pub os_name: String,
    pub distribution_id: String,
    pub os_version: String,
    /// Distinct CPU model names.
    pub cpu: Vec<String>,
    pub cpu_cores: u64,
    pub kernel_version: String,
    pub mem_total: u64,
    pub disk_total: u64,
    pub swap_total: u64,
    pub arch: String,
    pub boot_time: u64,
    pub ipv4: String,
    pub ipv6: String,
}

/// The one message an agent sends when it opens its command stream: its
/// identity and version.
#[derive(Clone, PartialEq, Eq, Debug)]
pub struct CommandRequest {
    pub agent_info: Option<AgentInfo>,
}

/// One state report.
#[derive(Clone, PartialEq, Eq, Debug)]
pub struct StateRequest {
    pub state: Option<StateSnapshot>,
    pub agent_info: Option<AgentInfo>,
    /// Epoch seconds at send time.
    pub upload_time: u64,
}

/// One host report.
#[derive(Clone, PartialEq, Eq, Debug)]
pub struct HostRequest {
    pub host: Option<HostSnapshot>,
    pub agent_info: Option<AgentInfo>,
    pub upload_time: u64,
}

/// One IP-only update.
#[derive(Clone, PartialEq, Eq, Debug)]
pub struct UpdateIpRequest {
    pub ipv4: String,
    pub ipv6: String,
    pub agent_info: Option<AgentInfo>,
    pub upload_time: u64,
}

/// The collector's answer to a report.
#[derive(Clone, Copy, PartialEq, Eq, Structural, Debug)]
pub struct ServerResponse {
    pub success: bool,
}

/// What a command carries: a directive or acknowledgement named by its
/// payload tag, or an aggregated-state payload.
#[derive(Clone, Copy, PartialEq, Eq, Structural, Debug)]
pub enum CommandKind {
    /// A directive to the recipients, or an acknowledgement back to an agent;
    /// `data` is the payload tag.
    Directive,
    /// A flushed aggregation window; `data` is the encoded snapshot list.
    Aggregate,
}

/// A fire-and-forget instruction addressed to a set of agent identities.
/// Delivery is broadcast: an agent not listening at send time misses it.
#[derive(Clone, PartialEq, Eq, Debug)]
pub struct FleetCommand {
    pub kind: CommandKind,
    /// Payload tag, or the encoded window for [`CommandKind::Aggregate`].
    pub data: String,
    /// The identities this command is addressed to.
    pub server_ids: Vec<u64>,
}

/// A request arrived without a required sub-message; the collector answers
/// with an invalid-argument failure for that one item.
#[derive(Clone, Copy, PartialEq, Eq, Structural, Debug)]
pub enum ProtocolError {
    MissingAgentInfo,
    MissingState,
    MissingHost,
}

/// Whether `id` is among a command's recipients.
pub fn is_recipient(server_ids: &Vec<u64>, id: u64) -> (r: bool)
    ensures
        r == server_ids@.contains(id),
{
    let mut k: usize = 0;
    while k < server_ids.len()
        invariant
            0 <= k <= server_ids.len(),
            forall|j: int| 0 <= j < k ==> server_ids@[j] != id,
        decreases server_ids.len() - k,
    {
        if server_ids[k] == id {
            return true;
        }
        k = k + 1;
    }
    false
}

/// The identification message opening the agent's command stream.
pub fn make_command_request(agent_version: String, server_id: u64) -> (r: CommandRequest)
    ensures
        r.agent_info == (Some(AgentInfo { agent_version, server_id })),
{
    CommandRequest { agent_info: Some(AgentInfo { agent_version, server_id }) }
}

/// One state report, stamped with the caller-supplied send time.
pub fn make_state_request(
    agent_version: String,
    server_id: u64,
    state: StateSnapshot,
    upload_time: u64,
) -> (r: StateRequest)
    ensures
        r.agent_info == (Some(AgentInfo { agent_version, server_id })),
        r.state == Some(state),
        r.upload_time == upload_time,
{
    StateRequest {
        state: Some(state),
        agent_info: Some(AgentInfo { agent_version, server_id }),
        upload_time,
    }
}

/// One host report.
pub fn make_host_request(
    agent_version: String,
    server_id: u64,
    host: HostSnapshot,
    upload_time: u64,
) -> (r: HostRequest)
    ensures
        r.agent_info == (Some(AgentInfo { agent_version, server_id })),
        r.host == Some(host),
        r.upload_time == upload_time,
{
    HostRequest {
        host: Some(host),
        agent_info: Some(AgentInfo { agent_version, server_id }),
        upload_time,
    }
}

/// One IP-only update carrying the resolved addresses.
pub fn make_update_ip_request(
    agent_version: String,
    server_id: u64,
    ipv4: String,
    ipv6: String,
    upload_time: u64,
) -> (r: UpdateIpRequest)
    ensures
        r.agent_info == (Some(AgentInfo { agent_version, server_id })),
        r.ipv4 == ipv4,
        r.ipv6 == ipv6,
        r.upload_time == upload_time,
{
    UpdateIpRequest {
        ipv4,
        ipv6,
        agent_info: Some(AgentInfo { agent_version, server_id }),
        upload_time,
    }
}

} // verus!
