//! The collector's view of one inbound request: each handler first checks
//! that the required sub-messages are present, rejecting a single bad item as
//! an invalid argument without tearing the stream down.

use vstd::prelude::*;
use crate::protocol::{HostRequest, HostSnapshot, ProtocolError, StateRequest, StateSnapshot,
    UpdateIpRequest};

verus! {

/// Takes the identity and snapshot out of one state report: the state is
/// required first, then the agent info.
pub fn extract_state_report(req: StateRequest) -> (r: Result<(u64, StateSnapshot), ProtocolError>)
    ensures
        r == match (req.state, req.agent_info) {
            (Option::None, _) => Err::<(u64, StateSnapshot), ProtocolError>(
                ProtocolError::MissingState,
            ),
            (Option::Some(_), Option::None) => Err::<(u64, StateSnapshot), ProtocolError>(
                ProtocolError::MissingAgentInfo,
            ),
            (Option::Some(state), Option::Some(info)) => Ok::<(u64, StateSnapshot), ProtocolError>(
                (info.server_id, state),
            ),
        },
{
    match req.state {
        None => Err(ProtocolError::MissingState),
        Some(state) => match req.agent_info {
            None => Err(ProtocolError::MissingAgentInfo),
            Some(info) => Ok((info.server_id, state)),
        },
    }
}

/// Takes the host descriptor out of one host report; only the host itself is
/// required.
pub fn extract_host_report(req: HostRequest) -> (r: Result<HostSnapshot, ProtocolError>)
    ensures
        (r is Ok) == (req.host is Some),
        req.host is Some ==> r == Ok::<HostSnapshot, ProtocolError>(req.host->Some_0),
        req.host is None ==> r == Err::<HostSnapshot, ProtocolError>(ProtocolError::MissingHost),
{
    match req.host {
        None => Err(ProtocolError::MissingHost),
        Some(host) => Ok(host),
    }
}

/// Takes the identity and the reported IPv4 address out of one IP update; the
/// agent info is required.
pub fn extract_ip_update(req: UpdateIpRequest) -> (r: Result<(u64, String), ProtocolError>)
    ensures
        (r is Ok) == (req.agent_info is Some),
        req.agent_info is Some ==> r is Ok && r->Ok_0.0 == req.agent_info->Some_0.server_id
            && r->Ok_0.1 == req.ipv4,
        req.agent_info is None ==> r == Err::<(u64, String), ProtocolError>(
            ProtocolError::MissingAgentInfo,
        ),
{
    match req.agent_info {
        None => Err(ProtocolError::MissingAgentInfo),
        Some(info) => Ok((info.server_id, req.ipv4)),
    }
}

} // verus!
