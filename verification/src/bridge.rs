//! The per-connection stream bridge on the collector: one task per open agent
//! command stream, multiplexing the command bus, the agent's own messages,
//! and a hard deadline into the agent's outbound stream.
//!
//! Termination is final for a bridge: there is no retry inside it. A new
//! bridge is created when the agent reconnects.

use vstd::prelude::*;
use crate::protocol::{CommandKind, CommandRequest, FleetCommand, ProtocolError};

verus! {

/// One event the bridge's select loop can observe.
pub enum BridgeEvent {
    /// A command arrived on the bus subscription.
    Broadcast(FleetCommand),
    /// The agent sent a message on its command stream.
    AgentMessage(CommandRequest),
    /// The agent's stream yielded a transport error.
    AgentStreamError,
    /// The hard per-connection deadline passed.
    TimedOut,
    /// Every source is exhausted.
    SourcesClosed,
}

/// What the bridge does next.
pub enum BridgeAction {
    /// Forward this command down the agent's outbound stream; a send failure
    /// terminates the bridge.
    Forward(FleetCommand),
    /// Close the outbound stream and end the bridge.
    Terminate,
}

/// The acknowledgement sent back when the agent identifies itself: an `"ok"`
/// directive addressed to exactly the sender. A message without agent info is
/// rejected, which terminates the bridge.
pub fn make_ack(req: &CommandRequest) -> (r: Result<FleetCommand, ProtocolError>)
    ensures
        match req.agent_info {
            Some(info) => {
                &&& r is Ok
                &&& r->Ok_0.kind == CommandKind::Directive
                &&& r->Ok_0.data@ == "ok"@
                &&& r->Ok_0.server_ids@ == seq![info.server_id]
            },
            None => r == Err::<FleetCommand, ProtocolError>(ProtocolError::MissingAgentInfo),
        },
{
    match &req.agent_info {
        Some(info) => {
            let mut ids: Vec<u64> = Vec::new();
            ids.push(info.server_id);
            proof {
                assert(ids@ =~= seq![info.server_id]);
            }
            Ok(
                FleetCommand {
                    kind: CommandKind::Directive,
                    data: "ok".to_owned(),
                    server_ids: ids,
                },
            )
        },
        None => Err(ProtocolError::MissingAgentInfo),
    }
}

/// Decides the bridge's next step: bus commands are forwarded verbatim, an
/// agent message is answered with its acknowledgement, and a malformed
/// message, a stream error, the deadline, or source exhaustion all terminate
/// the bridge.
pub fn bridge_step(event: BridgeEvent) -> (r: BridgeAction)
    ensures
        match event {
            BridgeEvent::Broadcast(cmd) => r == BridgeAction::Forward(cmd),
            BridgeEvent::AgentMessage(req) => match req.agent_info {
                Some(info) => {
                    &&& r is Forward
                    &&& r->Forward_0.kind == CommandKind::Directive
                    &&& r->Forward_0.data@ == "ok"@
                    &&& r->Forward_0.server_ids@ == seq![info.server_id]
                },
                None => r == BridgeAction::Terminate,
            },
            _ => r == BridgeAction::Terminate,
        },
{
    match event {
        BridgeEvent::Broadcast(cmd) => BridgeAction::Forward(cmd),
        BridgeEvent::AgentMessage(req) => {
            match make_ack(&req) {
                Ok(ack) => BridgeAction::Forward(ack),
                Err(_) => BridgeAction::Terminate,
            }
        },
        BridgeEvent::AgentStreamError => BridgeAction::Terminate,
        BridgeEvent::TimedOut => BridgeAction::Terminate,
        BridgeEvent::SourcesClosed => BridgeAction::Terminate,
    }
}

/// Whether the bridge's hard deadline has passed: `timeout` has elapsed since
/// `start`. A clock that reads earlier than `start` has not expired.
pub fn deadline_expired(now_ms: u64, start_ms: u64, timeout_ms: u64) -> (r: bool)
    ensures
        r == (now_ms >= start_ms && now_ms - start_ms >= timeout_ms),
{
    now_ms >= start_ms && now_ms - start_ms >= timeout_ms
}

} // verus!
