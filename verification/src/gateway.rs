//! The external command gateway: translates the control channel's text
//! frames into fleet commands on the bus.
//!
//! The channel speaks two literals: `"start"` arms fleet-wide state reporting
//! and puts the gateway into relay mode (every later broadcast's payload is
//! echoed back out), `"stop"` disarms it. Anything else is ignored. When the
//! channel closes, one trailing stop command is broadcast so no agent is left
//! reporting to nobody.

use vstd::prelude::*;
use crate::protocol::{CommandKind, FleetCommand};

verus! {

/// One observation on the external control channel.
pub enum GatewayEvent {
    /// A text frame arrived.
    Frame(String),
    /// The channel closed.
    Closed,
}

/// The gateway's response to one event.
pub struct GatewayStep {
    /// The command to publish on the bus — at most one per event.
    pub broadcast: Option<FleetCommand>,
    /// Start relaying broadcast payloads back out over the channel.
    pub enter_relay: bool,
    /// The gateway is done with this channel.
    pub terminate: bool,
}

/// The payload tag a control frame translates to, if any.
pub open spec fn spec_frame_tag(frame: Seq<char>) -> Option<Seq<char>> {
    if frame == "start"@ {
        Some("report_state"@)
    } else if frame == "stop"@ {
        Some("stop_report_state"@)
    } else {
        None
    }
}

/// Translates one channel event: `"start"` broadcasts exactly one
/// `report_state` command and enters relay mode, `"stop"` broadcasts exactly
/// one `stop_report_state`, an unrecognized frame does nothing, and channel
/// closure broadcasts one trailing `stop_report_state` and terminates.
pub fn gateway_step(event: &GatewayEvent, recipients: Vec<u64>) -> (r: GatewayStep)
    ensures
        match event {
            GatewayEvent::Frame(text) => {
                &&& r.terminate == false
                &&& r.enter_relay == (text@ == "start"@)
                &&& match spec_frame_tag(text@) {
                    Some(tag) => {
                        &&& r.broadcast is Some
                        &&& r.broadcast->Some_0.kind == CommandKind::Directive
                        &&& r.broadcast->Some_0.data@ == tag
                        &&& r.broadcast->Some_0.server_ids == recipients
                    },
                    None => r.broadcast is None,
                }
            },
            GatewayEvent::Closed => {
                &&& r.terminate
                &&& !r.enter_relay
                &&& r.broadcast is Some
                &&& r.broadcast->Some_0.kind == CommandKind::Directive
                &&& r.broadcast->Some_0.data@ == "stop_report_state"@
                &&& r.broadcast->Some_0.server_ids == recipients
            },
        },
{
    match event {
        GatewayEvent::Frame(text) => {
            if *text == "start".to_owned() {
                GatewayStep {
                    broadcast: Some(
                        FleetCommand {
                            kind: CommandKind::Directive,
                            data: "report_state".to_owned(),
                            server_ids: recipients,
                        },
                    ),
                    enter_relay: true,
                    terminate: false,
                }
            } else if *text == "stop".to_owned() {
                GatewayStep {
                    broadcast: Some(
                        FleetCommand {
                            kind: CommandKind::Directive,
                            data: "stop_report_state".to_owned(),
                            server_ids: recipients,
                        },
                    ),
                    enter_relay: false,
                    terminate: false,
                }
            } else {
                GatewayStep { broadcast: None, enter_relay: false, terminate: false }
            }
        },
        GatewayEvent::Closed => {
            GatewayStep {
                broadcast: Some(
                    FleetCommand {
                        kind: CommandKind::Directive,
                        data: "stop_report_state".to_owned(),
                        server_ids: recipients,
                    },
                ),
                enter_relay: false,
                terminate: true,
            }
        },
    }
}

} // verus!
