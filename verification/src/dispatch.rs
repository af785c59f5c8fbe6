//! The agent's handling of one inbound command: recipient filtering first,
//! then dispatch by payload tag.

use vstd::prelude::*;
use crate::protocol::FleetCommand;

verus! {

/// What the agent does with one inbound command.
#[derive(Clone, Copy, PartialEq, Eq, Structural, Debug)]
pub enum AgentAction {
    /// `stop_report_state`: stop reporting gracefully.
    Shutdown,
    /// `report_state`: arm the flag and enter the periodic reporting loop.
    StartReporting,
    /// `report_host`: refresh the samplers and send one host report now.
    ReportHost,
    /// `report_ip`: send one IP-only update now.
    ReportIp,
    /// A tag nobody recognizes: log it and carry on.
    Unknown,
    /// The recipient set does not name this agent: ignore silently.
    NotAddressed,
}

/// The action an agent with identity `my_id` takes on a command with payload
/// tag `data` and recipient set `server_ids`.
pub open spec fn spec_dispatch(data: Seq<char>, server_ids: Seq<u64>, my_id: u64) -> AgentAction {
    if !server_ids.contains(my_id) {
        AgentAction::NotAddressed
    } else if data == "stop_report_state"@ {
        AgentAction::Shutdown
    } else if data == "report_state"@ {
        AgentAction::StartReporting
    } else if data == "report_host"@ {
        AgentAction::ReportHost
    } else if data == "report_ip"@ {
        AgentAction::ReportIp
    } else {
        AgentAction::Unknown
    }
}

/// The reporting flag after an action: armed by `report_state`, cleared by
/// `stop_report_state`, untouched by everything else.
pub open spec fn spec_next_flag(report_state: bool, action: AgentAction) -> bool {
    match action {
        AgentAction::StartReporting => true,
        AgentAction::Shutdown => false,
        _ => report_state,
    }
}

/// Whether handling the action sends at least one report immediately: the
/// one-shot host and IP reports do, entering the reporting loop does, and a
/// shutdown sends one final state report when the agent was reporting.
pub open spec fn spec_reports_now(report_state: bool, action: AgentAction) -> bool {
    match action {
        AgentAction::StartReporting => true,
        AgentAction::ReportHost => true,
        AgentAction::ReportIp => true,
        AgentAction::Shutdown => report_state,
        _ => false,
    }
}

/// Decides what to do with one inbound command: a command that does not name
/// this agent in its recipient set is discarded, anything else dispatches on
/// its payload tag.
pub fn dispatch(cmd: &FleetCommand, my_id: u64) -> (r: AgentAction)
    ensures
        r == spec_dispatch(cmd.data@, cmd.server_ids@, my_id),
{
    if !crate::protocol::is_recipient(&cmd.server_ids, my_id) {
        AgentAction::NotAddressed
    } else if cmd.data == "stop_report_state".to_owned() {
        AgentAction::Shutdown
    } else if cmd.data == "report_state".to_owned() {
        AgentAction::StartReporting
    } else if cmd.data == "report_host".to_owned() {
        AgentAction::ReportHost
    } else if cmd.data == "report_ip".to_owned() {
        AgentAction::ReportIp
    } else {
        AgentAction::Unknown
    }
}

/// Applies an action to the reporting flag.
pub fn next_reporting_flag(report_state: bool, action: AgentAction) -> (r: bool)
    ensures
        r == spec_next_flag(report_state, action),
{
    match action {
        AgentAction::StartReporting => true,
        AgentAction::Shutdown => false,
        _ => report_state,
    }
}

/// The graceful shutdown sequence: the flag is cleared, and one final state
/// report goes out exactly when the agent had been reporting.
pub struct ShutdownPlan {
    pub send_final_report: bool,
}

/// Decides the shutdown steps from the current reporting flag.
pub fn shutdown_plan(report_state: bool) -> (r: ShutdownPlan)
    ensures
        r.send_final_report == report_state,
{
    ShutdownPlan { send_final_report: report_state }
}

/// Law: a command whose recipient set does not name this agent produces no
/// observable action — the reporting flag keeps its value and no report is
/// sent.
pub proof fn lemma_recipient_filtering(
    data: Seq<char>,
    server_ids: Seq<u64>,
    my_id: u64,
    report_state: bool,
)
    requires
        !server_ids.contains(my_id),
    ensures
        spec_dispatch(data, server_ids, my_id) == AgentAction::NotAddressed,
        spec_next_flag(report_state, spec_dispatch(data, server_ids, my_id)) == report_state,
        !spec_reports_now(report_state, spec_dispatch(data, server_ids, my_id)),
{
}

} // verus!
