use panda_monitor::bridge::{bridge_step, deadline_expired, make_ack, BridgeAction, BridgeEvent};
use panda_monitor::collector::{extract_host_report, extract_ip_update, extract_state_report};
use panda_monitor::config::{Command, ConfigError};
use panda_monitor::dispatch::{dispatch, next_reporting_flag, shutdown_plan, AgentAction};
use panda_monitor::gateway::{gateway_step, GatewayEvent};
use panda_monitor::geoip::{first_success, geo_from_parts, should_send_ip_update, GeoIp};
use panda_monitor::host::{
    aggregate_net, build_host_snapshot, build_state_snapshot, disk_sums, distinct_brands,
    is_overlay_fs, DiskSample, NetSample,
};
use panda_monitor::protocol::{
    make_command_request, make_host_request, make_update_ip_request, CommandKind, CommandRequest,
    FleetCommand, HostRequest, HostSnapshot, ProtocolError, StateRequest, UpdateIpRequest,
};

fn config(url: &str, port: &str, state_interval: u64) -> Command {
    Command {
        url: url.to_string(),
        port: port.to_string(),
        host_report_interval: 0,
        state_report_interval: state_interval,
        ip_report_interval: 0,
        agent_id: 1,
    }
}

#[test]
fn validate_accepts_a_complete_config() {
    assert_eq!(config("collector.example", "50051", 1).validate(), Ok(()));
}

#[test]
fn validate_names_the_first_failing_check() {
    assert_eq!(config("", "50051", 1).validate(), Err(ConfigError::EmptyUrl));
    assert_eq!(config("collector.example", "", 1).validate(), Err(ConfigError::EmptyPort));
    assert_eq!(
        config("collector.example", "50051", 0).validate(),
        Err(ConfigError::ZeroStateInterval)
    );
    // the URL is checked before the port and interval
    assert_eq!(config("", "", 0).validate(), Err(ConfigError::EmptyUrl));
}

#[test]
fn endpoint_splices_url_and_port() {
    assert_eq!(config("collector.example", "50051", 1).endpoint(), "grpc://collector.example:50051");
}

fn command(data: &str, ids: Vec<u64>) -> FleetCommand {
    FleetCommand { kind: CommandKind::Directive, data: data.to_string(), server_ids: ids }
}

#[test]
fn dispatch_by_payload_tag() {
    assert_eq!(dispatch(&command("stop_report_state", vec![7]), 7), AgentAction::Shutdown);
    assert_eq!(dispatch(&command("report_state", vec![7]), 7), AgentAction::StartReporting);
    assert_eq!(dispatch(&command("report_host", vec![7]), 7), AgentAction::ReportHost);
    assert_eq!(dispatch(&command("report_ip", vec![7]), 7), AgentAction::ReportIp);
    assert_eq!(dispatch(&command("reboot", vec![7]), 7), AgentAction::Unknown);
}

#[test]
fn recipient_filtering_discards_silently() {
    let cmd = command("report_state", vec![1, 2, 3]);
    let action = dispatch(&cmd, 7);
    assert_eq!(action, AgentAction::NotAddressed);
    // no observable effect on the reporting flag, armed or not
    assert_eq!(next_reporting_flag(false, action), false);
    assert_eq!(next_reporting_flag(true, action), true);
}

#[test]
fn reporting_flag_follows_commands() {
    assert_eq!(next_reporting_flag(false, AgentAction::StartReporting), true);
    assert_eq!(next_reporting_flag(true, AgentAction::Shutdown), false);
    assert_eq!(next_reporting_flag(true, AgentAction::ReportHost), true);
    assert_eq!(next_reporting_flag(false, AgentAction::Unknown), false);
}

#[test]
fn shutdown_sends_a_final_report_only_when_armed() {
    assert!(shutdown_plan(true).send_final_report);
    assert!(!shutdown_plan(false).send_final_report);
}

#[test]
fn gateway_translates_start_and_stop() {
    let step = gateway_step(&GatewayEvent::Frame("start".to_string()), vec![1, 2, 3]);
    let cmd = step.broadcast.expect("start broadcasts exactly one command");
    assert_eq!(cmd.data, "report_state");
    assert_eq!(cmd.server_ids, vec![1, 2, 3]);
    assert!(step.enter_relay);
    assert!(!step.terminate);

    let step = gateway_step(&GatewayEvent::Frame("stop".to_string()), vec![1, 2, 3]);
    let cmd = step.broadcast.expect("stop broadcasts exactly one command");
    assert_eq!(cmd.data, "stop_report_state");
    assert!(!step.enter_relay);
    assert!(!step.terminate);
}

#[test]
fn gateway_ignores_unknown_frames() {
    let step = gateway_step(&GatewayEvent::Frame("status".to_string()), vec![1, 2, 3]);
    assert!(step.broadcast.is_none());
    assert!(!step.enter_relay);
    assert!(!step.terminate);
}

#[test]
fn gateway_closure_emits_one_trailing_stop() {
    let step = gateway_step(&GatewayEvent::Closed, vec![1, 2, 3]);
    let cmd = step.broadcast.expect("closure broadcasts the trailing stop");
    assert_eq!(cmd.data, "stop_report_state");
    assert_eq!(cmd.server_ids, vec![1, 2, 3]);
    assert!(step.terminate);
}

#[test]
fn bridge_forwards_bus_commands_verbatim() {
    let cmd = command("report_state", vec![4]);
    match bridge_step(BridgeEvent::Broadcast(cmd.clone())) {
        BridgeAction::Forward(f) => assert_eq!(f, cmd),
        BridgeAction::Terminate => panic!("bus commands are forwarded"),
    }
}

#[test]
fn bridge_acknowledges_the_identified_agent() {
    let req = make_command_request("1.0.0".to_string(), 42);
    let ack = make_ack(&req).expect("an identified agent is acknowledged");
    assert_eq!(ack.data, "ok");
    assert_eq!(ack.server_ids, vec![42]);
    assert_eq!(ack.kind, CommandKind::Directive);
}

#[test]
fn bridge_rejects_an_anonymous_agent() {
    let req = CommandRequest { agent_info: None };
    assert_eq!(make_ack(&req), Err(ProtocolError::MissingAgentInfo));
    match bridge_step(BridgeEvent::AgentMessage(req)) {
        BridgeAction::Terminate => {},
        BridgeAction::Forward(_) => panic!("a message without agent info ends the bridge"),
    }
}

#[test]
fn bridge_terminates_on_timeout_and_errors() {
    assert!(matches!(bridge_step(BridgeEvent::TimedOut), BridgeAction::Terminate));
    assert!(matches!(bridge_step(BridgeEvent::AgentStreamError), BridgeAction::Terminate));
    assert!(matches!(bridge_step(BridgeEvent::SourcesClosed), BridgeAction::Terminate));
}

#[test]
fn deadline_fires_after_the_timeout() {
    assert!(!deadline_expired(29_999, 0, 30_000));
    assert!(deadline_expired(30_000, 0, 30_000));
    assert!(deadline_expired(31_000, 500, 30_000));
    // a clock reading before the start has not expired
    assert!(!deadline_expired(100, 500, 30_000));
}

#[test]
fn state_report_requires_state_then_agent_info() {
    let req = StateRequest { state: None, agent_info: None, upload_time: 0 };
    assert_eq!(extract_state_report(req), Err(ProtocolError::MissingState));
    let snap = panda_monitor::protocol::StateSnapshot {
        cpu_usage: 1,
        mem_used: 2,
        swap_used: 3,
        disk_used: 4,
        net_in_transfer: 5,
        net_out_transfer: 6,
        net_in_speed: 7,
        net_out_speed: 8,
        load1: 9,
        load5: 10,
        load15: 11,
    };
    let req = StateRequest { state: Some(snap), agent_info: None, upload_time: 0 };
    assert_eq!(extract_state_report(req), Err(ProtocolError::MissingAgentInfo));
}

#[test]
fn host_report_requires_the_host() {
    let req = HostRequest { host: None, agent_info: None, upload_time: 0 };
    assert_eq!(extract_host_report(req), Err(ProtocolError::MissingHost));
    let host = empty_host();
    let req = make_host_request("1.0.0".to_string(), 8, host.clone(), 123);
    assert_eq!(extract_host_report(req), Ok(host));
}

fn empty_host() -> HostSnapshot {
    HostSnapshot {
        os_name: "linux".to_string(),
        distribution_id: "debian".to_string(),
        os_version: "12".to_string(),
        cpu: vec![],
        cpu_cores: 0,
        kernel_version: "6.1".to_string(),
        mem_total: 0,
        disk_total: 0,
        swap_total: 0,
        arch: "x86_64".to_string(),
        boot_time: 0,
        ipv4: String::new(),
        ipv6: String::new(),
    }
}

#[test]
fn ip_update_requires_agent_info() {
    let req = UpdateIpRequest {
        ipv4: "198.51.100.7".to_string(),
        ipv6: String::new(),
        agent_info: None,
        upload_time: 0,
    };
    assert_eq!(extract_ip_update(req), Err(ProtocolError::MissingAgentInfo));
    let req = make_update_ip_request(
        "1.0.0".to_string(),
        8,
        "198.51.100.7".to_string(),
        String::new(),
        123,
    );
    assert_eq!(extract_ip_update(req), Ok((8, "198.51.100.7".to_string())));
}

#[test]
fn geoip_lookup_fails_only_when_both_addresses_are_empty() {
    assert_eq!(geo_from_parts(String::new(), String::new()), None);
    let got = geo_from_parts("198.51.100.7".to_string(), String::new());
    assert_eq!(got.map(|g| g.ipv4), Some("198.51.100.7".to_string()));
}

#[test]
fn first_successful_provider_wins() {
    let a = GeoIp { ipv4: "198.51.100.7".to_string(), ipv6: String::new() };
    let b = GeoIp { ipv4: "203.0.113.9".to_string(), ipv6: String::new() };
    let winner = first_success(vec![None, Some(a.clone()), Some(b)]);
    assert_eq!(winner, a);
    let loser = first_success(vec![None, None]);
    assert_eq!(loser.ipv4, "");
    assert_eq!(loser.ipv6, "");
}

#[test]
fn empty_addresses_are_not_sent() {
    assert!(!should_send_ip_update(&GeoIp { ipv4: String::new(), ipv6: String::new() }));
    assert!(should_send_ip_update(&GeoIp { ipv4: "198.51.100.7".to_string(), ipv6: String::new() }));
}

#[test]
fn overlay_filesystems_are_recognized_in_any_case() {
    assert!(is_overlay_fs("overlay"));
    assert!(is_overlay_fs("OVERLAY"));
    assert!(is_overlay_fs("Overlay"));
    assert!(!is_overlay_fs("ext4"));
    assert!(!is_overlay_fs("overlayfs"));
}

fn disk(fs: &str, total: u64, available: u64) -> DiskSample {
    DiskSample { file_system: fs.to_string(), total_space: total, available_space: available }
}

#[test]
fn disk_sums_skip_overlay_mounts() {
    let disks = vec![disk("ext4", 1000, 400), disk("overlay", 5000, 100), disk("xfs", 200, 200)];
    let (total, used) = disk_sums(&disks);
    assert_eq!(total, 1200);
    assert_eq!(used, 600);
}

#[test]
fn net_totals_sum_every_interface() {
    let nets = vec![
        NetSample { total_received: 10, total_transmitted: 20, received: 1, transmitted: 2 },
        NetSample { total_received: 30, total_transmitted: 40, received: 3, transmitted: 4 },
    ];
    let t = aggregate_net(&nets);
    assert_eq!(t.in_transfer, 40);
    assert_eq!(t.out_transfer, 60);
    assert_eq!(t.in_speed, 4);
    assert_eq!(t.out_speed, 6);
}

#[test]
fn cpu_brands_are_deduplicated_keeping_order() {
    let brands = vec![
        "EPYC 7513".to_string(),
        "EPYC 7513".to_string(),
        "Xeon E5".to_string(),
        "EPYC 7513".to_string(),
    ];
    assert_eq!(distinct_brands(&brands), vec!["EPYC 7513".to_string(), "Xeon E5".to_string()]);
}

#[test]
fn snapshots_are_assembled_from_samples() {
    let disks = vec![disk("ext4", 1000, 400)];
    let nets = vec![NetSample {
        total_received: 10,
        total_transmitted: 20,
        received: 1,
        transmitted: 2,
    }];
    let snap = build_state_snapshot(1250, 1000, 50, &disks, &nets, 100, 200, 300);
    assert_eq!(snap.cpu_usage, 1250);
    assert_eq!(snap.disk_used, 600);
    assert_eq!(snap.net_in_transfer, 10);
    assert_eq!(snap.net_out_speed, 2);
    assert_eq!(snap.load15, 300);

    let geo = GeoIp { ipv4: "198.51.100.7".to_string(), ipv6: String::new() };
    let host = build_host_snapshot(
        "linux".to_string(),
        "debian".to_string(),
        "12".to_string(),
        vec!["EPYC 7513".to_string(), "EPYC 7513".to_string()],
        "6.1".to_string(),
        64,
        8,
        "x86_64".to_string(),
        1700000000,
        &disks,
        geo,
    );
    assert_eq!(host.cpu_cores, 2);
    assert_eq!(host.cpu, vec!["EPYC 7513".to_string()]);
    assert_eq!(host.disk_total, 1000);
    assert_eq!(host.ipv4, "198.51.100.7");
}
