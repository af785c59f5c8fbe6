use panda_monitor::codec::{decode_snapshots, encode_snapshots};
use panda_monitor::collector::extract_state_report;
use panda_monitor::protocol::{make_state_request, CommandKind, StateSnapshot};
use panda_monitor::window::{should_flush, AggregationWindow};

fn snapshot(cpu_usage: u64, mem_used: u64) -> StateSnapshot {
    StateSnapshot {
        cpu_usage,
        mem_used,
        swap_used: 0,
        disk_used: 0,
        net_in_transfer: 0,
        net_out_transfer: 0,
        net_in_speed: 0,
        net_out_speed: 0,
        load1: 0,
        load5: 0,
        load15: 0,
    }
}

#[test]
fn ingest_registers_each_identity_once() {
    let mut w = AggregationWindow::new();
    w.ingest(1, snapshot(100, 1));
    w.ingest(2, snapshot(200, 2));
    w.ingest(3, snapshot(300, 3));
    assert_eq!(w.identity_count(), 3);
    // re-ingestion from a known identity overwrites, not duplicates
    w.ingest(2, snapshot(999, 9));
    assert_eq!(w.identity_count(), 3);
}

#[test]
fn flush_clears_the_window_and_addresses_contributors() {
    let mut w = AggregationWindow::new();
    w.ingest(5, snapshot(100, 1));
    w.ingest(9, snapshot(200, 2));
    let cmd = w.flush();
    assert_eq!(w.identity_count(), 0);
    assert_eq!(cmd.kind, CommandKind::Aggregate);
    assert_eq!(cmd.server_ids, vec![5, 9]);
    // a second flush emits an empty window
    let cmd2 = w.flush();
    assert!(cmd2.server_ids.is_empty());
    assert_eq!(cmd2.data, "[]");
}

#[test]
fn flush_gate_skips_at_the_ceiling() {
    assert!(should_flush(0, 50));
    assert!(should_flush(49, 50));
    assert!(!should_flush(50, 50));
    assert!(!should_flush(51, 50));
}

#[test]
fn encode_of_one_snapshot_is_exact() {
    let l = vec![snapshot(1250, 1000)];
    let text = encode_snapshots(&l);
    assert_eq!(
        text,
        "[{\"cpu_usage\":1250,\"mem_used\":1000,\"swap_used\":0,\"disk_used\":0,\
         \"net_in_transfer\":0,\"net_out_transfer\":0,\"net_in_speed\":0,\
         \"net_out_speed\":0,\"load1\":0,\"load5\":0,\"load15\":0}]"
    );
}

#[test]
fn encode_decode_round_trip() {
    let l = vec![snapshot(0, u64::MAX), snapshot(1250, 1000), snapshot(42, 7)];
    let text = encode_snapshots(&l);
    let back = decode_snapshots(text.as_str()).expect("an encoded window must decode");
    assert_eq!(back, l);
}

#[test]
fn decode_of_empty_window() {
    assert_eq!(decode_snapshots("[]"), Some(vec![]));
}

#[test]
fn decode_rejects_foreign_text() {
    assert_eq!(decode_snapshots(""), None);
    assert_eq!(decode_snapshots("["), None);
    assert_eq!(decode_snapshots("[ ]"), None);
    assert_eq!(decode_snapshots("{}"), None);
    assert_eq!(decode_snapshots("[{}]"), None);
    assert_eq!(decode_snapshots("[{\"cpu_usage\":12.5}]"), None);
    // a value that does not fit in 64 bits is refused
    let l = vec![snapshot(1, 1)];
    let text = encode_snapshots(&l);
    let too_big = text.replace("\"mem_used\":1", "\"mem_used\":18446744073709551616");
    assert_eq!(decode_snapshots(too_big.as_str()), None);
}

#[test]
fn decode_rejects_noncanonical_numerals() {
    let l = vec![snapshot(7, 1)];
    let text = encode_snapshots(&l).replace("\"cpu_usage\":7", "\"cpu_usage\":007");
    assert_eq!(decode_snapshots(text.as_str()), None);
}

#[test]
fn payload_is_plain_json_for_other_readers() {
    let l = vec![snapshot(1250, 1000)];
    let text = encode_snapshots(&l);
    let v: serde_json::Value = serde_json::from_str(text.as_str()).expect("valid JSON");
    assert_eq!(v[0]["cpu_usage"], serde_json::Value::from(1250u64));
    assert_eq!(v[0]["mem_used"], serde_json::Value::from(1000u64));
    assert_eq!(v.as_array().map(|a| a.len()), Some(1));
}

#[test]
fn end_to_end_single_agent_report() {
    // agent 42 sends one state report: 12.50% CPU carried in hundredths
    let snap = snapshot(1250, 1000);
    let req = make_state_request("1.0.0".to_string(), 42, snap, 1700000000);
    let (id, state) = extract_state_report(req).expect("a complete report is accepted");
    assert_eq!(id, 42);

    let mut w = AggregationWindow::new();
    w.ingest(id, state);
    assert_eq!(w.identity_count(), 1);

    let cmd = w.flush();
    assert_eq!(cmd.server_ids, vec![42]);
    assert_eq!(cmd.kind, CommandKind::Aggregate);
    let back = decode_snapshots(cmd.data.as_str()).expect("the payload must decode");
    assert_eq!(back, vec![snap]);
    assert_eq!(w.identity_count(), 0);
}
