//! Fleet telemetry core: the agent-collector streaming protocol and the
//! collector's state-aggregation and command-dispatch engine.
//!
//! Agents sample their host, report snapshots over a persistent channel, and
//! obey commands fanned out by the collector. This crate holds the verified
//! decision logic of both sides: configuration validation, retry discipline,
//! reporting-tick scheduling, command dispatch, windowed aggregation, payload
//! encoding, and the bridge and gateway state machines. The surrounding I/O
//! (RPC transport, timers, host sampling) lives outside and hands this crate
//! plain values.

pub mod bridge;
pub mod codec;
pub mod collector;
pub mod config;
pub mod dispatch;
pub mod gateway;
pub mod geoip;
pub mod host;
pub mod protocol;
pub mod retry;
pub mod schedule;
pub mod window;
