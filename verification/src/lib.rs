//! Userspace WireGuard cage: the verified core of a client that runs a
//! command inside a private network namespace bridged to a remote peer, and
//! of a multi-peer server that terminates such tunnels.
//!
//! This crate holds the logic: key decoding, CIDR ownership, packet
//! inspection, the bridge queue, the tunnel engine facade, the server peer
//! table and dispatcher, and the netfilter rule planner. Process, socket,
//! TUN and namespace plumbing live outside, in the binaries built on top.

pub mod args;
pub mod cidr;
pub mod client;
pub mod engine;
pub mod firewall;
pub mod ip;
pub mod keys;
pub mod launcher;
pub mod overlay;
pub mod peers;
pub mod queue;
pub mod text;
