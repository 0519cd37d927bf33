//! Verified core of a peer-to-peer TCP/UDP tunnel over UDP hole punching.
pub mod acknowledged;
pub mod arguments;
pub mod base64_codec;
pub mod content;
pub mod control_datagram;
pub mod delivery;
pub mod digest;
pub mod fragment_handler;
pub mod forwarding_form;
pub mod fragmentation;
pub mod handshake;
pub mod inbound_client;
pub mod ip_version;
pub mod outbound_server;
pub mod pattern;
pub mod port_exchange;
pub mod rendezvous;
pub mod settings_models;
pub mod subscription;
pub mod text;
pub mod tunnel;
