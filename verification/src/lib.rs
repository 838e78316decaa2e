//! Verified core of a self-hosted mesh network: frame codec, nonce and replay
//! handling, packet sealing, MagicDNS answers and agent planning logic.

pub mod agent;
pub mod backend;
pub mod bytes;
pub mod control;
pub mod crypto;
pub mod ctl;
pub mod dns;
pub mod error;
pub mod frame;
pub mod ids;
pub mod ip;
pub mod ipv6;
pub mod net;
pub mod nonce;
pub mod packet;
pub mod platform;
pub mod probe;
pub mod protocol;
pub mod relay;
pub mod resolver;
pub mod runtime;
pub mod service;
pub mod status;
pub mod text;
pub mod transport;
pub mod tun;
