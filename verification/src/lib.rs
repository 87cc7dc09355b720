//! A DNS sinkhole's packet-decision pipeline: bounded header parsing, the
//! question-name decoder, the blocklist lookup and the decision logic for
//! outgoing queries and incoming responses, with machine-checked contracts.

pub mod action;
pub mod blocklist;
pub mod checksum;
pub mod consts;
pub mod dns;
pub mod net;
pub mod packet;
pub mod tc;
pub mod wire;
pub mod xdp;
