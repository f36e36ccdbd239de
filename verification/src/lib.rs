//! The fork-alert subsystem of an Aleph-BFT consensus engine: the alert handler, the reliable
//! multicast of alert hashes, the backup log and the message codec, as verified state machines
//! over plain values.
//!
//! Nothing here reads a channel, a clock or a file: each part takes what has arrived and says
//! what is to be done, and the surrounding program carries that out.

pub mod alerts;
pub mod backup;
pub mod codec;
pub mod crypto;
pub mod mock;
pub mod network;
pub mod nodes;
pub mod rmc;
pub mod spawner;
pub mod units;
pub mod value;
