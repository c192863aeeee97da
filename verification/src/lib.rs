//! Core of a Bluetooth Mesh node stack: the layered PDU pipeline from
//! network frames through lower- and upper-transport to access-message
//! dispatch, with replay protection, sequence allocation, provisioning,
//! and transmit queueing, all under machine-checked contracts.

pub mod error;
pub mod common;
pub mod crypto;
pub mod address;
pub mod mic;
pub mod opcode;
pub mod sequence;
pub mod replay;
pub mod lower;
pub mod device;
pub mod secrets;
pub mod upper;
pub mod queue;
pub mod provisioning;
pub mod network;
pub mod stack;

