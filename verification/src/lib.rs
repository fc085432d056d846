//! Verified core of an inheritance contract ("dead man's switch").
//!
//! An owner names beneficiaries, checks in from time to time, and once the
//! check-ins stop anybody may trigger the will and, after a delay, have its
//! funds released. The modules hold the rules; reading and writing ledger
//! entries, moving tokens and publishing events is left to the host binding.

pub mod address;
pub mod contract;
pub mod contract_laws;
pub mod entry_laws;
pub mod errors;
pub mod events;
pub mod ids;
pub mod payout_laws;
pub mod step_laws;
pub mod storage;
pub mod storage_laws;
pub mod types;
pub mod wills;
pub mod wills_laws;

pub use address::Address;
pub use contract::{
    Beneficiary, InheritanceReleasedEvent, Instance, Invocation, Release, Transfer,
    Trigger, Will, WillContract, WillTriggeredEvent, MAX_KEEPER_BOUNTY_BPS,
};
pub use errors::WillError;
