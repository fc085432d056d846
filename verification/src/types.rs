//! The records of the multi-will ledger layout.

use crate::address::Address;
use vstd::prelude::*;

verus! {

/// A single beneficiary entry: an address and the percentage of the will's
/// balance it is entitled to receive when the inheritance is released.
///
/// Percentages across all beneficiaries of a will sum to exactly 100.
#[derive(Clone, Copy, Debug, PartialEq, Eq, Structural)]
pub struct Beneficiary {
    pub address: Address,
    pub percentage: u32,
}

/// A privacy-preserving beneficiary entry.
///
/// Instead of a raw address the owner stores the SHA-256 hash of the address
/// bytes followed by a salt; the beneficiary claims by revealing both.
#[derive(Debug, PartialEq, Eq)]
pub struct HashedBeneficiary {
    /// SHA-256 hash of the pre-image.
    pub commitment: Vec<u8>,
    /// Percentage of the will's balance this beneficiary receives.
    pub percentage: u32,
    /// Whether this hashed beneficiary has already been claimed.
    pub claimed: bool,
}

/// A hashed beneficiary as a mathematical value.
pub struct HashedBeneficiaryView {
    pub commitment: Seq<u8>,
    pub percentage: u32,
    pub claimed: bool,
}

impl View for HashedBeneficiary {
    type V = HashedBeneficiaryView;

    open spec fn view(&self) -> HashedBeneficiaryView {
        HashedBeneficiaryView {
            commitment: self.commitment@,
            percentage: self.percentage,
            claimed: self.claimed,
        }
    }
}

impl Clone for HashedBeneficiary {
    fn clone(&self) -> (copy: Self)
        ensures
            copy@ == self@,
    {
        let commitment = self.commitment.clone();
        assert(commitment@ =~= self.commitment@);
        HashedBeneficiary { commitment, percentage: self.percentage, claimed: self.claimed }
    }
}

/// Lifecycle state of a will.
///
/// ```text
/// PendingConfirmation --(confirmed in time)--> Active
///        |
///        |--(cancelled)--> Cancelled
///
/// Active --(missed check-in)--> Triggered --(grace period expires)--> Released
///   |                               |
///   |--(cancelled)--> Cancelled     |--(emergency check-in)--> Active
/// ```
#[derive(Clone, Copy, Debug, PartialEq, Eq, Structural)]
pub enum WillStatus {
    /// The will has just been created and is waiting for the owner to confirm
    /// it. No check-in clock runs while a will is in this state.
    PendingConfirmation,
    /// The will is funded and the owner is checking in on schedule.
    Active,
    /// The owner missed a check-in deadline; the grace period is running.
    Triggered,
    /// The grace period expired (or guardians reached quorum) and funds were
    /// distributed to beneficiaries.
    Released,
    /// The owner cancelled the will and withdrew the remaining balance.
    Cancelled,
}

/// Whether a will in this state can never change again.
pub open spec fn is_terminal(status: WillStatus) -> bool {
    status == WillStatus::Released || status == WillStatus::Cancelled
}

/// The full stored state of a single will.
#[derive(Debug)]
pub struct Will {
    /// Unique, monotonically increasing identifier for this will.
    pub id: u64,
    /// The primary owner, who is refunded on cancellation.
    pub owner: Address,
    /// Additional co-owners. Where there are any, owner-privileged actions
    /// need `owner_threshold` distinct authorisations out of all owners.
    pub co_owners: Vec<Address>,
    /// Number of owner signatures that privileged operations need.
    pub owner_threshold: u32,
    /// The token contract whose units the will holds.
    pub token: Address,
    /// The amount of `token` currently locked in the will, in base units.
    pub balance: i128,
    /// The beneficiaries and their percentage shares.
    pub beneficiaries: Vec<Beneficiary>,
    /// Beneficiaries registered by commitment hash. Their percentages count
    /// towards the sum together with those of `beneficiaries`.
    pub hashed_beneficiaries: Vec<HashedBeneficiary>,
    /// How many days the owner may go without checking in before the will
    /// can be triggered.
    pub checkin_period_days: u64,
    /// How many days after being triggered the owner has to prove they are
    /// alive before inheritance can be released.
    pub grace_period_days: u64,
    /// Unix timestamp (seconds) of the owner's last check-in.
    pub last_checkin: u64,
    /// Unix timestamp (seconds) at which the will was triggered, if any.
    pub trigger_time: Option<u64>,
    /// Unix timestamp (seconds) by which the owner must confirm the will;
    /// `None` once it is confirmed or if no delay was requested.
    pub confirmation_deadline: Option<u64>,
    /// Current lifecycle state of the will.
    pub status: WillStatus,
    /// Guardians who may force an early release by vote.
    pub guardians: Vec<Address>,
    /// Number of distinct guardians who have voted in the current cycle.
    pub guardian_votes: u32,
}

/// A will as a mathematical value.
pub struct WillView {
    pub id: u64,
    pub owner: Address,
    pub co_owners: Seq<Address>,
    pub owner_threshold: u32,
    pub token: Address,
    pub balance: i128,
    pub beneficiaries: Seq<Beneficiary>,
    pub hashed_beneficiaries: Seq<HashedBeneficiaryView>,
    pub checkin_period_days: u64,
    pub grace_period_days: u64,
    pub last_checkin: u64,
    pub trigger_time: Option<u64>,
    pub confirmation_deadline: Option<u64>,
    pub status: WillStatus,
    pub guardians: Seq<Address>,
    pub guardian_votes: u32,
}

impl View for Will {
    type V = WillView;

    open spec fn view(&self) -> WillView {
        WillView {
            id: self.id,
            owner: self.owner,
            co_owners: self.co_owners@,
            owner_threshold: self.owner_threshold,
            token: self.token,
            balance: self.balance,
            beneficiaries: self.beneficiaries@,
            hashed_beneficiaries: self.hashed_beneficiaries@.map_values(
                |hashed: HashedBeneficiary| hashed@,
            ),
            checkin_period_days: self.checkin_period_days,
            grace_period_days: self.grace_period_days,
            last_checkin: self.last_checkin,
            trigger_time: self.trigger_time,
            confirmation_deadline: self.confirmation_deadline,
            status: self.status,
            guardians: self.guardians@,
            guardian_votes: self.guardian_votes,
        }
    }
}

impl Clone for Will {
    fn clone(&self) -> (copy: Self)
        ensures
            copy@ == self@,
    {
        let copy = Will {
            id: self.id,
            owner: self.owner,
            co_owners: self.co_owners.clone(),
            owner_threshold: self.owner_threshold,
            token: self.token,
            balance: self.balance,
            beneficiaries: self.beneficiaries.clone(),
            hashed_beneficiaries: self.hashed_beneficiaries.clone(),
            checkin_period_days: self.checkin_period_days,
            grace_period_days: self.grace_period_days,
            last_checkin: self.last_checkin,
            trigger_time: self.trigger_time,
            confirmation_deadline: self.confirmation_deadline,
            status: self.status,
            guardians: self.guardians.clone(),
            guardian_votes: self.guardian_votes,
        };
        assert(copy.co_owners@ =~= self.co_owners@);
        assert(copy.beneficiaries@ =~= self.beneficiaries@);
        assert(copy.guardians@ =~= self.guardians@);
        assert(copy@.hashed_beneficiaries =~= self@.hashed_beneficiaries);
        copy
    }
}

} // verus!
