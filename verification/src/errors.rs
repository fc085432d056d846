//! The reasons for which a call is refused.

use vstd::prelude::*;

verus! {

/// Errors returned by the will contract.
///
/// Each variant has a stable numeric code, [`WillError::code`], so that
/// clients can match on a number instead of parsing messages.
#[derive(Copy, Clone, Debug, PartialEq, Eq, PartialOrd, Ord, Structural)]
pub enum WillError {
    /// No will exists for the given identifier.
    WillNotFound,
    /// The caller is not the owner of the will.
    NotOwner,
    /// The requested action requires the will to be active.
    WillNotActive,
    /// The requested action requires the will to be triggered.
    WillNotTriggered,
    /// `release_inheritance` was called before the grace period elapsed.
    GracePeriodNotExpired,
    /// `emergency_checkin` was called after the grace period already elapsed.
    GracePeriodExpired,
    /// The beneficiaries' shares do not sum to exactly the whole.
    InvalidPercentages,
    /// The guardian has already voted to trigger this will.
    AlreadyVoted,
    /// The caller is not a designated guardian of this will.
    NotGuardian,
    /// `trigger_will` was called before the check-in deadline passed.
    CheckinNotDue,
    /// An amount of zero (or less) was supplied where a positive amount is required.
    ZeroAmount,
    /// Too many beneficiaries (or guardians) were supplied.
    TooManyBeneficiaries,
    /// The caller is not the owner nor the designated delegate.
    NotOwnerOrDelegate,
    /// No delegate has been set on this will.
    DelegateNotSet,
    /// The partial release amount must be positive.
    ZeroPartialRelease,
    /// None of the supplied beneficiary addresses are named in this will.
    InvalidReleaseBeneficiaries,
    /// The requested partial release exceeds the remaining balance.
    InsufficientBalance,
    /// A backup guardian cannot vote while a primary guardian is available.
    BackupGuardianUnavailable,
    /// Nothing has vested yet; the vesting duration has not elapsed.
    NothingVested,
    /// The will has no vesting schedule configured.
    VestingNotConfigured,
    /// The will is already fully released; no more claims are possible.
    FullyReleased,
    /// A single beneficiary's share is out of bounds.
    InvalidPercentage,
    /// The keeper bounty exceeds the permitted maximum.
    KeeperBountyTooHigh,
    /// The inactivity period is zero, or its end cannot be told as a time.
    InvalidPeriod,
}

/// The numeric code of an error.
pub open spec fn error_code(error: WillError) -> u32 {
    match error {
        WillError::WillNotFound => 1,
        WillError::NotOwner => 2,
        WillError::WillNotActive => 3,
        WillError::WillNotTriggered => 4,
        WillError::GracePeriodNotExpired => 5,
        WillError::GracePeriodExpired => 6,
        WillError::InvalidPercentages => 7,
        WillError::AlreadyVoted => 8,
        WillError::NotGuardian => 9,
        WillError::CheckinNotDue => 10,
        WillError::ZeroAmount => 11,
        WillError::TooManyBeneficiaries => 12,
        WillError::NotOwnerOrDelegate => 13,
        WillError::DelegateNotSet => 14,
        WillError::ZeroPartialRelease => 15,
        WillError::InvalidReleaseBeneficiaries => 16,
        WillError::InsufficientBalance => 17,
        WillError::BackupGuardianUnavailable => 18,
        WillError::NothingVested => 19,
        WillError::VestingNotConfigured => 20,
        WillError::FullyReleased => 21,
        WillError::InvalidPercentage => 22,
        WillError::KeeperBountyTooHigh => 23,
        WillError::InvalidPeriod => 24,
    }
}

impl WillError {
    /// The stable numeric code under which clients see this error.
    pub fn code(self) -> (code: u32)
        ensures
            code == error_code(self),
    {
        match self {
            WillError::WillNotFound => 1,
            WillError::NotOwner => 2,
            WillError::WillNotActive => 3,
            WillError::WillNotTriggered => 4,
            WillError::GracePeriodNotExpired => 5,
            WillError::GracePeriodExpired => 6,
            WillError::InvalidPercentages => 7,
            WillError::AlreadyVoted => 8,
            WillError::NotGuardian => 9,
            WillError::CheckinNotDue => 10,
            WillError::ZeroAmount => 11,
            WillError::TooManyBeneficiaries => 12,
            WillError::NotOwnerOrDelegate => 13,
            WillError::DelegateNotSet => 14,
            WillError::ZeroPartialRelease => 15,
            WillError::InvalidReleaseBeneficiaries => 16,
            WillError::InsufficientBalance => 17,
            WillError::BackupGuardianUnavailable => 18,
            WillError::NothingVested => 19,
            WillError::VestingNotConfigured => 20,
            WillError::FullyReleased => 21,
            WillError::InvalidPercentage => 22,
            WillError::KeeperBountyTooHigh => 23,
            WillError::InvalidPeriod => 24,
        }
    }
}

/// Two errors with the same code are the same error, and no code is zero.
pub proof fn law_error_codes_identify(a: WillError, b: WillError)
    ensures
        error_code(a) == error_code(b) <==> a == b,
        error_code(a) >= 1,
{
}

} // verus!
