use will::WillError;

#[test]
fn error_codes_are_stable() {
    let all = [
        WillError::WillNotFound,
        WillError::NotOwner,
        WillError::WillNotActive,
        WillError::WillNotTriggered,
        WillError::GracePeriodNotExpired,
        WillError::GracePeriodExpired,
        WillError::InvalidPercentages,
        WillError::AlreadyVoted,
        WillError::NotGuardian,
        WillError::CheckinNotDue,
        WillError::ZeroAmount,
        WillError::TooManyBeneficiaries,
        WillError::NotOwnerOrDelegate,
        WillError::DelegateNotSet,
        WillError::ZeroPartialRelease,
        WillError::InvalidReleaseBeneficiaries,
        WillError::InsufficientBalance,
        WillError::BackupGuardianUnavailable,
        WillError::NothingVested,
        WillError::VestingNotConfigured,
        WillError::FullyReleased,
        WillError::InvalidPercentage,
        WillError::KeeperBountyTooHigh,
        WillError::InvalidPeriod,
    ];
    for (i, error) in all.iter().enumerate() {
        assert_eq!(error.code(), i as u32 + 1);
    }
    assert!(WillError::WillNotFound < WillError::FullyReleased);
}
