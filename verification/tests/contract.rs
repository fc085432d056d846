use will::events::{Event, EventData, EventName, Field, Subject};
use will::types::WillStatus;
use will::{
    Address, Beneficiary, Instance, Invocation, Transfer, WillContract, WillError,
};

fn account(n: u128) -> Address {
    Address::Account { high: 0, low: n }
}

fn contract() -> Address {
    Address::Contract { high: 0, low: 1 }
}

fn token() -> Address {
    Address::Contract { high: 0, low: 2 }
}

fn at(timestamp: u64, signers: &[Address]) -> Invocation {
    Invocation { timestamp, contract_address: contract(), signers: signers.to_vec() }
}

fn heir(n: u128, share_bps: u32) -> Beneficiary {
    Beneficiary { address: account(n), share_bps }
}

/// What `who` holds after the transfers, out of nothing.
fn received(transfers: &[Transfer], who: Address) -> i128 {
    transfers.iter().filter(|t| t.to == who).map(|t| t.amount).sum()
}

/// What the contract has left of `balance` after the transfers.
fn left(transfers: &[Transfer], balance: i128) -> i128 {
    balance - transfers.iter().map(|t| t.amount).sum::<i128>()
}

fn with_will(beneficiaries: Vec<Beneficiary>, bounty: u32) -> Instance {
    let mut instance = Instance { will: None };
    let owner = account(1);
    WillContract::create_will(&mut instance, &at(0, &[owner]), owner, beneficiaries, 100, bounty)
        .unwrap();
    instance
}

#[test]
fn test_keeper_bounty_on_trigger() {
    let keeper = account(3);
    let mut instance = with_will(vec![heir(2, 10000)], 50);

    let trigger = WillContract::trigger_will(
        &mut instance,
        &at(200, &[]),
        token(),
        10000,
        Some(keeper),
    )
    .unwrap();

    let transfers: Vec<Transfer> = trigger.bounty.into_iter().collect();
    assert_eq!(received(&transfers, keeper), 50);
    assert_eq!(left(&transfers, 10000), 9950);
    assert_eq!(trigger.event.keeper_bounty_paid, 50);
}

#[test]
fn test_keeper_bounty_on_release() {
    let keeper = account(3);
    let mut instance = with_will(vec![heir(2, 10000)], 100);

    let trigger =
        WillContract::trigger_will(&mut instance, &at(200, &[]), token(), 10000, None).unwrap();
    assert_eq!(trigger.bounty, None);
    assert_eq!(trigger.event.keeper_bounty_paid, 0);

    let release = WillContract::release_inheritance(
        &mut instance,
        &at(200 + 604800, &[]),
        token(),
        10000,
        Some(keeper),
    )
    .unwrap();

    assert_eq!(received(&release.transfers, keeper), 100);
    assert_eq!(received(&release.transfers, account(2)), 9900);
    assert_eq!(release.event.keeper_bounty_paid, 100);
}

#[test]
fn test_create_will_rejects_percentage_overflow() {
    let owner = account(1);
    let mut instance = Instance { will: None };
    let result = WillContract::create_will(
        &mut instance,
        &at(0, &[owner]),
        owner,
        vec![heir(2, 4294967196), heir(3, 200)],
        100,
        50,
    );
    assert!(result.is_err(), "create_will should reject overflowing percentages");
    assert_eq!(result, Err(WillError::InvalidPercentage));
    assert!(instance.will.is_none());
}

#[test]
fn test_create_will_rejects_zero_percentage() {
    let owner = account(1);
    let mut instance = Instance { will: None };
    let result =
        WillContract::create_will(&mut instance, &at(0, &[owner]), owner, vec![heir(2, 0)], 100, 50);
    assert!(result.is_err(), "create_will should reject zero percentages");
    assert_eq!(result, Err(WillError::InvalidPercentage));
}

#[test]
fn test_update_beneficiaries_rejects_percentage_overflow() {
    let owner = account(1);
    let mut instance = with_will(vec![heir(2, 10000)], 50);
    let result = WillContract::update_beneficiaries(
        &mut instance,
        &at(0, &[owner]),
        1,
        owner,
        vec![heir(2, 4294967196), heir(3, 200)],
    );
    assert!(result.is_err(), "update_beneficiaries should reject overflowing percentages");
    assert_eq!(result, Err(WillError::InvalidPercentages));
    assert_eq!(WillContract::get_will(&instance).unwrap().beneficiaries, vec![heir(2, 10000)]);
}

#[test]
fn test_update_beneficiaries_rejects_zero_percentage() {
    let owner = account(1);
    let mut instance = with_will(vec![heir(2, 10000)], 50);
    let result = WillContract::update_beneficiaries(
        &mut instance,
        &at(0, &[owner]),
        1,
        owner,
        vec![heir(2, 0)],
    );
    assert!(result.is_err(), "update_beneficiaries should reject zero percentages");
    assert_eq!(result, Err(WillError::InvalidPercentage));
}

#[test]
fn create_will_rejects_non_10000_basis_points() {
    let owner = account(1);
    let mut instance = Instance { will: None };
    let result = WillContract::create_will(
        &mut instance,
        &at(0, &[owner]),
        owner,
        vec![heir(2, 9_999)],
        90,
        0,
    );
    assert_eq!(result, Err(WillError::InvalidPercentages));
}

const DAY: u64 = 86_400;

/// A will of `account(1)`, made at a usual time, with `period` as its
/// inactivity period.
fn create(beneficiaries: Vec<Beneficiary>, period: u64) -> (Instance, Result<Event, WillError>) {
    let owner = account(1);
    let mut instance = Instance { will: None };
    let call = at(1_700_000_000, &[owner]);
    let result =
        WillContract::create_will(&mut instance, &call, owner, beneficiaries, period, 0);
    (instance, result)
}

#[test]
fn create_will_rejects_overflowing_basis_points() {
    let (instance, result) = create(vec![heir(2, u32::MAX), heir(3, u32::MAX)], 90 * DAY);
    assert_eq!(result, Err(WillError::InvalidPercentages));
    assert!(instance.will.is_none());
}

#[test]
fn update_beneficiaries_rejects_overflowing_basis_points() {
    let owner = account(1);
    let (mut instance, _) = create(vec![heir(2, 10_000)], 90 * DAY);
    let result = WillContract::update_beneficiaries(
        &mut instance,
        &at(1_700_000_000, &[owner]),
        1,
        owner,
        vec![heir(3, u32::MAX), heir(4, 1)],
    );
    assert_eq!(result, Err(WillError::InvalidPercentages));
    // The rejected update must not have disturbed the stored list.
    assert_eq!(WillContract::get_will(&instance).unwrap().beneficiaries, vec![heir(2, 10_000)]);
}

#[test]
fn create_will_rejects_overflowing_checkin_period() {
    let (instance, result) = create(vec![heir(2, 10_000)], u64::MAX);
    assert_eq!(result, Err(WillError::InvalidPeriod));
    assert!(instance.will.is_none());
    let (_, result) = create(vec![heir(2, 10_000)], u64::MAX - 1_700_000_000 + 1);
    assert_eq!(result, Err(WillError::InvalidPeriod));
    let (_, result) = create(vec![heir(2, 10_000)], u64::MAX - 1_700_000_000);
    assert!(result.is_ok());
}

#[test]
fn create_will_rejects_zero_length_periods() {
    let (instance, result) = create(vec![heir(2, 10_000)], 0);
    assert_eq!(result, Err(WillError::InvalidPeriod));
    assert!(instance.will.is_none());
}

#[test]
fn lists_hold_at_most_ten_beneficiaries() {
    let owner = account(1);
    let mut eleven: Vec<Beneficiary> = (0..10).map(|n| heir(10 + n, 909)).collect();
    eleven.push(heir(20, 910));
    let (instance, result) = create(eleven.clone(), 100);
    assert_eq!(result, Err(WillError::TooManyBeneficiaries));
    assert!(instance.will.is_none());

    let ten: Vec<Beneficiary> = (0..10).map(|n| heir(10 + n, 1000)).collect();
    let (mut instance, result) = create(ten.clone(), 100);
    assert!(result.is_ok());
    assert_eq!(
        WillContract::update_beneficiaries(
            &mut instance,
            &at(1_700_000_000, &[owner]),
            1,
            owner,
            eleven
        ),
        Err(WillError::TooManyBeneficiaries)
    );
    assert_eq!(WillContract::get_will(&instance).unwrap().beneficiaries, ten);
}

#[test]
fn single_share_above_the_whole_is_named() {
    let owner = account(1);
    let too_much = Err(WillError::InvalidPercentage);
    let (_, result) = create(vec![heir(2, 20_000), heir(3, 20_000)], 100);
    assert_eq!(result, too_much);
    let (_, result) = create(vec![heir(2, 10_001)], 100);
    assert_eq!(result, too_much);
    let (mut instance, _) = create(vec![heir(2, 10_000)], 100);
    let call = at(1_700_000_000, &[owner]);
    for list in [
        vec![heir(2, 20_000)],
        vec![heir(2, 20_000), heir(3, 20_000)],
        vec![heir(2, u32::MAX - 1), heir(3, 1)],
    ] {
        let result = WillContract::update_beneficiaries(&mut instance, &call, 1, owner, list);
        assert_eq!(result, too_much);
    }
}

#[test]
fn test_create_will_success() {
    let owner = account(1);
    let (instance, result) = create(vec![heir(2, 10_000)], 90 * DAY);
    assert_eq!(result.unwrap().subject, Subject::Will(1));
    let will = WillContract::get_will(&instance).unwrap();
    assert_eq!(will.owner, owner);
    assert_eq!(will.status, WillStatus::Active);
    assert_eq!(will.inactivity_period, 90 * DAY);
}

#[test]
fn test_checkin_resets_deadline() {
    let owner = account(1);
    let (mut instance, _) = create(vec![heir(2, 10_000)], 90 * DAY);
    WillContract::check_in(&mut instance, &at(1_700_000_000 + 10 * DAY, &[owner])).unwrap();
    let will = WillContract::get_will(&instance).unwrap();
    assert_eq!(will.last_check_in, 1_700_000_000 + 10 * DAY);
    assert_eq!(will.status, WillStatus::Active);
}

#[test]
fn test_trigger_after_missed_checkin() {
    let (mut instance, _) = create(vec![heir(2, 10_000)], 90 * DAY);
    let call = at(1_700_000_000 + 91 * DAY, &[]);
    WillContract::trigger_will(&mut instance, &call, token(), 1_000_000, None).unwrap();
    let will = WillContract::get_will(&instance).unwrap();
    assert_eq!(will.status, WillStatus::Triggered);
    assert_eq!(will.release_time, 1_700_000_000 + 98 * DAY);
}

#[test]
#[should_panic]
fn test_cannot_trigger_before_deadline() {
    let (mut instance, _) = create(vec![heir(2, 10_000)], 90 * DAY);
    let call = at(1_700_000_000 + 10 * DAY, &[]);
    WillContract::trigger_will(&mut instance, &call, token(), 1_000_000, None).unwrap();
}

#[test]
#[should_panic]
fn test_cannot_release_during_grace_period() {
    let (mut instance, _) = create(vec![heir(2, 10_000)], 90 * DAY);
    let call = at(1_700_000_000 + 91 * DAY, &[]);
    WillContract::trigger_will(&mut instance, &call, token(), 1_000_000, None).unwrap();
    let call = at(1_700_000_000 + 93 * DAY, &[]);
    WillContract::release_inheritance(&mut instance, &call, token(), 1_000_000, None).unwrap();
}

#[test]
#[should_panic]
fn test_invalid_percentages_rejected() {
    let (_, result) = create(vec![heir(2, 6_000), heir(3, 3_000)], 90 * DAY);
    result.unwrap();
}

/// Triggers and releases after a long silence; gives the transfers of a
/// release of 1_000_000 units.
fn wind_up(instance: &mut Instance) -> Vec<Transfer> {
    let call = at(1_700_000_000 + 91 * DAY, &[]);
    WillContract::trigger_will(instance, &call, token(), 1_000_000, None).unwrap();
    let call = at(1_700_000_000 + 99 * DAY, &[]);
    WillContract::release_inheritance(instance, &call, token(), 1_000_000, None)
        .unwrap()
        .transfers
}

#[test]
fn test_release_inheritance_splits_correctly() {
    let (mut instance, _) = create(vec![heir(2, 6_000), heir(3, 4_000)], 90 * DAY);
    let paid = wind_up(&mut instance);
    assert_eq!(received(&paid, account(2)), 600_000);
    assert_eq!(received(&paid, account(3)), 400_000);
    assert_eq!(left(&paid, 1_000_000), 0);
    assert_eq!(WillContract::get_will(&instance).unwrap().status, WillStatus::Released);
}

#[test]
fn pure_percentage_regression() {
    let (mut instance, _) = create(vec![heir(2, 6_000), heir(3, 4_000)], 90 * DAY);
    let paid = wind_up(&mut instance);
    assert_eq!(received(&paid, account(2)), 600_000);
    assert_eq!(received(&paid, account(3)), 400_000);
    assert_eq!(left(&paid, 1_000_000), 0);
    assert_eq!(WillContract::get_will(&instance).unwrap().status, WillStatus::Released);
}

#[test]
fn every_change_by_the_owner_gives_one_event() {
    let owner = account(1);
    let (mut instance, created) = create(vec![heir(2, 10_000)], 100);
    assert_eq!(
        created.unwrap(),
        Event {
            name: EventName::WillCreated,
            subject: Subject::Will(1),
            data: EventData::Tuple(vec![
                Field::Address(owner),
                Field::U32(0),
                Field::Shares(vec![heir(2, 10_000)]),
                Field::U64(1_700_000_100),
            ]),
        }
    );
    let call = at(1_700_000_050, &[owner]);
    assert_eq!(
        WillContract::check_in(&mut instance, &call).unwrap(),
        Event {
            name: EventName::CheckIn,
            subject: Subject::Will(1),
            data: EventData::Tuple(vec![Field::Address(owner), Field::U64(1_700_000_150)]),
        }
    );
    let list = vec![heir(3, 2_500), heir(4, 7_500)];
    assert_eq!(
        WillContract::update_beneficiaries(&mut instance, &call, 1, owner, list.clone()).unwrap(),
        Event {
            name: EventName::BeneficiariesUpdated,
            subject: Subject::Will(1),
            data: EventData::Tuple(vec![
                Field::Address(owner),
                Field::U32(2),
                Field::Shares(list),
            ]),
        }
    );
}

#[test]
fn created_will_is_read_back() {
    let owner = account(1);
    let mut instance = Instance { will: None };
    WillContract::create_will(
        &mut instance,
        &at(77, &[account(9), owner]),
        owner,
        vec![heir(2, 6000), heir(3, 4000)],
        100,
        100,
    )
    .unwrap();
    let will = WillContract::get_will(&instance).unwrap();
    assert_eq!(will.owner, owner);
    assert_eq!(will.beneficiaries, vec![heir(2, 6000), heir(3, 4000)]);
    assert_eq!(will.inactivity_period, 100);
    assert_eq!(will.last_check_in, 77);
    assert!(!will.triggered);
    assert_eq!(will.status, WillStatus::Active);
    assert_eq!(will.release_time, 0);
    assert_eq!(will.keeper_bounty_bps, 100);
    assert!(will.is_well_formed());
}

#[test]
fn create_will_replaces_what_was_there() {
    let mut instance = with_will(vec![heir(2, 10000)], 0);
    let other = account(8);
    WillContract::create_will(&mut instance, &at(5, &[other]), other, vec![heir(9, 10000)], 7, 1)
        .unwrap();
    assert_eq!(WillContract::get_will(&instance).unwrap().owner, other);
}

#[test]
fn create_will_refusals() {
    let owner = account(1);
    let mut instance = Instance { will: None };
    let good = vec![heir(2, 10000)];
    assert_eq!(
        WillContract::create_will(&mut instance, &at(0, &[account(2)]), owner, good.clone(), 1, 0),
        Err(WillError::NotOwner)
    );
    assert_eq!(
        WillContract::create_will(&mut instance, &at(0, &[owner]), owner, good, 1, 101),
        Err(WillError::KeeperBountyTooHigh)
    );
    assert_eq!(
        WillContract::create_will(&mut instance, &at(0, &[owner]), owner, vec![], 1, 0),
        Err(WillError::InvalidPercentages)
    );
    assert_eq!(
        WillContract::create_will(
            &mut instance,
            &at(0, &[owner]),
            owner,
            vec![heir(2, 9999)],
            1,
            0
        ),
        Err(WillError::InvalidPercentages)
    );
    assert_eq!(
        WillContract::create_will(
            &mut instance,
            &at(0, &[owner]),
            owner,
            vec![heir(2, 10000), heir(3, 10000), heir(4, 1)],
            1,
            0
        ),
        Err(WillError::InvalidPercentages)
    );
    assert_eq!(
        WillContract::create_will(
            &mut instance,
            &at(0, &[owner]),
            owner,
            vec![heir(2, 10000), heir(3, 10001)],
            1,
            0
        ),
        Err(WillError::InvalidPercentage)
    );
    assert!(instance.will.is_none());
}

#[test]
fn check_in_postpones_the_trigger() {
    let owner = account(1);
    let mut instance = with_will(vec![heir(2, 10000)], 0);
    assert_eq!(
        WillContract::check_in(&mut instance, &at(90, &[account(2)])),
        Err(WillError::NotOwner)
    );
    WillContract::check_in(&mut instance, &at(90, &[owner])).unwrap();
    assert_eq!(instance.will.as_ref().unwrap().last_check_in, 90);
    assert_eq!(
        WillContract::trigger_will(&mut instance, &at(189, &[]), token(), 0, None).unwrap_err(),
        WillError::CheckinNotDue
    );
    let trigger =
        WillContract::trigger_will(&mut instance, &at(190, &[]), token(), 0, None).unwrap();
    assert_eq!(trigger.event.owner, owner);
    assert_eq!(trigger.event.triggered_by, contract());
    assert_eq!(trigger.event.release_time, 190 + 604800);
    assert_eq!(trigger.event.topic(), "will_triggered");
}

#[test]
fn late_check_in_is_never_due() {
    let owner = account(1);
    let (mut instance, _) = create(vec![heir(2, 10_000)], u64::MAX - 1_700_000_000);
    let event = WillContract::check_in(&mut instance, &at(1_700_000_001, &[owner])).unwrap();
    assert_eq!(
        event.data,
        EventData::Tuple(vec![Field::Address(owner), Field::U64(u64::MAX)])
    );
    assert_eq!(
        WillContract::trigger_will(&mut instance, &at(u64::MAX, &[]), token(), 0, None)
            .unwrap_err(),
        WillError::CheckinNotDue
    );
}

#[test]
fn triggered_will_is_frozen() {
    let owner = account(1);
    let mut instance = with_will(vec![heir(2, 10000)], 0);
    WillContract::trigger_will(&mut instance, &at(100, &[]), token(), 0, None).unwrap();
    assert_eq!(
        WillContract::check_in(&mut instance, &at(101, &[owner])),
        Err(WillError::WillNotActive)
    );
    assert_eq!(
        WillContract::update_beneficiaries(
            &mut instance,
            &at(101, &[owner]),
            0,
            owner,
            vec![heir(3, 10000)]
        ),
        Err(WillError::WillNotActive)
    );
    assert_eq!(
        WillContract::trigger_will(&mut instance, &at(300, &[]), token(), 0, None).unwrap_err(),
        WillError::WillNotActive
    );
}

#[test]
fn release_waits_for_trigger_and_delay() {
    let mut instance = with_will(vec![heir(2, 10000)], 0);
    assert_eq!(
        WillContract::release_inheritance(&mut instance, &at(9999999, &[]), token(), 5, None)
            .unwrap_err(),
        WillError::WillNotTriggered
    );
    WillContract::trigger_will(&mut instance, &at(100, &[]), token(), 5, None).unwrap();
    assert_eq!(
        WillContract::release_inheritance(&mut instance, &at(604899, &[]), token(), 5, None)
            .unwrap_err(),
        WillError::GracePeriodNotExpired
    );
    let release =
        WillContract::release_inheritance(&mut instance, &at(604900, &[]), token(), 5, None)
            .unwrap();
    assert_eq!(
        release.transfers,
        vec![Transfer { token: token(), from: contract(), to: account(2), amount: 5 }]
    );
    assert_eq!(release.event.owner, account(1));
    assert_eq!(release.event.released_by, contract());
    assert_eq!(release.event.total_amount, 5);
    assert_eq!(release.event.keeper_bounty_paid, 0);
    assert_eq!(release.event.topic(), "inheritance_released");
}

#[test]
fn release_happens_once() {
    let owner = account(1);
    let mut instance = with_will(vec![heir(2, 10000)], 0);
    WillContract::trigger_will(&mut instance, &at(100, &[]), token(), 5, None).unwrap();
    let before = WillContract::get_will(&instance).unwrap();
    WillContract::release_inheritance(&mut instance, &at(700000, &[]), token(), 5, None).unwrap();
    let will = WillContract::get_will(&instance).unwrap();
    assert_eq!(will.status, WillStatus::Released);
    assert_eq!(will.owner, owner);
    assert_eq!(will.beneficiaries, before.beneficiaries);
    assert_eq!(will.release_time, before.release_time);
    assert!(will.is_well_formed());
    assert_eq!(
        WillContract::check_in(&mut instance, &at(700000, &[owner])),
        Err(WillError::WillNotActive)
    );
    assert_eq!(
        WillContract::trigger_will(&mut instance, &at(u64::MAX, &[]), token(), 5, None)
            .unwrap_err(),
        WillError::WillNotActive
    );
    assert_eq!(
        WillContract::release_inheritance(&mut instance, &at(700000, &[]), token(), 5, None)
            .unwrap_err(),
        WillError::WillNotTriggered
    );
    assert_eq!(
        WillContract::update_beneficiaries(
            &mut instance,
            &at(700000, &[owner]),
            0,
            owner,
            vec![heir(3, 10000)]
        ),
        Err(WillError::WillNotActive)
    );
    assert_eq!(WillContract::get_will(&instance).unwrap().status, WillStatus::Released);
}

#[test]
fn nothing_to_do_without_a_will() {
    let owner = account(1);
    let mut instance = Instance { will: None };
    assert_eq!(WillContract::get_will(&instance).unwrap_err(), WillError::WillNotFound);
    assert_eq!(
        WillContract::check_in(&mut instance, &at(7, &[owner])),
        Err(WillError::WillNotFound)
    );
    assert_eq!(
        WillContract::trigger_will(&mut instance, &at(7, &[]), token(), 5, None).unwrap_err(),
        WillError::WillNotFound
    );
    assert_eq!(
        WillContract::release_inheritance(&mut instance, &at(7, &[]), token(), 5, None)
            .unwrap_err(),
        WillError::WillNotFound
    );
    assert_eq!(
        WillContract::update_beneficiaries(
            &mut instance,
            &at(7, &[owner]),
            0,
            owner,
            vec![heir(3, 10000)]
        ),
        Err(WillError::WillNotFound)
    );
}

fn released(beneficiaries: Vec<Beneficiary>, bounty: u32, balance: i128, keeper: bool) -> Vec<Transfer> {
    let mut instance = with_will(beneficiaries, bounty);
    WillContract::trigger_will(&mut instance, &at(100, &[]), token(), balance, None).unwrap();
    let keeper = if keeper { Some(account(9)) } else { None };
    WillContract::release_inheritance(&mut instance, &at(604900, &[]), token(), balance, keeper)
        .unwrap()
        .transfers
}

#[test]
fn last_beneficiary_absorbs_the_remainder() {
    let paid = released(vec![heir(2, 3333), heir(3, 3333), heir(4, 3334)], 0, 1000, false);
    assert_eq!(received(&paid, account(2)), 333);
    assert_eq!(received(&paid, account(3)), 333);
    assert_eq!(received(&paid, account(4)), 334);
    assert_eq!(left(&paid, 1000), 0);

    let paid = released(vec![heir(2, 5000), heir(3, 5000)], 0, 10_001, false);
    assert_eq!(received(&paid, account(2)), 5_000);
    assert_eq!(received(&paid, account(3)), 5_001);
    assert_eq!(left(&paid, 10_001), 0);

    let paid = released(vec![heir(2, 6000), heir(3, 4000)], 0, 1_000_000, false);
    assert_eq!(received(&paid, account(2)), 600_000);
    assert_eq!(received(&paid, account(3)), 400_000);
    assert_eq!(left(&paid, 1_000_000), 0);
}

#[test]
fn release_leaves_out_empty_parts() {
    let paid = released(vec![heir(2, 1), heir(3, 9999)], 0, 9999, false);
    assert_eq!(
        paid,
        vec![Transfer { token: token(), from: contract(), to: account(3), amount: 9999 }]
    );
    assert!(released(vec![heir(2, 3333), heir(3, 3333), heir(4, 3334)], 0, -1, false).is_empty());
    assert!(released(vec![heir(2, 10000)], 100, 0, true).is_empty());
    assert!(released(vec![heir(2, 10000)], 100, -7, true).is_empty());
}

#[test]
fn release_of_the_largest_balance() {
    let paid = released(vec![heir(2, 2500), heir(3, 7500)], 100, i128::MAX, true);
    assert_eq!(paid[0].to, account(9));
    assert_eq!(paid[0].amount, i128::MAX / 100);
    assert_eq!(left(&paid, i128::MAX), 0);
}

#[test]
fn bounty_comes_first_and_is_capped() {
    let paid = released(vec![heir(2, 10000)], 100, 1999, true);
    assert_eq!(
        paid,
        vec![
            Transfer { token: token(), from: contract(), to: account(9), amount: 19 },
            Transfer { token: token(), from: contract(), to: account(2), amount: 1980 },
        ]
    );
    let paid = released(vec![heir(2, 10000)], 100, 99, true);
    assert_eq!(
        paid,
        vec![Transfer { token: token(), from: contract(), to: account(2), amount: 99 }]
    );
}

#[test]
fn update_replaces_beneficiaries_only() {
    let owner = account(1);
    let mut instance = with_will(vec![heir(2, 10000)], 50);
    WillContract::update_beneficiaries(
        &mut instance,
        &at(60, &[owner]),
        12,
        owner,
        vec![heir(3, 5000), heir(4, 5000)],
    )
    .unwrap();
    let will = WillContract::get_will(&instance).unwrap();
    assert_eq!(will.beneficiaries, vec![heir(3, 5000), heir(4, 5000)]);
    assert_eq!(will.last_check_in, 0);
    assert_eq!(will.keeper_bounty_bps, 50);
    assert_eq!(will.inactivity_period, 100);
}

#[test]
fn update_refusals() {
    let owner = account(1);
    let stranger = account(5);
    let mut instance = with_will(vec![heir(2, 10000)], 50);
    let list = vec![heir(3, 10000)];
    assert_eq!(
        WillContract::update_beneficiaries(&mut instance, &at(0, &[]), 0, owner, list.clone()),
        Err(WillError::NotOwner)
    );
    assert_eq!(
        WillContract::update_beneficiaries(&mut instance, &at(0, &[stranger]), 0, stranger, list),
        Err(WillError::NotOwner)
    );
    assert_eq!(
        WillContract::update_beneficiaries(
            &mut instance,
            &at(0, &[owner]),
            0,
            owner,
            vec![heir(3, 1)]
        ),
        Err(WillError::InvalidPercentages)
    );
    assert_eq!(WillContract::get_will(&instance).unwrap().beneficiaries, vec![heir(2, 10000)]);
}

#[test]
fn ill_formed_wills_are_recognised() {
    let instance = with_will(vec![heir(2, 10000)], 50);
    let good = instance.will.unwrap();
    assert!(good.is_well_formed());
    let mut will = good.clone();
    will.keeper_bounty_bps = 101;
    assert!(!will.is_well_formed());
    let mut will = good.clone();
    will.beneficiaries[0].share_bps = 9999;
    assert!(!will.is_well_formed());
    let mut will = good.clone();
    will.release_time = 1;
    assert!(!will.is_well_formed());
    let mut will = good.clone();
    will.inactivity_period = 0;
    assert!(!will.is_well_formed());
    let mut will = good.clone();
    will.status = WillStatus::Cancelled;
    assert!(!will.is_well_formed());
    let mut will = good.clone();
    will.triggered = true;
    assert!(!will.is_well_formed());
    will.status = WillStatus::Triggered;
    will.release_time = 100 + 604799;
    assert!(!will.is_well_formed());
    will.release_time = 100 + 604800;
    assert!(will.is_well_formed());
}
