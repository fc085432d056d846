use soroban_sdk::Env;
use will::events::{
    batch_created, beneficiaries_updated, beneficiary_renounced, check_in, emergency_checkin,
    guardian_voted, guardians_updated, inheritance_released, keeper_bounty_paid, periods_updated,
    top_up, will_archived, will_cancelled, will_cloned, will_closed, will_created, will_migrated,
    will_settings_updated, will_triggered, wills_merged, Event, EventData, EventName, Field,
    Subject,
};
use will::types::Beneficiary;
use will::Address;

fn account(n: u128) -> Address {
    Address::Account { high: 1, low: n }
}

fn expect(event: Event, symbol: &str, subject: Subject, data: EventData) {
    assert_eq!(event.name.symbol(), symbol);
    assert_eq!(event.subject, subject);
    assert_eq!(event.data, data);
}

#[test]
fn consolidated_event_snapshot_test() {
    let env = Env::default();
    let now: u64 = 1_700_000_000;
    let owner = account(1);
    let beneficiary = account(2);
    let guardian = account(4);
    let keeper = account(5);
    let token = account(6);
    let will_id = 12345u64;
    let next_deadline = now + 7776000;
    let about = Subject::Will(will_id);
    let beneficiaries = vec![
        Beneficiary { address: beneficiary, percentage: 70 },
        Beneficiary { address: account(3), percentage: 30 },
    ];

    expect(
        will_created(will_id, &owner, 1, &beneficiaries, next_deadline),
        "created",
        about,
        EventData::Tuple(vec![
            Field::Address(owner),
            Field::U32(1),
            Field::Beneficiaries(beneficiaries.clone()),
            Field::U64(next_deadline),
        ]),
    );
    expect(
        check_in(will_id, &owner, next_deadline),
        "checkin",
        about,
        EventData::Tuple(vec![Field::Address(owner), Field::U64(next_deadline)]),
    );
    expect(
        will_triggered(will_id, now),
        "triggered",
        about,
        EventData::One(Field::U64(now)),
    );
    expect(
        emergency_checkin(will_id, &owner, next_deadline),
        "emerg",
        about,
        EventData::Tuple(vec![Field::Address(owner), Field::U64(next_deadline)]),
    );
    expect(
        inheritance_released(will_id, 3, 2),
        "released",
        about,
        EventData::Tuple(vec![Field::U32(3), Field::U32(2)]),
    );
    expect(
        will_cancelled(will_id, &owner, 3),
        "cancelled",
        about,
        EventData::Tuple(vec![Field::Address(owner), Field::U32(3)]),
    );
    expect(
        beneficiaries_updated(will_id, &owner, &beneficiaries),
        "benefup",
        about,
        EventData::Tuple(vec![
            Field::Address(owner),
            Field::U32(2),
            Field::Beneficiaries(beneficiaries),
        ]),
    );
    expect(
        guardians_updated(will_id, &owner),
        "guardup",
        about,
        EventData::One(Field::Address(owner)),
    );
    expect(
        will_closed(will_id, &owner),
        "closed",
        about,
        EventData::One(Field::Address(owner)),
    );
    expect(
        top_up(will_id, &owner, &token, 500, 1500),
        "topup",
        about,
        EventData::Tuple(vec![
            Field::Address(owner),
            Field::Address(token),
            Field::I128(500),
            Field::I128(1500),
        ]),
    );
    expect(
        guardian_voted(will_id, &guardian, 1, 2),
        "gvote",
        about,
        EventData::Tuple(vec![Field::Address(guardian), Field::U32(1), Field::U32(2)]),
    );
    expect(
        wills_merged(will_id, 7, &owner, -3),
        "merged",
        about,
        EventData::Tuple(vec![Field::Address(owner), Field::U64(7), Field::I128(-3)]),
    );
    expect(
        will_migrated(will_id, &owner, 1, 2),
        "migrated",
        about,
        EventData::Tuple(vec![Field::Address(owner), Field::U32(1), Field::U32(2)]),
    );
    expect(
        will_cloned(will_id, 12346, &owner),
        "cloned",
        Subject::Will(12346),
        EventData::Tuple(vec![Field::U64(will_id), Field::Address(owner)]),
    );
    let ids = soroban_sdk::Vec::from_slice(&env, &[1u64, 2, 3]);
    expect(
        batch_created(&owner, &ids),
        "batch",
        Subject::Owner(owner),
        EventData::One(Field::Ids(ids.clone())),
    );
    expect(
        will_archived(will_id, &owner),
        "archived",
        about,
        EventData::One(Field::Address(owner)),
    );
    expect(
        periods_updated(will_id, &owner, 90, 7, next_deadline),
        "periodu",
        about,
        EventData::Tuple(vec![
            Field::Address(owner),
            Field::U64(90),
            Field::U64(7),
            Field::U64(next_deadline),
        ]),
    );
    expect(
        beneficiary_renounced(will_id, &beneficiary, &owner),
        "renounce",
        about,
        EventData::Tuple(vec![Field::Address(beneficiary), Field::Address(owner)]),
    );
    let fields = vec!["guardians".to_string(), "periods".to_string()];
    expect(
        will_settings_updated(will_id, &owner, fields.clone()),
        "setupd",
        about,
        EventData::Tuple(vec![Field::Address(owner), Field::Symbols(fields)]),
    );
    expect(
        keeper_bounty_paid(will_id, &keeper, 50),
        "bounty",
        about,
        EventData::Tuple(vec![Field::Address(keeper), Field::I128(50)]),
    );
}

#[test]
fn symbols_are_short_and_distinct() {
    let names = [
        EventName::WillCreated,
        EventName::CheckIn,
        EventName::WillTriggered,
        EventName::EmergencyCheckin,
        EventName::InheritanceReleased,
        EventName::WillCancelled,
        EventName::BeneficiariesUpdated,
        EventName::GuardiansUpdated,
        EventName::WillClosed,
        EventName::TopUp,
        EventName::GuardianVoted,
        EventName::WillsMerged,
        EventName::WillMigrated,
        EventName::WillCloned,
        EventName::BatchCreated,
        EventName::WillArchived,
        EventName::PeriodsUpdated,
        EventName::BeneficiaryRenounced,
        EventName::WillSettingsUpdated,
        EventName::KeeperBountyPaid,
    ];
    for (i, a) in names.iter().enumerate() {
        assert!(a.symbol().len() <= 9);
        for b in &names[i + 1..] {
            assert_ne!(a.symbol(), b.symbol());
        }
    }
}
