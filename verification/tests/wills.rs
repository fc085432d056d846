use soroban_sdk::Env;
use will::events::{Event, EventData, EventName, Field, Subject};
use will::storage::{
    get_beneficiary_wills, index_by_beneficiary, load_will, next_will_id, save_will, Storage,
};
use will::types::{Beneficiary, HashedBeneficiary, Will, WillStatus};
use will::{Address, WillContract, WillError};

fn account(n: u128) -> Address {
    Address::Account { high: 3, low: n }
}

fn heir(n: u128, percentage: u32) -> Beneficiary {
    Beneficiary { address: account(n), percentage }
}

/// Saves and indexes a will of `account(1)` in favour of `account(5)`.
fn create(env: &Env, storage: &mut Storage) -> Will {
    let id = next_will_id(storage);
    let will = Will {
        id,
        owner: account(1),
        co_owners: vec![],
        owner_threshold: 1,
        token: Address::Contract { high: 0, low: 4 },
        balance: 1_000_000,
        beneficiaries: vec![heir(5, 100)],
        hashed_beneficiaries: vec![],
        checkin_period_days: 90,
        grace_period_days: 7,
        last_checkin: 1_700_000_000,
        trigger_time: None,
        confirmation_deadline: None,
        status: WillStatus::Active,
        guardians: vec![],
        guardian_votes: 0,
    };
    save_will(storage, &will);
    index_by_beneficiary(env, storage, &account(5), id);
    will
}

fn update(
    env: &Env,
    storage: &mut Storage,
    signers: &[Address],
    id: u64,
    owner: Address,
    list: Vec<Beneficiary>,
) -> Result<Event, WillError> {
    WillContract::update_will_beneficiaries(env, storage, &signers.to_vec(), id, owner, list)
}

fn indexed(env: &Env, storage: &Storage, n: u128) -> Vec<u64> {
    get_beneficiary_wills(env, storage, &account(n)).iter().collect()
}

#[test]
fn test_update_beneficiaries() {
    let env = Env::default();
    let mut storage = Storage::new();
    let owner = account(1);
    let will = create(&env, &mut storage);
    let list = vec![heir(6, 50), heir(7, 50)];
    let event =
        update(&env, &mut storage, &[owner], will.id, owner, list.clone()).unwrap();
    assert_eq!(
        event,
        Event {
            name: EventName::BeneficiariesUpdated,
            subject: Subject::Will(1),
            data: EventData::Tuple(vec![
                Field::Address(owner),
                Field::U32(2),
                Field::Beneficiaries(list.clone()),
            ]),
        }
    );
    assert_eq!(load_will(&storage, will.id).unwrap().beneficiaries.len(), 2);
    assert_eq!(load_will(&storage, will.id).unwrap().beneficiaries, list);
    assert_eq!(get_beneficiary_wills(&env, &storage, &account(6)).len(), 1);
}

#[test]
fn update_keeps_the_index_in_step() {
    let env = Env::default();
    let mut storage = Storage::new();
    let owner = account(1);
    create(&env, &mut storage);
    create(&env, &mut storage);
    update(&env, &mut storage, &[owner], 2, owner, vec![heir(5, 1), heir(6, 99)]).unwrap();
    assert_eq!(indexed(&env, &storage, 5), vec![1, 2]);
    assert_eq!(indexed(&env, &storage, 6), vec![2]);
    update(&env, &mut storage, &[owner], 2, owner, vec![heir(7, 100)]).unwrap();
    assert_eq!(indexed(&env, &storage, 5), vec![1]);
    assert!(indexed(&env, &storage, 6).is_empty());
    assert_eq!(indexed(&env, &storage, 7), vec![2]);
    assert_eq!(load_will(&storage, 1).unwrap().beneficiaries, vec![heir(5, 100)]);
}

#[test]
fn refused_update_changes_nothing() {
    let env = Env::default();
    let mut storage = Storage::new();
    let (owner, stranger) = (account(1), account(2));
    create(&env, &mut storage);
    let mut triggered = create(&env, &mut storage);
    triggered.status = WillStatus::Triggered;
    save_will(&mut storage, &triggered);
    let writes = storage.writes().len();
    let good = vec![heir(6, 100)];
    let cases = [
        (stranger, 1, owner, good.clone(), WillError::NotOwner),
        (stranger, 1, stranger, good.clone(), WillError::NotOwner),
        (owner, 9, owner, good.clone(), WillError::WillNotFound),
        (owner, 2, owner, good, WillError::WillNotActive),
        (owner, 1, owner, vec![], WillError::InvalidPercentages),
        (owner, 1, owner, vec![heir(6, 60), heir(7, 30)], WillError::InvalidPercentages),
        (owner, 1, owner, vec![heir(6, 100), heir(7, 0)], WillError::InvalidPercentage),
        (owner, 1, owner, vec![heir(6, 101)], WillError::InvalidPercentage),
        (owner, 1, owner, vec![heir(6, u32::MAX), heir(7, 1)], WillError::InvalidPercentages),
        (
            owner,
            1,
            owner,
            (0..11).map(|n| heir(20 + n, 9)).collect(),
            WillError::TooManyBeneficiaries,
        ),
    ];
    for (signer, id, named, list, error) in cases {
        assert_eq!(update(&env, &mut storage, &[signer], id, named, list), Err(error));
    }
    assert_eq!(storage.writes().len(), writes);
    assert_eq!(load_will(&storage, 1).unwrap().beneficiaries, vec![heir(5, 100)]);
    assert_eq!(indexed(&env, &storage, 5), vec![1, 2]);
    assert!(indexed(&env, &storage, 6).is_empty());
}

#[test]
fn hashed_beneficiaries_count_towards_the_whole() {
    let env = Env::default();
    let mut storage = Storage::new();
    let owner = account(1);
    let mut will = create(&env, &mut storage);
    will.hashed_beneficiaries =
        vec![HashedBeneficiary { commitment: vec![1], percentage: 30, claimed: false }];
    save_will(&mut storage, &will);
    assert_eq!(
        update(&env, &mut storage, &[owner], 1, owner, vec![heir(6, 100)]),
        Err(WillError::InvalidPercentages)
    );
    assert!(update(&env, &mut storage, &[owner], 1, owner, vec![heir(6, 70)]).is_ok());
}

#[test]
fn co_owners_must_sign_up_to_the_threshold() {
    let env = Env::default();
    let mut storage = Storage::new();
    let (owner, first, second) = (account(1), account(2), account(3));
    let mut will = create(&env, &mut storage);
    will.co_owners = vec![first, second, first];
    will.owner_threshold = 2;
    save_will(&mut storage, &will);
    let list = vec![heir(6, 100)];
    for signers in [vec![owner], vec![owner, owner], vec![first, second], vec![owner, account(9)]] {
        assert_eq!(
            update(&env, &mut storage, &signers, 1, owner, list.clone()),
            Err(WillError::NotOwner)
        );
    }
    assert!(update(&env, &mut storage, &[second, owner], 1, owner, list.clone()).is_ok());

    will.owner_threshold = 4;
    save_will(&mut storage, &will);
    let all = [owner, first, second];
    assert_eq!(
        update(&env, &mut storage, &all, 1, owner, list),
        Err(WillError::NotOwner)
    );
}
