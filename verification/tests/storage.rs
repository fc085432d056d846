use soroban_sdk::{Env, TryFromVal};
use will::ids::is_id_list;
use will::storage::{
    get_beneficiary_wills, get_owner_wills, has_guardian_voted, index_by_beneficiary,
    index_by_owner, load_will, next_will_id, paginate_ids, remove_beneficiary_index,
    replace_beneficiaries, reset_guardian_votes, save_will, set_guardian_voted, DataKey, Durability, Storage, Value,
    Write, BUMP_AMOUNT, LIFETIME_THRESHOLD,
};
use will::types::{Beneficiary, HashedBeneficiary, Will, WillStatus};
use will::{Address, WillError};

fn account(n: u128) -> Address {
    Address::Account { high: 7, low: n }
}

fn list(env: &Env, ids: &[u64]) -> soroban_sdk::Vec<u64> {
    soroban_sdk::Vec::from_slice(env, ids)
}

fn plain(ids: &soroban_sdk::Vec<u64>) -> Vec<u64> {
    ids.iter().collect()
}

fn renewal(key: DataKey) -> Write {
    Write::ExtendTtl { key, threshold: 518_400, extend_to: 1_036_800 }
}

fn sample(id: u64, status: WillStatus) -> Will {
    Will {
        id,
        owner: account(1),
        co_owners: vec![account(2), account(3)],
        owner_threshold: 2,
        token: Address::Contract { high: 0, low: 4 },
        balance: 1_000_000,
        beneficiaries: vec![Beneficiary { address: account(5), percentage: 60 }],
        hashed_beneficiaries: vec![HashedBeneficiary {
            commitment: vec![1, 2, 3],
            percentage: 40,
            claimed: false,
        }],
        checkin_period_days: 90,
        grace_period_days: 7,
        last_checkin: 1_700_000_000,
        trigger_time: None,
        confirmation_deadline: Some(5),
        status,
        guardians: vec![account(6), account(7)],
        guardian_votes: 0,
    }
}

#[test]
fn constants() {
    assert_eq!(LIFETIME_THRESHOLD, 518_400);
    assert_eq!(BUMP_AMOUNT, 1_036_800);
}

#[test]
fn will_ids_count_up_from_one() {
    let mut storage = Storage::new();
    assert_eq!(next_will_id(&mut storage), 1);
    assert_eq!(next_will_id(&mut storage), 2);
    assert_eq!(next_will_id(&mut storage), 3);
    assert_eq!(storage.writes(), &vec![Write::Put(DataKey::NextWillId); 3]);

    let mut storage = Storage::new();
    storage.load(DataKey::NextWillId, Value::Counter(41));
    assert_eq!(next_will_id(&mut storage), 42);
    assert!(matches!(storage.entry(DataKey::NextWillId), Some(Value::Counter(42))));
}

#[test]
fn keys_know_where_they_live() {
    assert_eq!(DataKey::NextWillId.durability(), Durability::Instance);
    assert_eq!(DataKey::Will(1).durability(), Durability::Persistent);
    assert_eq!(DataKey::OwnerWills(account(1)).durability(), Durability::Persistent);
    assert_eq!(DataKey::BeneficiaryWills(account(1)).durability(), Durability::Persistent);
    assert_eq!(DataKey::GuardianVote(1, account(1)).durability(), Durability::Persistent);
}

#[test]
fn saved_will_is_loaded() {
    let mut storage = Storage::new();
    assert_eq!(load_will(&storage, 3).unwrap_err(), WillError::WillNotFound);
    save_will(&mut storage, &sample(3, WillStatus::Active));
    let will = load_will(&storage, 3).unwrap();
    assert_eq!(will.id, 3);
    assert_eq!(will.owner, account(1));
    assert_eq!(will.co_owners, vec![account(2), account(3)]);
    assert_eq!(will.beneficiaries, vec![Beneficiary { address: account(5), percentage: 60 }]);
    assert_eq!(will.hashed_beneficiaries[0].commitment, vec![1, 2, 3]);
    assert_eq!(will.confirmation_deadline, Some(5));
    assert_eq!(will.status, WillStatus::Active);
    assert_eq!(will.guardians, vec![account(6), account(7)]);
    assert_eq!(load_will(&storage, 4).unwrap_err(), WillError::WillNotFound);

    let mut changed = sample(3, WillStatus::Triggered);
    changed.balance = 5;
    save_will(&mut storage, &changed);
    assert_eq!(load_will(&storage, 3).unwrap().balance, 5);
    assert_eq!(load_will(&storage, 3).unwrap().status, WillStatus::Triggered);
}

#[test]
fn terminal_wills_are_not_renewed() {
    let key = DataKey::Will(9);
    for status in [WillStatus::PendingConfirmation, WillStatus::Active, WillStatus::Triggered] {
        let mut storage = Storage::new();
        save_will(&mut storage, &sample(9, status));
        assert_eq!(storage.writes(), &vec![Write::Put(key), renewal(key)]);
    }
    for status in [WillStatus::Released, WillStatus::Cancelled] {
        let mut storage = Storage::new();
        save_will(&mut storage, &sample(9, status));
        assert_eq!(storage.writes(), &vec![Write::Put(key)]);
        assert_eq!(load_will(&storage, 9).unwrap().status, status);
    }
}

#[test]
fn owner_index_lists_each_will_once() {
    let env = Env::default();
    let mut storage = Storage::new();
    let key = DataKey::OwnerWills(account(1));
    assert!(get_owner_wills(&env, &storage, &account(1)).is_empty());
    index_by_owner(&env, &mut storage, &account(1), 4);
    index_by_owner(&env, &mut storage, &account(1), 8);
    index_by_owner(&env, &mut storage, &account(2), 5);
    assert_eq!(plain(&get_owner_wills(&env, &storage, &account(1))), vec![4, 8]);
    assert_eq!(plain(&get_owner_wills(&env, &storage, &account(2))), vec![5]);
    assert!(get_beneficiary_wills(&env, &storage, &account(1)).is_empty());
    assert_eq!(storage.writes().len(), 6);
    assert_eq!(storage.writes()[0], Write::Put(key));
    assert_eq!(storage.writes()[1], renewal(key));

    index_by_owner(&env, &mut storage, &account(1), 4);
    assert_eq!(plain(&get_owner_wills(&env, &storage, &account(1))), vec![4, 8]);
    assert_eq!(storage.writes().len(), 6);
}

#[test]
fn beneficiary_index_adds_and_removes() {
    let env = Env::default();
    let mut storage = Storage::new();
    let key = DataKey::BeneficiaryWills(account(1));
    remove_beneficiary_index(&mut storage, &account(1), 3);
    assert!(storage.writes().is_empty());

    for id in [3, 1, 2] {
        index_by_beneficiary(&env, &mut storage, &account(1), id);
    }
    assert_eq!(storage.writes().len(), 6);
    remove_beneficiary_index(&mut storage, &account(1), 7);
    assert_eq!(storage.writes().len(), 6);
    remove_beneficiary_index(&mut storage, &account(1), 1);
    assert_eq!(plain(&get_beneficiary_wills(&env, &storage, &account(1))), vec![3, 2]);
    assert_eq!(storage.writes().len(), 7);
    assert_eq!(storage.writes()[6], Write::Put(key));
    index_by_beneficiary(&env, &mut storage, &account(1), 1);
    assert_eq!(plain(&get_beneficiary_wills(&env, &storage, &account(1))), vec![3, 2, 1]);
}

#[test]
fn removal_takes_the_first_occurrence() {
    let env = Env::default();
    let mut storage = Storage::new();
    let key = DataKey::BeneficiaryWills(account(1));
    let stored = list(&env, &[5, 6, 5, u64::MAX]);
    storage.load(key, Value::Ids(stored.clone()));
    remove_beneficiary_index(&mut storage, &account(1), 5);
    assert_eq!(
        plain(&get_beneficiary_wills(&env, &storage, &account(1))),
        vec![6, 5, u64::MAX]
    );
    remove_beneficiary_index(&mut storage, &account(1), u64::MAX);
    assert_eq!(plain(&get_beneficiary_wills(&env, &storage, &account(1))), vec![6, 5]);
    // The list that was loaded is not changed behind its owner's back.
    assert_eq!(plain(&stored), vec![5, 6, 5, u64::MAX]);
}

#[test]
fn votes_are_remembered_and_reset() {
    let mut storage = Storage::new();
    let mut will = sample(2, WillStatus::Active);
    let (g1, g2, stranger) = (account(6), account(7), account(8));
    assert!(!has_guardian_voted(&storage, 2, &g1));
    set_guardian_voted(&mut storage, 2, &g1);
    set_guardian_voted(&mut storage, 3, &g1);
    set_guardian_voted(&mut storage, 2, &stranger);
    assert!(has_guardian_voted(&storage, 2, &g1));
    assert!(!has_guardian_voted(&storage, 2, &g2));
    let key = DataKey::GuardianVote(2, g1);
    assert_eq!(storage.writes()[0..2], [Write::Put(key), renewal(key)]);

    // A will that counts no vote has nothing to reset.
    let writes = storage.writes().len();
    reset_guardian_votes(&mut storage, &will);
    assert_eq!(storage.writes().len(), writes);
    assert!(has_guardian_voted(&storage, 2, &g1));

    will.guardian_votes = 1;
    reset_guardian_votes(&mut storage, &will);
    assert!(!has_guardian_voted(&storage, 2, &g1));
    assert!(!has_guardian_voted(&storage, 2, &g2));
    assert!(has_guardian_voted(&storage, 3, &g1));
    assert!(has_guardian_voted(&storage, 2, &stranger));
    assert_eq!(
        storage.writes()[writes..],
        [
            Write::Remove(DataKey::GuardianVote(2, g1)),
            Write::Remove(DataKey::GuardianVote(2, g2)),
        ]
    );
}

#[test]
fn loading_is_no_change_to_the_ledger() {
    let mut storage = Storage::new();
    storage.load(DataKey::GuardianVote(1, account(1)), Value::Vote(false));
    storage.load(DataKey::Will(6), Value::Will(sample(6, WillStatus::Active)));
    assert!(storage.writes().is_empty());
    assert!(!has_guardian_voted(&storage, 1, &account(1)));
    assert_eq!(load_will(&storage, 6).unwrap().id, 6);
}

#[test]
fn pages_are_cut_by_limit_and_maximum() {
    let env = Env::default();
    let ids: Vec<u64> = (1..=120).collect();
    let stored = list(&env, &ids);
    assert_eq!(plain(&paginate_ids(&env, &stored, None, 3)), vec![1, 2, 3]);
    assert_eq!(plain(&paginate_ids(&env, &stored, None, 1000)), ids[0..50].to_vec());
    assert_eq!(plain(&paginate_ids(&env, &stored, None, 50)), ids[0..50].to_vec());
    assert!(paginate_ids(&env, &stored, None, 0).is_empty());
    assert_eq!(plain(&paginate_ids(&env, &stored, Some(118), 10)), vec![119, 120]);
    assert!(paginate_ids(&env, &stored, Some(120), 10).is_empty());
    assert!(paginate_ids(&env, &list(&env, &[]), None, 10).is_empty());
    assert!(paginate_ids(&env, &list(&env, &[]), Some(1), 10).is_empty());
}

#[test]
fn pages_join_up() {
    let env = Env::default();
    let ids: Vec<u64> = (1..=120).map(|i| i * 3).collect();
    let stored = list(&env, &ids);
    let mut cursor = None;
    let mut walked: Vec<u64> = vec![];
    loop {
        let page = plain(&paginate_ids(&env, &stored, cursor, 7));
        if page.is_empty() {
            break;
        }
        cursor = page.last().copied();
        walked.extend(page);
    }
    assert_eq!(walked, ids);
    // A cursor need not be on the list.
    assert_eq!(plain(&paginate_ids(&env, &stored, Some(4), 2)), vec![6, 9]);
}

#[test]
fn pages_go_by_position() {
    let env = Env::default();
    let stored = list(&env, &[2, 1]);
    assert_eq!(plain(&paginate_ids(&env, &stored, Some(2), 10)), vec![1]);
    assert!(paginate_ids(&env, &stored, Some(1), 10).is_empty());

    let ids = [7, 3, 9, 1, 8];
    let stored = list(&env, &ids);
    let mut cursor = None;
    let mut walked: Vec<u64> = vec![];
    loop {
        let page = plain(&paginate_ids(&env, &stored, cursor, 2));
        if page.is_empty() {
            break;
        }
        cursor = page.last().copied();
        walked.extend(page);
    }
    assert_eq!(walked, ids.to_vec());
}

#[test]
fn repeats_of_the_cursor_are_skipped() {
    let env = Env::default();
    let stored = list(&env, &[1, 1, 2]);
    assert_eq!(plain(&paginate_ids(&env, &stored, Some(1), 10)), vec![2]);
    assert_eq!(plain(&paginate_ids(&env, &stored, Some(1), 1)), vec![2]);
    assert_eq!(plain(&paginate_ids(&env, &list(&env, &[3, 3]), Some(3), 5)), vec![]);
    let stored = list(&env, &[5, 1, 1, 2, 1]);
    assert_eq!(plain(&paginate_ids(&env, &stored, Some(1), 10)), vec![2, 1]);
}

#[test]
fn one_removal_undoes_repeated_indexing() {
    let env = Env::default();
    let mut storage = Storage::new();
    index_by_beneficiary(&env, &mut storage, &account(1), 4);
    for _ in 0..5 {
        index_by_beneficiary(&env, &mut storage, &account(1), 9);
    }
    remove_beneficiary_index(&mut storage, &account(1), 9);
    assert_eq!(plain(&get_beneficiary_wills(&env, &storage, &account(1))), vec![4]);
}

#[test]
fn lost_cursor_goes_on_with_the_first_larger_id() {
    let env = Env::default();
    let stored = list(&env, &[2, 9, 1, 10]);
    assert_eq!(plain(&paginate_ids(&env, &stored, Some(5), 10)), vec![9, 1, 10]);
}

/// Saves and indexes a will of `account(1)` in favour of `beneficiary`.
fn create(env: &Env, storage: &mut Storage, beneficiary: Address) -> Will {
    let id = next_will_id(storage);
    let mut will = sample(id, WillStatus::Active);
    will.beneficiaries = vec![Beneficiary { address: beneficiary, percentage: 100 }];
    save_will(storage, &will);
    index_by_owner(env, storage, &will.owner, id);
    index_by_beneficiary(env, storage, &beneficiary, id);
    will
}

#[test]
fn test_get_wills_by_owner() {
    let env = Env::default();
    let mut storage = Storage::new();
    create(&env, &mut storage, account(5));
    create(&env, &mut storage, account(5));
    let wills = get_owner_wills(&env, &storage, &account(1));
    assert_eq!(wills.len(), 2);
}

#[test]
fn test_get_wills_by_beneficiary() {
    let env = Env::default();
    let mut storage = Storage::new();
    let will = create(&env, &mut storage, account(5));
    let wills = get_beneficiary_wills(&env, &storage, &account(5));
    assert_eq!(wills.len(), 1);
    assert_eq!(load_will(&storage, wills.get(0).unwrap()).unwrap().id, will.id);
}

#[test]
fn replacement_keeps_the_index_in_step() {
    let env = Env::default();
    let mut storage = Storage::new();
    create(&env, &mut storage, account(5));
    let mut will = create(&env, &mut storage, account(5));
    let first = vec![
        Beneficiary { address: account(5), percentage: 40 },
        Beneficiary { address: account(6), percentage: 60 },
    ];
    replace_beneficiaries(&env, &mut storage, &will, first.clone());
    assert_eq!(plain(&get_beneficiary_wills(&env, &storage, &account(5))), vec![1, 2]);
    assert_eq!(plain(&get_beneficiary_wills(&env, &storage, &account(6))), vec![2]);

    will = load_will(&storage, 2).unwrap();
    assert_eq!(will.beneficiaries, first);
    let writes = storage.writes().len();
    replace_beneficiaries(
        &env,
        &mut storage,
        &will,
        vec![
            Beneficiary { address: account(6), percentage: 1 },
            Beneficiary { address: account(7), percentage: 99 },
        ],
    );
    assert_eq!(plain(&get_beneficiary_wills(&env, &storage, &account(5))), vec![1]);
    assert_eq!(plain(&get_beneficiary_wills(&env, &storage, &account(6))), vec![2]);
    assert_eq!(plain(&get_beneficiary_wills(&env, &storage, &account(7))), vec![2]);
    // Nothing is written for the beneficiary that stays.
    let (dropped, added) =
        (DataKey::BeneficiaryWills(account(5)), DataKey::BeneficiaryWills(account(7)));
    assert_eq!(
        storage.writes()[writes..],
        [
            Write::Put(dropped),
            Write::Put(added),
            renewal(added),
            Write::Put(DataKey::Will(2)),
            renewal(DataKey::Will(2)),
        ]
    );
}

#[test]
fn lists_of_other_values_are_recognised() {
    let env = Env::default();
    assert!(is_id_list(&list(&env, &[1, u64::MAX])));
    assert!(is_id_list(&list(&env, &[])));
    let words: soroban_sdk::Vec<u32> = soroban_sdk::Vec::from_slice(&env, &[1, 2]);
    let disguised = soroban_sdk::Vec::<u64>::try_from_val(&env, &words.to_val()).unwrap();
    assert!(!is_id_list(&disguised));
}
