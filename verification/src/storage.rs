//! The ledger entries of the multi-will layout.
//!
//! All will state lives in entries keyed by a [`DataKey`]. Owner and
//! beneficiary indexes are kept as lists of will identifiers, so that the
//! wills of an address can be listed without an off-chain indexer. Guardian
//! votes are kept per will and guardian, so that they can be cleared
//! independently when a voting cycle starts afresh.
//!
//! [`Storage`] holds the entries that a call works on as plain values, and
//! notes every change that the ledger is to make in turn.

use crate::address::Address;
use crate::errors::WillError;
use crate::ids::{
    copy_list, holds_ids, ids_of, list_find, list_get, list_has, list_len, list_push,
    list_remove_first, new_list, without_first,
};
use crate::storage_laws::{law_replacement_keeps_index_in_step, lemma_replacement_has_room};
use crate::types::{is_terminal, Beneficiary, Will, WillStatus, WillView};
use soroban_sdk::Env;
use vstd::prelude::*;

verus! {

/// A ledger closes roughly every 5 seconds, so this many close in a day.
pub const DAY_IN_LEDGERS: u32 = 17_280;

/// An entry's lifetime is extended once fewer than this many ledgers remain.
pub const LIFETIME_THRESHOLD: u32 = DAY_IN_LEDGERS * 30;

/// An entry's lifetime is extended to this many ledgers.
pub const BUMP_AMOUNT: u32 = DAY_IN_LEDGERS * 60;

/// Maximum number of identifiers returned per page.
pub const MAX_PAGE_SIZE: u32 = 50;

/// The key of an entry.
#[derive(Clone, Copy, Debug, PartialEq, Eq, Structural)]
pub enum DataKey {
    /// Monotonically increasing counter used to allocate will ids.
    NextWillId,
    /// Full state of a will, keyed by its id.
    Will(u64),
    /// List of will ids owned by an address.
    OwnerWills(Address),
    /// List of will ids an address is named as a beneficiary of.
    BeneficiaryWills(Address),
    /// Whether a guardian has already voted in the current trigger cycle.
    GuardianVote(u64, Address),
}

/// Where an entry lives.
#[derive(Clone, Copy, Debug, PartialEq, Eq, Structural)]
pub enum Durability {
    /// With the contract instance, and as long.
    Instance,
    /// On its own, with a lifetime of its own.
    Persistent,
}

/// The counter lives with the instance, everything else on its own.
pub open spec fn durability_of(key: DataKey) -> Durability {
    if key is NextWillId {
        Durability::Instance
    } else {
        Durability::Persistent
    }
}

impl DataKey {
    /// Where the entry with this key lives.
    pub fn durability(&self) -> (durability: Durability)
        ensures
            durability == durability_of(*self),
    {
        match self {
            DataKey::NextWillId => Durability::Instance,
            _ => Durability::Persistent,
        }
    }
}

/// The value of an entry.
#[derive(Debug)]
pub enum Value {
    Counter(u64),
    Will(Will),
    Ids(soroban_sdk::Vec<u64>),
    Vote(bool),
}

/// The value of an entry as a mathematical value.
pub enum ValueView {
    Counter(u64),
    Will(WillView),
    Ids(Seq<u64>),
    Vote(bool),
}

impl View for Value {
    type V = ValueView;

    open spec fn view(&self) -> ValueView {
        match *self {
            Value::Counter(count) => ValueView::Counter(count),
            Value::Will(will) => ValueView::Will(will@),
            Value::Ids(list) => ValueView::Ids(ids_of(list)),
            Value::Vote(voted) => ValueView::Vote(voted),
        }
    }
}

impl Value {
    /// Whether this is the kind of value that `key` stands for: a list holds
    /// nothing but identifiers, and a will is kept under its own.
    pub open spec fn fits(self, key: DataKey) -> bool {
        match key {
            DataKey::NextWillId => self is Counter,
            DataKey::Will(id) => self matches Value::Will(will) && will.id == id,
            DataKey::OwnerWills(_) => self matches Value::Ids(list) && holds_ids(list),
            DataKey::BeneficiaryWills(_) => self matches Value::Ids(list) && holds_ids(list),
            DataKey::GuardianVote(_, _) => self is Vote,
        }
    }
}

/// A change that the ledger is to make. A value that is to be set is found in
/// the storage under its key.
#[derive(Clone, Copy, Debug, PartialEq, Eq, Structural)]
pub enum Write {
    /// Store the entry.
    Put(DataKey),
    /// Extend the entry's lifetime to `extend_to` ledgers, once fewer than
    /// `threshold` remain.
    ExtendTtl { key: DataKey, threshold: u32, extend_to: u32 },
    /// Delete the entry.
    Remove(DataKey),
}

/// The request to keep an entry alive.
pub open spec fn renewal(key: DataKey) -> Write {
    Write::ExtendTtl { key, threshold: LIFETIME_THRESHOLD, extend_to: BUMP_AMOUNT }
}

/// The entries that a call works on, and the changes it has made so far.
pub struct Storage {
    entries: Vec<(DataKey, Value)>,
    journal: Vec<Write>,
}

/// A storage as a mathematical value.
pub struct StorageView {
    pub entries: Map<DataKey, ValueView>,
    pub journal: Seq<Write>,
}

/// Whether an entry with `key` is among `entries`.
spec fn listed(entries: Seq<(DataKey, Value)>, key: DataKey) -> bool {
    exists|i: int| 0 <= i < entries.len() && (#[trigger] entries[i]).0 == key
}

/// Where the entry with `key` is.
spec fn place(entries: Seq<(DataKey, Value)>, key: DataKey) -> int {
    choose|i: int| 0 <= i < entries.len() && (#[trigger] entries[i]).0 == key
}

/// The entries as a map.
spec fn as_map(entries: Seq<(DataKey, Value)>) -> Map<DataKey, ValueView> {
    Map::new(|key: DataKey| listed(entries, key), |key: DataKey| entries[place(entries, key)].1@)
}

/// Whether no key occurs twice.
spec fn distinct(entries: Seq<(DataKey, Value)>) -> bool {
    forall|i: int, j: int|
        0 <= i < entries.len() && 0 <= j < entries.len() && (#[trigger] entries[i]).0 == (
        #[trigger] entries[j]).0 ==> i == j
}

/// Whether every value is of the kind that its key stands for.
spec fn fitting(entries: Seq<(DataKey, Value)>) -> bool {
    forall|i: int|
        0 <= i < entries.len() ==> (#[trigger] entries[i]).1.fits(entries[i].0)
}

/// The entry at a place is what the map holds under its key.
proof fn lemma_as_map_at(entries: Seq<(DataKey, Value)>, i: int)
    requires
        distinct(entries),
        0 <= i < entries.len(),
    ensures
        as_map(entries).contains_key(entries[i].0),
        as_map(entries)[entries[i].0] == entries[i].1@,
{
    let at = place(entries, entries[i].0);
    assert(entries[at].0 == entries[i].0);
}

/// An entry more at the end is an insertion.
proof fn lemma_as_map_push(entries: Seq<(DataKey, Value)>, key: DataKey, value: Value)
    requires
        distinct(entries),
        !listed(entries, key),
    ensures
        distinct(entries.push((key, value))),
        as_map(entries.push((key, value))) == as_map(entries).insert(key, value@),
{
    let after = entries.push((key, value));
    assert(distinct(after)) by {
        assert forall|i: int, j: int|
            0 <= i < after.len() && 0 <= j < after.len() && (#[trigger] after[i]).0 == (
            #[trigger] after[j]).0 implies i == j by {
            if i < entries.len() {
                assert(after[i] == entries[i]);
            }
            if j < entries.len() {
                assert(after[j] == entries[j]);
            }
        }
    }
    assert forall|k: DataKey| as_map(after).contains_key(k) == as_map(entries).insert(
        key,
        value@,
    ).contains_key(k) by {
        if listed(entries, k) {
            let i = place(entries, k);
            assert(after[i] == entries[i]);
        }
        if k == key {
            assert(after[entries.len() as int].0 == key);
        }
        if listed(after, k) {
            let i = place(after, k);
            if i < entries.len() {
                assert(entries[i] == after[i]);
            }
        }
    }
    assert forall|k: DataKey| as_map(after).contains_key(k) implies #[trigger] as_map(after)[k]
        == as_map(entries).insert(key, value@)[k] by {
        let i = place(after, k);
        if i < entries.len() {
            assert(entries[i] == after[i]);
            lemma_as_map_at(entries, i);
        }
    }
    assert(as_map(after) =~= as_map(entries).insert(key, value@));
}

/// Taking out the entry at a place is a removal.
proof fn lemma_as_map_remove(entries: Seq<(DataKey, Value)>, at: int)
    requires
        distinct(entries),
        0 <= at < entries.len(),
    ensures
        distinct(entries.remove(at)),
        !listed(entries.remove(at), entries[at].0),
        as_map(entries.remove(at)) == as_map(entries).remove(entries[at].0),
{
    let after = entries.remove(at);
    let key = entries[at].0;
    assert forall|i: int| 0 <= i < after.len() implies #[trigger] after[i] == entries[
        if i < at { i } else { i + 1 }
    ] by {}
    assert(distinct(after)) by {
        assert forall|i: int, j: int|
            0 <= i < after.len() && 0 <= j < after.len() && (#[trigger] after[i]).0 == (
            #[trigger] after[j]).0 implies i == j by {
            assert(entries[if i < at { i } else { i + 1 }].0 == entries[
                if j < at { j } else { j + 1 }
            ].0);
        }
    }
    assert forall|k: DataKey| as_map(after).contains_key(k) == as_map(entries).remove(
        key,
    ).contains_key(k) by {
        if listed(after, k) {
            let i = place(after, k);
            assert(entries[if i < at { i } else { i + 1 }].0 == k);
        }
        if listed(entries, k) && k != key {
            let i = place(entries, k);
            assert(after[if i < at { i } else { i - 1 }] == entries[i]);
        }
    }
    assert(!as_map(entries).remove(key).contains_key(key));
    assert(!as_map(after).contains_key(key));
    assert forall|k: DataKey| as_map(after).contains_key(k) implies #[trigger] as_map(after)[k]
        == as_map(entries).remove(key)[k] by {
        let i = place(after, k);
        lemma_as_map_at(entries, if i < at { i } else { i + 1 });
    }
    assert(as_map(after) =~= as_map(entries).remove(key));
}

impl View for Storage {
    type V = StorageView;

    closed spec fn view(&self) -> StorageView {
        StorageView { entries: as_map(self.entries@), journal: self.journal@ }
    }
}

/// Whether a value is of the kind that `key` stands for.
pub open spec fn value_fits(key: DataKey, value: ValueView) -> bool {
    match key {
        DataKey::NextWillId => value is Counter,
        DataKey::Will(id) => value matches ValueView::Will(will) && will.id == id,
        DataKey::OwnerWills(_) => value is Ids,
        DataKey::BeneficiaryWills(_) => value is Ids,
        DataKey::GuardianVote(_, _) => value is Vote,
    }
}

impl StorageView {
    /// Whether every value is of the kind that its key stands for.
    pub open spec fn well_formed(self) -> bool {
        forall|key: DataKey|
            #![trigger self.entries.contains_key(key)]
            #![trigger self.entries[key]]
            self.entries.contains_key(key) ==> value_fits(key, self.entries[key])
    }

    /// The storage after `value` has been set under `key`, with or without a
    /// request to keep the entry alive.
    pub open spec fn set(self, key: DataKey, value: ValueView, renew: bool) -> StorageView {
        StorageView {
            entries: self.entries.insert(key, value),
            journal: if renew {
                self.journal.push(Write::Put(key)).push(renewal(key))
            } else {
                self.journal.push(Write::Put(key))
            },
        }
    }

    /// The storage after the entry with `key` has been deleted.
    pub open spec fn remove(self, key: DataKey) -> StorageView {
        StorageView {
            entries: self.entries.remove(key),
            journal: self.journal.push(Write::Remove(key)),
        }
    }
}

impl Storage {
    /// What holds of every storage: no key occurs twice, and every value is
    /// of the kind that its key stands for.
    pub closed spec fn well_formed(self) -> bool {
        &&& distinct(self.entries@)
        &&& fitting(self.entries@)
    }

    /// Every value in a well-formed storage is of the kind that its key
    /// stands for.
    pub proof fn law_values_fit_their_keys(&self)
        requires
            self.well_formed(),
        ensures
            self@.well_formed(),
    {
        assert forall|key: DataKey|
            #![trigger self@.entries.contains_key(key)]
            #![trigger self@.entries[key]]
            self@.entries.contains_key(key) implies value_fits(key, self@.entries[key]) by {
            let i = place(self.entries@, key);
            assert(self.entries@[i].1.fits(self.entries@[i].0));
        }
    }

    /// A storage that holds no entry.
    pub fn new() -> (storage: Self)
        ensures
            storage.well_formed(),
            storage@.entries == Map::<DataKey, ValueView>::empty(),
            storage@.journal == Seq::<Write>::empty(),
    {
        let storage = Storage { entries: Vec::new(), journal: Vec::new() };
        assert(storage@.entries =~= Map::<DataKey, ValueView>::empty());
        storage
    }

    /// Where the entry with `key` is.
    fn find(&self, key: DataKey) -> (at: Option<usize>)
        ensures
            match at {
                Some(i) => i < self.entries@.len() && self.entries@[i as int].0 == key,
                None => !listed(self.entries@, key),
            },
    {
        for i in 0..self.entries.len()
            invariant
                forall|j: int| 0 <= j < i ==> (#[trigger] self.entries@[j]).0 != key,
        {
            if self.entries[i].0 == key {
                return Some(i);
            }
        }
        None
    }

    /// The value under `key`, where there is one.
    pub fn entry(&self, key: DataKey) -> (value: Option<&Value>)
        requires
            self.well_formed(),
        ensures
            match value {
                Some(found) => {
                    &&& self@.entries.contains_key(key)
                    &&& found@ == self@.entries[key]
                    &&& found.fits(key)
                },
                None => !self@.entries.contains_key(key),
            },
    {
        match self.find(key) {
            Some(i) => {
                proof {
                    lemma_as_map_at(self.entries@, i as int);
                }
                Some(&self.entries[i].1)
            },
            None => None,
        }
    }

    /// Takes the entry with `key` out, where there is one.
    fn drop_entry(&mut self, key: DataKey)
        requires
            old(self).well_formed(),
        ensures
            final(self).well_formed(),
            !listed(final(self).entries@, key),
            final(self)@.entries == old(self)@.entries.remove(key),
            final(self)@.journal == old(self)@.journal,
    {
        let ghost before = self.entries@;
        match self.find(key) {
            Some(i) => {
                proof {
                    lemma_as_map_remove(before, i as int);
                }
                self.entries.remove(i);
                assert(self.entries@ =~= before.remove(i as int));
                assert forall|j: int| 0 <= j < self.entries@.len() implies (
                #[trigger] self.entries@[j]).1.fits(self.entries@[j].0) by {
                    assert(self.entries@[j] == before[if j < i { j } else { j + 1 }]);
                }
            },
            None => {
                assert(!as_map(before).contains_key(key));
                assert(as_map(before) =~= as_map(before).remove(key));
            },
        }
    }

    /// Takes up an entry as it is found on the ledger. This is no change that
    /// the ledger would have to make.
    pub fn load(&mut self, key: DataKey, value: Value)
        requires
            old(self).well_formed(),
            value.fits(key),
        ensures
            final(self).well_formed(),
            final(self)@.entries == old(self)@.entries.insert(key, value@),
            final(self)@.journal == old(self)@.journal,
    {
        self.drop_entry(key);
        let ghost before = self.entries@;
        proof {
            lemma_as_map_push(before, key, value);
        }
        self.entries.push((key, value));
        assert(fitting(self.entries@));
        assert(self@.entries =~= old(self)@.entries.insert(key, value@));
    }

    /// The changes that the ledger is to make, in order.
    pub fn writes(&self) -> (writes: &Vec<Write>)
        ensures
            writes@ == self@.journal,
    {
        &self.journal
    }

    /// Sets the value under `key`, with or without keeping the entry alive.
    fn set(&mut self, key: DataKey, value: Value, renew: bool)
        requires
            old(self).well_formed(),
            value.fits(key),
        ensures
            final(self).well_formed(),
            final(self)@ == old(self)@.set(key, value@, renew),
    {
        self.load(key, value);
        self.journal.push(Write::Put(key));
        if renew {
            self.journal.push(
                Write::ExtendTtl { key, threshold: LIFETIME_THRESHOLD, extend_to: BUMP_AMOUNT },
            );
        }
        assert(self@.journal =~= old(self)@.set(key, value@, renew).journal);
    }

    /// Deletes the entry with `key`.
    fn remove(&mut self, key: DataKey)
        requires
            old(self).well_formed(),
        ensures
            final(self).well_formed(),
            final(self)@ == old(self)@.remove(key),
    {
        self.drop_entry(key);
        self.journal.push(Write::Remove(key));
    }
}

/// The last will id that was allocated; zero before the first.
pub open spec fn last_will_id(storage: StorageView) -> u64 {
    if storage.entries.contains_key(DataKey::NextWillId) {
        storage.entries[DataKey::NextWillId]->Counter_0
    } else {
        0
    }
}

/// The storage after a will id has been allocated.
pub open spec fn with_next_id(storage: StorageView) -> StorageView {
    storage.set(
        DataKey::NextWillId,
        ValueView::Counter((last_will_id(storage) + 1) as u64),
        false,
    )
}

/// What `load_will` returns.
pub open spec fn stored_will(storage: StorageView, will_id: u64) -> Result<WillView, WillError> {
    if storage.entries.contains_key(DataKey::Will(will_id)) {
        Ok(storage.entries[DataKey::Will(will_id)]->Will_0)
    } else {
        Err(WillError::WillNotFound)
    }
}

/// The storage after a will has been saved: a terminal will is stored like any
/// other, but no longer kept alive.
pub open spec fn with_will(storage: StorageView, will: WillView) -> StorageView {
    storage.set(DataKey::Will(will.id), ValueView::Will(will), !is_terminal(will.status))
}

/// The list of will ids under `key`; empty where there is no entry.
pub open spec fn index_at(storage: StorageView, key: DataKey) -> Seq<u64> {
    if storage.entries.contains_key(key) {
        storage.entries[key]->Ids_0
    } else {
        Seq::empty()
    }
}

/// The storage after `will_id` has been put on the list under `key`: as it
/// was, where the list has it already.
pub open spec fn with_indexed(storage: StorageView, key: DataKey, will_id: u64) -> StorageView {
    let ids = index_at(storage, key);
    if ids.contains(will_id) {
        storage
    } else {
        storage.set(key, ValueView::Ids(ids.push(will_id)), true)
    }
}

/// The storage after `will_id` has been taken off the list under `key`: as it
/// was, where the list does not have it. The entry is not kept alive by this.
pub open spec fn without_indexed(storage: StorageView, key: DataKey, will_id: u64) -> StorageView {
    let ids = index_at(storage, key);
    if ids.contains(will_id) {
        storage.set(key, ValueView::Ids(without_first(ids, will_id)), false)
    } else {
        storage
    }
}

/// Whether `address` is one of the beneficiaries.
pub open spec fn names(beneficiaries: Seq<Beneficiary>, address: Address) -> bool {
    exists|i: int| 0 <= i < beneficiaries.len() && (#[trigger] beneficiaries[i]).address == address
}

/// The list of ids of the wills that name `beneficiary`.
pub open spec fn beneficiary_index(storage: StorageView, beneficiary: Address) -> Seq<u64> {
    index_at(storage, DataKey::BeneficiaryWills(beneficiary))
}

/// The storage after a will has been taken off the lists of those of its
/// beneficiaries that the new list `kept` drops, in order.
pub open spec fn without_dropped(
    storage: StorageView,
    will_id: u64,
    beneficiaries: Seq<Beneficiary>,
    kept: Seq<Beneficiary>,
) -> StorageView
    decreases beneficiaries.len(),
{
    if beneficiaries.len() == 0 {
        storage
    } else {
        let before = without_dropped(storage, will_id, beneficiaries.drop_last(), kept);
        let last = beneficiaries.last().address;
        if names(kept, last) {
            before
        } else {
            without_indexed(before, DataKey::BeneficiaryWills(last), will_id)
        }
    }
}

/// The storage after a will has been put on the lists of all `beneficiaries`,
/// in order.
pub open spec fn with_all_indexed(
    storage: StorageView,
    will_id: u64,
    beneficiaries: Seq<Beneficiary>,
) -> StorageView
    decreases beneficiaries.len(),
{
    if beneficiaries.len() == 0 {
        storage
    } else {
        with_indexed(
            with_all_indexed(storage, will_id, beneficiaries.drop_last()),
            DataKey::BeneficiaryWills(beneficiaries.last().address),
            will_id,
        )
    }
}

/// The storage after the beneficiaries of a will have been replaced: the will
/// is off the lists of those it no longer names, on the lists of those it
/// does, and saved.
pub open spec fn with_beneficiaries(
    storage: StorageView,
    will: WillView,
    list: Seq<Beneficiary>,
) -> StorageView {
    with_will(
        with_all_indexed(
            without_dropped(storage, will.id, will.beneficiaries, list),
            will.id,
            list,
        ),
        WillView { beneficiaries: list, ..will },
    )
}

/// Whether the lists of beneficiaries are in step with a will: it is on the
/// lists of those it names and on no other, and no list holds an id twice.
pub open spec fn index_in_step(storage: StorageView, will: WillView) -> bool {
    forall|address: Address| #[trigger]
        beneficiary_index(storage, address).no_duplicates() && (beneficiary_index(
            storage,
            address,
        ).contains(will.id) <==> names(will.beneficiaries, address))
}

/// Whether `will_id` can be put on the list under `key`: the host counts the
/// ids of a list in 32 bits.
pub open spec fn has_room(storage: StorageView, key: DataKey, will_id: u64) -> bool {
    index_at(storage, key).contains(will_id) || index_at(storage, key).len() < u32::MAX
}

/// Whether a guardian has voted in the current cycle of a will.
pub open spec fn has_voted(storage: StorageView, will_id: u64, guardian: Address) -> bool {
    let key = DataKey::GuardianVote(will_id, guardian);
    storage.entries.contains_key(key) && storage.entries[key]->Vote_0
}

/// The storage after a guardian's vote has been recorded.
pub open spec fn with_vote(storage: StorageView, will_id: u64, guardian: Address) -> StorageView {
    storage.set(DataKey::GuardianVote(will_id, guardian), ValueView::Vote(true), true)
}

/// The storage after the votes of all `guardians` have been deleted, in order.
pub open spec fn without_votes(
    storage: StorageView,
    will_id: u64,
    guardians: Seq<Address>,
) -> StorageView
    decreases guardians.len(),
{
    if guardians.len() == 0 {
        storage
    } else {
        without_votes(storage, will_id, guardians.drop_last()).remove(
            DataKey::GuardianVote(will_id, guardians.last()),
        )
    }
}

/// The storage after a will's votes have been reset: as it was, where the will
/// counts no vote.
pub open spec fn with_votes_reset(storage: StorageView, will: WillView) -> StorageView {
    if will.guardian_votes == 0 {
        storage
    } else {
        without_votes(storage, will.id, will.guardians)
    }
}

/// How many ids stand before the first one that is larger than `after`.
pub open spec fn leading(ids: Seq<u64>, after: u64) -> nat
    decreases ids.len(),
{
    if ids.len() == 0 || ids[0] > after {
        0
    } else {
        1 + leading(ids.drop_first(), after)
    }
}

/// How many times `id` stands at the front.
pub open spec fn repeats(ids: Seq<u64>, id: u64) -> nat
    decreases ids.len(),
{
    if ids.len() == 0 || ids[0] != id {
        0
    } else {
        1 + repeats(ids.drop_first(), id)
    }
}

/// How many ids a page skips: those up to and including the cursor, with the
/// repeats that follow it directly; where the list does not have it, those
/// before the first larger one.
pub open spec fn page_start(ids: Seq<u64>, cursor: Option<u64>) -> nat {
    match cursor {
        None => 0,
        Some(after) => if ids.contains(after) {
            let at = ids.index_of_first(after)->0;
            (at + repeats(ids.skip(at), after)) as nat
        } else {
            leading(ids, after)
        },
    }
}

/// The number of ids that a page may hold.
pub open spec fn page_size(limit: u32) -> nat {
    if limit < MAX_PAGE_SIZE {
        limit as nat
    } else {
        MAX_PAGE_SIZE as nat
    }
}

/// A page of ids: what follows the skipped ones, as far as the size allows.
pub open spec fn page(ids: Seq<u64>, cursor: Option<u64>, limit: u32) -> Seq<u64> {
    let rest = ids.skip(page_start(ids, cursor) as int);
    if rest.len() <= page_size(limit) {
        rest
    } else {
        rest.take(page_size(limit) as int)
    }
}

/// Allocates and returns the next available will id, starting at `1`.
pub fn next_will_id(storage: &mut Storage) -> (id: u64)
    requires
        old(storage).well_formed(),
        last_will_id(old(storage)@) < u64::MAX,
    ensures
        final(storage).well_formed(),
        id == last_will_id(old(storage)@) + 1,
        final(storage)@ == with_next_id(old(storage)@),
{
    let current: u64 = match storage.entry(DataKey::NextWillId) {
        Some(Value::Counter(count)) => *count,
        _ => 0,
    };
    let next: u64 = current + 1;
    storage.set(DataKey::NextWillId, Value::Counter(next), false);
    next
}

/// Persists a will's state, refreshing the lifetime of its entry unless the
/// will has reached a terminal state.
///
/// Nothing can ever change a `Released` or `Cancelled` will again, so keeping
/// its entry alive would buy rent for something that is only read. The entry
/// is still written: readers see the final state for as long as the lifetime
/// bought by the will's last active operation lasts.
pub fn save_will(storage: &mut Storage, will: &Will)
    requires
        old(storage).well_formed(),
    ensures
        final(storage).well_formed(),
        final(storage)@ == with_will(old(storage)@, will@),
{
    let key = DataKey::Will(will.id);
    let renew = match will.status {
        WillStatus::Released => false,
        WillStatus::Cancelled => false,
        _ => true,
    };
    let copy = will.clone();
    assert(copy@.id == will@.id);
    storage.set(key, Value::Will(copy), renew);
}

/// Loads a will by id, or says that it does not exist.
pub fn load_will(storage: &Storage, will_id: u64) -> (will: Result<Will, WillError>)
    requires
        storage.well_formed(),
    ensures
        match stored_will(storage@, will_id) {
            Ok(stored) => will matches Ok(copy) && copy@ == stored,
            Err(error) => will == Err::<Will, WillError>(error),
        },
{
    match storage.entry(DataKey::Will(will_id)) {
        Some(Value::Will(will)) => Ok(will.clone()),
        _ => Err(WillError::WillNotFound),
    }
}

/// Adds `will_id` to the list stored under `key`, if not already present.
///
/// Where it is, nothing is written: the entry would be the same.
fn index_push(env: &Env, storage: &mut Storage, key: DataKey, will_id: u64)
    requires
        old(storage).well_formed(),
        key is OwnerWills || key is BeneficiaryWills,
        has_room(old(storage)@, key, will_id),
    ensures
        final(storage).well_formed(),
        final(storage)@ == with_indexed(old(storage)@, key, will_id),
{
    let mut ids = read_ids(env, storage, key);
    if !list_has(&ids, will_id) {
        list_push(&mut ids, will_id);
        storage.set(key, Value::Ids(ids), true);
    }
}

/// The list stored under `key`; an empty one where there is none.
fn read_ids(env: &Env, storage: &Storage, key: DataKey) -> (ids: soroban_sdk::Vec<u64>)
    requires
        storage.well_formed(),
        key is OwnerWills || key is BeneficiaryWills,
    ensures
        holds_ids(ids),
        ids_of(ids) == index_at(storage@, key),
{
    match storage.entry(key) {
        Some(Value::Ids(list)) => copy_list(list),
        _ => new_list(env),
    }
}

/// Adds `will_id` to the index of wills owned by `owner`, if not already present.
pub fn index_by_owner(env: &Env, storage: &mut Storage, owner: &Address, will_id: u64)
    requires
        old(storage).well_formed(),
        has_room(old(storage)@, DataKey::OwnerWills(*owner), will_id),
    ensures
        final(storage).well_formed(),
        final(storage)@ == with_indexed(old(storage)@, DataKey::OwnerWills(*owner), will_id),
{
    index_push(env, storage, DataKey::OwnerWills(*owner), will_id);
}

/// Adds `will_id` to the index of wills `beneficiary` is named in, if not already present.
pub fn index_by_beneficiary(env: &Env, storage: &mut Storage, beneficiary: &Address, will_id: u64)
    requires
        old(storage).well_formed(),
        has_room(old(storage)@, DataKey::BeneficiaryWills(*beneficiary), will_id),
    ensures
        final(storage).well_formed(),
        final(storage)@ == with_indexed(
            old(storage)@,
            DataKey::BeneficiaryWills(*beneficiary),
            will_id,
        ),
{
    index_push(env, storage, DataKey::BeneficiaryWills(*beneficiary), will_id);
}

/// Removes `will_id` from the index of wills `beneficiary` is named in.
///
/// Used by [`replace_beneficiaries`] to keep the reverse index accurate when a
/// beneficiary is dropped from a will. Where the index does not have the id,
/// nothing is written: an address that was never indexed costs a read and no
/// more.
pub fn remove_beneficiary_index(storage: &mut Storage, beneficiary: &Address, will_id: u64)
    requires
        old(storage).well_formed(),
    ensures
        final(storage).well_formed(),
        final(storage)@ == without_indexed(
            old(storage)@,
            DataKey::BeneficiaryWills(*beneficiary),
            will_id,
        ),
{
    let key = DataKey::BeneficiaryWills(*beneficiary);
    let mut ids = match storage.entry(key) {
        Some(Value::Ids(list)) => copy_list(list),
        _ => {
            return ;
        },
    };
    if list_remove_first(&mut ids, will_id) {
        storage.set(key, Value::Ids(ids), false);
    }
}

/// Whether `address` is one of the beneficiaries.
fn list_names(beneficiaries: &Vec<Beneficiary>, address: &Address) -> (found: bool)
    ensures
        found == names(beneficiaries@, *address),
{
    for i in 0..beneficiaries.len()
        invariant
            forall|j: int| 0 <= j < i ==> (#[trigger] beneficiaries@[j]).address != *address,
    {
        if beneficiaries[i].address == *address {
            return true;
        }
    }
    false
}

/// Saves `will` with `list` in place of its beneficiaries, and keeps the
/// reverse index in step: the will is taken off the index of every beneficiary
/// that is dropped, and put on the index of every one that is named now.
pub fn replace_beneficiaries(
    env: &Env,
    storage: &mut Storage,
    will: &Will,
    list: Vec<Beneficiary>,
)
    requires
        old(storage).well_formed(),
        forall|i: int|
            0 <= i < list@.len() ==> has_room(
                old(storage)@,
                DataKey::BeneficiaryWills((#[trigger] list@[i]).address),
                will.id,
            ),
    ensures
        final(storage).well_formed(),
        final(storage)@ == with_beneficiaries(old(storage)@, will@, list@),
        index_in_step(old(storage)@, will@) ==> {
            &&& forall|address: Address|
                (#[trigger] beneficiary_index(final(storage)@, address)).contains(will.id)
                    <==> names(list@, address)
            &&& forall|address: Address, id: u64|
                id != will.id ==> (#[trigger] beneficiary_index(
                    final(storage)@,
                    address,
                ).contains(id) <==> beneficiary_index(old(storage)@, address).contains(id))
            &&& index_in_step(final(storage)@, (WillView { beneficiaries: list@, ..will@ }))
        },
{
    let old_list = &will.beneficiaries;
    let ghost start = storage@;
    for i in 0..old_list.len()
        invariant
            storage.well_formed(),
            storage@ == without_dropped(start, will.id, old_list@.take(i as int), list@),
    {
        let address = old_list[i].address;
        assert(old_list@.take(i + 1).drop_last() =~= old_list@.take(i as int));
        if !list_names(&list, &address) {
            remove_beneficiary_index(storage, &address, will.id);
        }
    }
    assert(old_list@.take(old_list@.len() as int) =~= old_list@);
    let ghost cleared = storage@;
    for i in 0..list.len()
        invariant
            storage.well_formed(),
            old_list@ == will@.beneficiaries,
            cleared == without_dropped(start, will.id, old_list@, list@),
            storage@ == with_all_indexed(cleared, will.id, list@.take(i as int)),
            forall|j: int|
                0 <= j < list@.len() ==> has_room(
                    start,
                    DataKey::BeneficiaryWills((#[trigger] list@[j]).address),
                    will.id,
                ),
    {
        proof {
            lemma_replacement_has_room(start, will.id, old_list@, list@, i as int);
            assert(list@.take(i + 1).drop_last() =~= list@.take(i as int));
        }
        index_by_beneficiary(env, storage, &list[i].address, will.id);
    }
    assert(list@.take(list@.len() as int) =~= list@);
    let mut changed = will.clone();
    changed.beneficiaries = list;
    save_will(storage, &changed);
    proof {
        assert(changed@ == (WillView { beneficiaries: list@, ..will@ }));
        if index_in_step(start, will@) {
            law_replacement_keeps_index_in_step(start, will@, list@);
        }
    }
}

/// Returns the list of will ids owned by `owner`.
pub fn get_owner_wills(env: &Env, storage: &Storage, owner: &Address) -> (ids: soroban_sdk::Vec<
    u64,
>)
    requires
        storage.well_formed(),
    ensures
        holds_ids(ids),
        ids_of(ids) == index_at(storage@, DataKey::OwnerWills(*owner)),
{
    read_ids(env, storage, DataKey::OwnerWills(*owner))
}

/// Returns the list of will ids `beneficiary` is named in.
pub fn get_beneficiary_wills(
    env: &Env,
    storage: &Storage,
    beneficiary: &Address,
) -> (ids: soroban_sdk::Vec<u64>)
    requires
        storage.well_formed(),
    ensures
        holds_ids(ids),
        ids_of(ids) == index_at(storage@, DataKey::BeneficiaryWills(*beneficiary)),
{
    read_ids(env, storage, DataKey::BeneficiaryWills(*beneficiary))
}

/// Returns whether `guardian` has already voted in the current trigger cycle for `will_id`.
pub fn has_guardian_voted(storage: &Storage, will_id: u64, guardian: &Address) -> (voted: bool)
    requires
        storage.well_formed(),
    ensures
        voted == has_voted(storage@, will_id, *guardian),
{
    match storage.entry(DataKey::GuardianVote(will_id, *guardian)) {
        Some(Value::Vote(voted)) => *voted,
        _ => false,
    }
}

/// Records that `guardian` has voted in the current trigger cycle for `will_id`.
pub fn set_guardian_voted(storage: &mut Storage, will_id: u64, guardian: &Address)
    requires
        old(storage).well_formed(),
    ensures
        final(storage).well_formed(),
        final(storage)@ == with_vote(old(storage)@, will_id, *guardian),
{
    storage.set(DataKey::GuardianVote(will_id, *guardian), Value::Vote(true), true);
}

/// Clears all guardian votes cast against `will`, starting a fresh voting cycle.
///
/// `will.guardian_votes` goes up with every recorded vote and back to zero
/// with every reset, so a zero count means that no vote of the current
/// guardians is stored, and the removals are skipped.
pub fn reset_guardian_votes(storage: &mut Storage, will: &Will)
    requires
        old(storage).well_formed(),
    ensures
        final(storage).well_formed(),
        final(storage)@ == with_votes_reset(old(storage)@, will@),
{
    if will.guardian_votes == 0 {
        return ;
    }
    for i in 0..will.guardians.len()
        invariant
            storage.well_formed(),
            storage@ == without_votes(old(storage)@, will.id, will.guardians@.take(i as int)),
    {
        storage.remove(DataKey::GuardianVote(will.id, will.guardians[i]));
        assert(will.guardians@.take(i + 1).drop_last() =~= will.guardians@.take(i as int));
    }
    assert(will.guardians@.take(will.guardians@.len() as int) =~= will.guardians@);
}

/// Returns a bounded page of will ids from an index.
///
/// If `cursor` is `Some(id)`, results start *after* that id (exclusive), also
/// where it is repeated there; where the index no longer has it, with the first
/// larger one. `limit` is capped at [`MAX_PAGE_SIZE`].
pub fn paginate_ids(
    env: &Env,
    ids: &soroban_sdk::Vec<u64>,
    cursor: Option<u64>,
    limit: u32,
) -> (result: soroban_sdk::Vec<u64>)
    requires
        holds_ids(*ids),
    ensures
        holds_ids(result),
        ids_of(result) == page(ids_of(*ids), cursor, limit),
{
    let size: u32 = if limit < MAX_PAGE_SIZE {
        limit
    } else {
        MAX_PAGE_SIZE
    };
    let len: u32 = list_len(ids);
    let mut result = new_list(env);
    let mut start: u32 = 0;
    if let Some(after) = cursor {
        if let Some(at) = list_find(ids, after) {
            start = at;
            while start < len && list_get(ids, start) == after
                invariant
                    holds_ids(*ids),
                    len == ids_of(*ids).len(),
                    at <= start <= len,
                    at + repeats(ids_of(*ids).skip(at as int), after) == start + repeats(
                        ids_of(*ids).skip(start as int),
                        after,
                    ),
                ensures
                    start <= len,
                    start == at + repeats(ids_of(*ids).skip(at as int), after),
                decreases len - start,
            {
                assert(ids_of(*ids).skip(start as int).drop_first() =~= ids_of(*ids).skip(
                    start + 1,
                ));
                start = start + 1;
            }
        } else {
            assert(ids_of(*ids).skip(0) =~= ids_of(*ids));
            while start < len && list_get(ids, start) <= after
                invariant
                    holds_ids(*ids),
                    len == ids_of(*ids).len(),
                    start <= len,
                    leading(ids_of(*ids), after) == start + leading(
                        ids_of(*ids).skip(start as int),
                        after,
                    ),
                ensures
                    start <= len,
                    start == leading(ids_of(*ids), after),
                decreases len - start,
            {
                assert(ids_of(*ids).skip(start as int).drop_first() =~= ids_of(*ids).skip(
                    start + 1,
                ));
                start = start + 1;
            }
        }
    }
    let ghost rest = ids_of(*ids).skip(start as int);
    let mut i: u32 = start;
    while i < len && list_len(&result) < size
        invariant
            holds_ids(*ids),
            len == ids_of(*ids).len(),
            start <= i <= len,
            size == page_size(limit),
            i - start <= size,
            rest == ids_of(*ids).skip(start as int),
            holds_ids(result),
            ids_of(result) == rest.take(i - start),
        ensures
            i == len || i - start == size,
        decreases len - i,
    {
        list_push(&mut result, list_get(ids, i));
        assert(ids_of(result) =~= rest.take(i + 1 - start));
        i = i + 1;
    }
    assert(ids_of(result) =~= page(ids_of(*ids), cursor, limit));
    result
}

} // verus!
