//! What holds of the storage functions taken together.

use crate::address::Address;
use crate::errors::WillError;
use crate::storage::{
    beneficiary_index, has_room, has_voted, index_at, index_in_step, last_will_id, leading, names,
    page, page_size, page_start, renewal, repeats, stored_will, with_all_indexed,
    with_beneficiaries, with_indexed, with_next_id, with_vote, with_votes_reset, with_will,
    without_dropped, without_indexed, without_votes, DataKey, StorageView, Write, MAX_PAGE_SIZE,
};
use crate::types::{is_terminal, Beneficiary, WillView};
use vstd::prelude::*;

verus! {

/// Ids start at one and go up by one with every allocation, and nothing else
/// moves the counter.
pub proof fn law_ids_are_never_reused(
    storage: StorageView,
    will: WillView,
    key: DataKey,
    will_id: u64,
    guardian: Address,
)
    requires
        last_will_id(storage) < u64::MAX,
        key is OwnerWills || key is BeneficiaryWills,
    ensures
        last_will_id(with_next_id(storage)) == last_will_id(storage) + 1,
        last_will_id(with_next_id(storage)) >= 1,
        last_will_id(with_will(storage, will)) == last_will_id(storage),
        last_will_id(with_indexed(storage, key, will_id)) == last_will_id(storage),
        last_will_id(without_indexed(storage, key, will_id)) == last_will_id(storage),
        last_will_id(with_vote(storage, will_id, guardian)) == last_will_id(storage),
        last_will_id(with_votes_reset(storage, will)) == last_will_id(storage),
{
    lemma_without_votes(storage, will.id, will.guardians);
}

/// A saved will is what is loaded under its id; what is loaded under any other
/// id stays as it was.
pub proof fn law_saved_will_is_loaded(storage: StorageView, will: WillView, other_id: u64)
    ensures
        stored_will(with_will(storage, will), will.id) == Ok::<WillView, WillError>(will),
        other_id != will.id ==> stored_will(with_will(storage, will), other_id) == stored_will(
            storage,
            other_id,
        ),
{
}

/// Saving a will writes its entry once, and asks for a longer lifetime unless
/// the will is released or cancelled.
pub proof fn law_terminal_will_is_not_renewed(storage: StorageView, will: WillView)
    ensures
        is_terminal(will.status) ==> with_will(storage, will).journal == storage.journal.push(
            Write::Put(DataKey::Will(will.id)),
        ),
        !is_terminal(will.status) ==> with_will(storage, will).journal == storage.journal.push(
            Write::Put(DataKey::Will(will.id)),
        ).push(renewal(DataKey::Will(will.id))),
{
}

/// An indexed will is on the list, after what was there before; indexing it
/// again changes nothing; no list but the one under the key is touched.
pub proof fn law_indexed_will_is_listed_once(
    storage: StorageView,
    key: DataKey,
    will_id: u64,
    other: DataKey,
)
    ensures
        index_at(with_indexed(storage, key, will_id), key).contains(will_id),
        index_at(storage, key).is_prefix_of(index_at(with_indexed(storage, key, will_id), key)),
        index_at(storage, key).no_duplicates() ==> index_at(
            with_indexed(storage, key, will_id),
            key,
        ).no_duplicates(),
        forall|id: u64|
            id != will_id ==> (index_at(with_indexed(storage, key, will_id), key).contains(id)
                <==> index_at(storage, key).contains(id)),
        with_indexed(with_indexed(storage, key, will_id), key, will_id) == with_indexed(
            storage,
            key,
            will_id,
        ),
        other != key ==> with_indexed(storage, key, will_id).entries.contains_key(other)
            == storage.entries.contains_key(other) && with_indexed(
            storage,
            key,
            will_id,
        ).entries[other] == storage.entries[other],
{
    let ids = index_at(storage, key);
    let after = index_at(with_indexed(storage, key, will_id), key);
    if !ids.contains(will_id) {
        assert(after == ids.push(will_id));
        assert(after[ids.len() as int] == will_id);
        assert forall|id: u64| id != will_id implies (after.contains(id) <==> ids.contains(id)) by {
            if ids.contains(id) {
                let i = choose|i: int| 0 <= i < ids.len() && ids[i] == id;
                assert(after[i] == id);
            }
            if after.contains(id) {
                let i = choose|i: int| 0 <= i < after.len() && after[i] == id;
                assert(ids[i] == id);
            }
        }
        if ids.no_duplicates() {
            assert forall|i: int, j: int|
                0 <= i < after.len() && 0 <= j < after.len() && i != j implies after[i]
                != after[j] by {
                if i < ids.len() && j < ids.len() {
                    assert(ids[i] != ids[j]);
                } else if i < ids.len() {
                    assert(ids.contains(ids[i]));
                } else {
                    assert(ids.contains(ids[j]));
                }
            }
        }
    }
}

/// Where a list holds nothing twice, a will that was taken off it is gone and
/// every other will stays.
pub proof fn law_removed_will_is_not_listed(storage: StorageView, key: DataKey, will_id: u64)
    requires
        index_at(storage, key).no_duplicates(),
    ensures
        !index_at(without_indexed(storage, key, will_id), key).contains(will_id),
        index_at(without_indexed(storage, key, will_id), key).no_duplicates(),
        forall|id: u64|
            id != will_id ==> (index_at(without_indexed(storage, key, will_id), key).contains(id)
                <==> index_at(storage, key).contains(id)),
{
    let ids = index_at(storage, key);
    let after = index_at(without_indexed(storage, key, will_id), key);
    if ids.contains(will_id) {
        ids.index_of_first_ensures(will_id);
        let at = ids.index_of_first(will_id)->0;
        assert(after == ids.remove(at));
        assert forall|i: int| 0 <= i < after.len() implies #[trigger] after[i] == ids[
            if i < at { i } else { i + 1 }
        ] by {}
        assert forall|id: u64| id != will_id implies (after.contains(id) <==> ids.contains(id)) by {
            if ids.contains(id) {
                let i = choose|i: int| 0 <= i < ids.len() && ids[i] == id;
                assert(after[if i < at { i } else { i - 1 }] == id);
            }
            if after.contains(id) {
                let i = choose|i: int| 0 <= i < after.len() && after[i] == id;
                assert(ids[if i < at { i } else { i + 1 }] == id);
            }
        }
        if after.contains(will_id) {
            let i = choose|i: int| 0 <= i < after.len() && after[i] == will_id;
            assert(ids[if i < at { i } else { i + 1 }] == ids[at]);
        }
    }
}

/// Taking a will off a list undoes putting it there.
pub proof fn law_removal_undoes_indexing(storage: StorageView, key: DataKey, will_id: u64)
    requires
        !index_at(storage, key).contains(will_id),
    ensures
        index_at(without_indexed(with_indexed(storage, key, will_id), key, will_id), key)
            == index_at(storage, key),
{
    let ids = index_at(storage, key);
    let pushed = ids.push(will_id);
    assert(pushed[ids.len() as int] == will_id);
    assert(pushed.contains(will_id));
    pushed.index_of_first_ensures(will_id);
    let at = pushed.index_of_first(will_id)->0;
    if at < ids.len() {
        assert(ids[at] == will_id);
    }
    assert(pushed.remove(at) =~= ids);
}

/// The storage after a will has been put on a list a number of times.
pub open spec fn indexed_times(
    storage: StorageView,
    key: DataKey,
    will_id: u64,
    times: nat,
) -> StorageView
    decreases times,
{
    if times == 0 {
        storage
    } else {
        with_indexed(indexed_times(storage, key, will_id, (times - 1) as nat), key, will_id)
    }
}

/// One removal undoes any number of repeated insertions.
pub proof fn law_one_removal_undoes_repeated_indexing(
    storage: StorageView,
    key: DataKey,
    will_id: u64,
    times: nat,
)
    requires
        !index_at(storage, key).contains(will_id),
        times >= 1,
    ensures
        indexed_times(storage, key, will_id, times) == with_indexed(storage, key, will_id),
        index_at(
            without_indexed(indexed_times(storage, key, will_id, times), key, will_id),
            key,
        ) == index_at(storage, key),
    decreases times,
{
    law_removal_undoes_indexing(storage, key, will_id);
    if times > 1 {
        law_one_removal_undoes_repeated_indexing(storage, key, will_id, (times - 1) as nat);
        law_indexed_will_is_listed_once(storage, key, will_id, key);
    } else {
        assert(indexed_times(storage, key, will_id, 0) == storage);
    }
}

/// Indexing a listed will, and taking off one that is not listed, write
/// nothing at all.
pub proof fn law_index_writes_only_changes(storage: StorageView, key: DataKey, will_id: u64)
    ensures
        index_at(storage, key).contains(will_id) ==> with_indexed(storage, key, will_id)
            == storage,
        !index_at(storage, key).contains(will_id) ==> without_indexed(storage, key, will_id)
            == storage,
{
}

/// A list of increasing ids stays so when a freshly allocated id, larger than
/// all of them, is put on it.
pub proof fn law_fresh_ids_keep_lists_increasing(storage: StorageView, key: DataKey)
    requires
        increasing(index_at(storage, key)),
        last_will_id(storage) < u64::MAX,
        key is OwnerWills || key is BeneficiaryWills,
        forall|i: int|
            0 <= i < index_at(storage, key).len() ==> (#[trigger] index_at(storage, key)[i])
                <= last_will_id(storage),
    ensures
        ({
            let id = (last_will_id(storage) + 1) as u64;
            let after = with_indexed(with_next_id(storage), key, id);
            &&& increasing(index_at(after, key))
            &&& index_at(after, key) == index_at(storage, key).push(id)
        }),
{
    let id = (last_will_id(storage) + 1) as u64;
    let ids = index_at(storage, key);
    assert(index_at(with_next_id(storage), key) == ids);
    assert(!ids.contains(id));
}

/// What taking a will off the lists of dropped beneficiaries does to the list
/// of one address.
proof fn lemma_without_dropped(
    storage: StorageView,
    will_id: u64,
    beneficiaries: Seq<Beneficiary>,
    kept: Seq<Beneficiary>,
    address: Address,
)
    ensures
        ({
            let before = beneficiary_index(storage, address);
            let after = beneficiary_index(
                without_dropped(storage, will_id, beneficiaries, kept),
                address,
            );
            &&& names(kept, address) || !names(beneficiaries, address) ==> after == before
            &&& before.no_duplicates() ==> {
                &&& after.no_duplicates()
                &&& names(beneficiaries, address) && !names(kept, address) ==> !after.contains(
                    will_id,
                )
                &&& forall|id: u64|
                    id != will_id ==> (#[trigger] after.contains(id) <==> before.contains(id))
            }
        }),
    decreases beneficiaries.len(),
{
    if beneficiaries.len() > 0 {
        let front = beneficiaries.drop_last();
        let last = beneficiaries.last().address;
        lemma_without_dropped(storage, will_id, front, kept, address);
        let between = without_dropped(storage, will_id, front, kept);
        let key = DataKey::BeneficiaryWills(address);
        if names(front, address) {
            let i = choose|i: int| 0 <= i < front.len() && (#[trigger] front[i]).address == address;
            assert(beneficiaries[i].address == address);
        }
        if names(beneficiaries, address) && !names(front, address) {
            let i = choose|i: int|
                0 <= i < beneficiaries.len() && (#[trigger] beneficiaries[i]).address == address;
            if i < front.len() {
                assert(front[i].address == address);
            }
            assert(last == address);
        }
        if last == address {
            assert(beneficiaries[beneficiaries.len() - 1].address == address);
            if index_at(between, key).no_duplicates() {
                law_removed_will_is_not_listed(between, key, will_id);
            }
        }
    }
}

/// What putting a will on the lists of beneficiaries does to the list of one
/// address.
proof fn lemma_with_all_indexed(
    storage: StorageView,
    will_id: u64,
    beneficiaries: Seq<Beneficiary>,
    address: Address,
)
    ensures
        ({
            let before = beneficiary_index(storage, address);
            let after = beneficiary_index(
                with_all_indexed(storage, will_id, beneficiaries),
                address,
            );
            &&& names(beneficiaries, address) ==> after.contains(will_id)
            &&& after == before || after.contains(will_id)
            &&& !names(beneficiaries, address) ==> after == before
            &&& before.no_duplicates() ==> after.no_duplicates()
            &&& forall|id: u64|
                id != will_id ==> (#[trigger] after.contains(id) <==> before.contains(id))
        }),
    decreases beneficiaries.len(),
{
    if beneficiaries.len() > 0 {
        let front = beneficiaries.drop_last();
        let last = beneficiaries.last().address;
        lemma_with_all_indexed(storage, will_id, front, address);
        let between = with_all_indexed(storage, will_id, front);
        let key = DataKey::BeneficiaryWills(address);
        if names(front, address) {
            let i = choose|i: int| 0 <= i < front.len() && (#[trigger] front[i]).address == address;
            assert(beneficiaries[i].address == address);
        }
        if names(beneficiaries, address) && !names(front, address) {
            let i = choose|i: int|
                0 <= i < beneficiaries.len() && (#[trigger] beneficiaries[i]).address == address;
            if i < front.len() {
                assert(front[i].address == address);
            }
            assert(last == address);
        }
        if last == address {
            assert(beneficiaries[beneficiaries.len() - 1].address == address);
            law_indexed_will_is_listed_once(between, key, will_id, key);
        }
    }
}

/// While beneficiaries are being replaced, the list of the next one has room
/// if it had room at first.
pub(crate) proof fn lemma_replacement_has_room(
    storage: StorageView,
    will_id: u64,
    beneficiaries: Seq<Beneficiary>,
    list: Seq<Beneficiary>,
    i: int,
)
    requires
        0 <= i < list.len(),
        has_room(storage, DataKey::BeneficiaryWills(list[i].address), will_id),
    ensures
        has_room(
            with_all_indexed(
                without_dropped(storage, will_id, beneficiaries, list),
                will_id,
                list.take(i),
            ),
            DataKey::BeneficiaryWills(list[i].address),
            will_id,
        ),
{
    let address = list[i].address;
    assert(names(list, address));
    lemma_without_dropped(storage, will_id, beneficiaries, list, address);
    lemma_with_all_indexed(
        without_dropped(storage, will_id, beneficiaries, list),
        will_id,
        list.take(i),
        address,
    );
}

/// Replacing the beneficiaries of a will keeps the reverse index in step with
/// it: afterwards the will is on the lists of exactly those it names now. Which
/// other wills each list holds does not change, and the will is loaded with
/// its new beneficiaries.
pub proof fn law_replacement_keeps_index_in_step(
    storage: StorageView,
    will: WillView,
    list: Seq<Beneficiary>,
)
    requires
        index_in_step(storage, will),
    ensures
        index_in_step(
            with_beneficiaries(storage, will, list),
            (WillView { beneficiaries: list, ..will }),
        ),
        forall|address: Address|
            (#[trigger] beneficiary_index(
                with_beneficiaries(storage, will, list),
                address,
            )).contains(will.id) <==> names(list, address),
        forall|address: Address, id: u64|
            id != will.id ==> (#[trigger] beneficiary_index(
                with_beneficiaries(storage, will, list),
                address,
            ).contains(id) <==> beneficiary_index(storage, address).contains(id)),
        stored_will(with_beneficiaries(storage, will, list), will.id) == Ok::<WillView, WillError>(
            WillView { beneficiaries: list, ..will },
        ),
{
    let after = with_beneficiaries(storage, will, list);
    let cleared = without_dropped(storage, will.id, will.beneficiaries, list);
    assert forall|address: Address|
        {
            let index = #[trigger] beneficiary_index(after, address);
            &&& index.no_duplicates()
            &&& (index.contains(will.id) <==> names(list, address))
            &&& forall|id: u64|
                id != will.id ==> (#[trigger] index.contains(id) <==> beneficiary_index(
                    storage,
                    address,
                ).contains(id))
        } by {
        assert(beneficiary_index(storage, address).no_duplicates());
        lemma_without_dropped(storage, will.id, will.beneficiaries, list, address);
        lemma_with_all_indexed(cleared, will.id, list, address);
        assert(beneficiary_index(after, address) == beneficiary_index(
            with_all_indexed(cleared, will.id, list),
            address,
        ));
    }
}

/// Taking a will off lists of beneficiaries, and putting it on some, touches
/// no other entry.
proof fn lemma_lists_alone_change(
    storage: StorageView,
    will_id: u64,
    beneficiaries: Seq<Beneficiary>,
    kept: Seq<Beneficiary>,
    key: DataKey,
)
    requires
        !(key is BeneficiaryWills),
    ensures
        ({
            let after = without_dropped(storage, will_id, beneficiaries, kept);
            &&& after.entries.contains_key(key) == storage.entries.contains_key(key)
            &&& after.entries[key] == storage.entries[key]
        }),
        ({
            let after = with_all_indexed(storage, will_id, beneficiaries);
            &&& after.entries.contains_key(key) == storage.entries.contains_key(key)
            &&& after.entries[key] == storage.entries[key]
        }),
    decreases beneficiaries.len(),
{
    if beneficiaries.len() > 0 {
        lemma_lists_alone_change(storage, will_id, beneficiaries.drop_last(), kept, key);
    }
}

/// Replacing the beneficiaries of a will touches the will and the lists of
/// beneficiaries alone: the counter, other wills, the lists of owners and the
/// votes stay as they are.
pub proof fn law_replacement_touches_nothing_else(
    storage: StorageView,
    will: WillView,
    list: Seq<Beneficiary>,
    key: DataKey,
)
    requires
        !(key is BeneficiaryWills),
        key != DataKey::Will(will.id),
    ensures
        ({
            let after = with_beneficiaries(storage, will, list);
            &&& after.entries.contains_key(key) == storage.entries.contains_key(key)
            &&& after.entries[key] == storage.entries[key]
        }),
{
    let cleared = without_dropped(storage, will.id, will.beneficiaries, list);
    lemma_lists_alone_change(storage, will.id, will.beneficiaries, list, key);
    lemma_lists_alone_change(cleared, will.id, list, list, key);
}

/// What deleting the votes of a list of guardians leaves.
proof fn lemma_without_votes(storage: StorageView, will_id: u64, guardians: Seq<Address>)
    ensures
        forall|key: DataKey|
            (forall|i: int|
                0 <= i < guardians.len() ==> key != DataKey::GuardianVote(
                    will_id,
                    #[trigger] guardians[i],
                )) ==> (#[trigger] without_votes(storage, will_id, guardians).entries.contains_key(
                key,
            ) == storage.entries.contains_key(key) && without_votes(
                storage,
                will_id,
                guardians,
            ).entries[key] == storage.entries[key]),
        forall|i: int|
            0 <= i < guardians.len() ==> !without_votes(
                storage,
                will_id,
                guardians,
            ).entries.contains_key(DataKey::GuardianVote(will_id, #[trigger] guardians[i])),
    decreases guardians.len(),
{
    if guardians.len() > 0 {
        let front = guardians.drop_last();
        lemma_without_votes(storage, will_id, front);
        let before = without_votes(storage, will_id, front);
        let after = without_votes(storage, will_id, guardians);
        assert forall|key: DataKey|
            (forall|i: int|
                0 <= i < guardians.len() ==> key != DataKey::GuardianVote(
                    will_id,
                    #[trigger] guardians[i],
                )) implies (#[trigger] after.entries.contains_key(key)
            == storage.entries.contains_key(key) && after.entries[key]
            == storage.entries[key]) by {
            assert forall|i: int| 0 <= i < front.len() implies key != DataKey::GuardianVote(
                will_id,
                #[trigger] front[i],
            ) by {
                assert(front[i] == guardians[i]);
            }
            assert(before.entries.contains_key(key) == storage.entries.contains_key(key));
            assert(guardians.last() == guardians[guardians.len() - 1]);
        }
        assert forall|i: int| 0 <= i < guardians.len() implies !after.entries.contains_key(
            DataKey::GuardianVote(will_id, #[trigger] guardians[i]),
        ) by {
            if i < front.len() {
                assert(front[i] == guardians[i]);
            }
        }
    }
}

/// Whether the count of votes in a will is in step with the recorded votes: a
/// will that counts none has no vote of any of its guardians on record.
pub open spec fn votes_in_step(storage: StorageView, will: WillView) -> bool {
    will.guardian_votes == 0 ==> forall|i: int|
        0 <= i < will.guardians.len() ==> !has_voted(
            storage,
            will.id,
            #[trigger] will.guardians[i],
        )
}

/// A recorded vote is seen for that guardian and that will, and for no other.
pub proof fn law_vote_is_remembered(
    storage: StorageView,
    will_id: u64,
    guardian: Address,
    other_will: u64,
    other_guardian: Address,
)
    ensures
        has_voted(with_vote(storage, will_id, guardian), will_id, guardian),
        (other_will, other_guardian) != (will_id, guardian) ==> has_voted(
            with_vote(storage, will_id, guardian),
            other_will,
            other_guardian,
        ) == has_voted(storage, other_will, other_guardian),
{
}

/// After a reset none of the will's guardians has voted, so each may vote
/// again; the votes on other wills, and of addresses that are not its
/// guardians, stay.
pub proof fn law_reset_clears_votes(
    storage: StorageView,
    will: WillView,
    other_will: u64,
    address: Address,
)
    requires
        votes_in_step(storage, will),
    ensures
        will.guardians.contains(address) ==> !has_voted(
            with_votes_reset(storage, will),
            will.id,
            address,
        ),
        other_will != will.id || !will.guardians.contains(address) ==> has_voted(
            with_votes_reset(storage, will),
            other_will,
            address,
        ) == has_voted(storage, other_will, address),
{
    lemma_without_votes(storage, will.id, will.guardians);
    if will.guardians.contains(address) {
        let i = choose|i: int| 0 <= i < will.guardians.len() && will.guardians[i] == address;
        assert(will.guardians[i] == address);
    }
    let key = DataKey::GuardianVote(other_will, address);
    if other_will != will.id || !will.guardians.contains(address) {
        assert forall|i: int| 0 <= i < will.guardians.len() implies key != DataKey::GuardianVote(
            will.id,
            #[trigger] will.guardians[i],
        ) by {}
        assert(without_votes(storage, will.id, will.guardians).entries.contains_key(key)
            == storage.entries.contains_key(key));
    }
}

/// Recording a vote and resetting the votes leave wills and lists as they are.
pub proof fn law_votes_touch_nothing_else(
    storage: StorageView,
    will: WillView,
    guardian: Address,
    will_id: u64,
    key: DataKey,
)
    requires
        key is OwnerWills || key is BeneficiaryWills,
    ensures
        stored_will(with_vote(storage, will.id, guardian), will_id) == stored_will(
            storage,
            will_id,
        ),
        stored_will(with_votes_reset(storage, will), will_id) == stored_will(storage, will_id),
        index_at(with_vote(storage, will.id, guardian), key) == index_at(storage, key),
        index_at(with_votes_reset(storage, will), key) == index_at(storage, key),
{
    lemma_without_votes(storage, will.id, will.guardians);
    let reset = without_votes(storage, will.id, will.guardians);
    assert(reset.entries.contains_key(key) == storage.entries.contains_key(key));
    assert(reset.entries.contains_key(DataKey::Will(will_id)) == storage.entries.contains_key(
        DataKey::Will(will_id),
    ));
}

/// Whether every id is larger than those before it.
pub open spec fn increasing(ids: Seq<u64>) -> bool {
    forall|i: int, j: int| 0 <= i < j < ids.len() ==> ids[i] < ids[j]
}

/// Where the leading ids end: everything before is at most `after`, and what
/// stands there is above it.
proof fn lemma_leading(ids: Seq<u64>, after: u64)
    ensures
        leading(ids, after) <= ids.len(),
        forall|i: int| 0 <= i < leading(ids, after) ==> (#[trigger] ids[i]) <= after,
        leading(ids, after) < ids.len() ==> ids[leading(ids, after) as int] > after,
    decreases ids.len(),
{
    if ids.len() > 0 && ids[0] <= after {
        let tail = ids.drop_first();
        lemma_leading(tail, after);
        let start = leading(ids, after);
        assert forall|i: int| 0 <= i < start implies (#[trigger] ids[i]) <= after by {
            if i > 0 {
                assert(tail[i - 1] == ids[i]);
            }
        }
        if start < ids.len() {
            assert(tail[start - 1] == ids[start as int]);
        }
    }
}

/// Where the repeats end: everything before is `id`, and what stands there is
/// not.
proof fn lemma_repeats(ids: Seq<u64>, id: u64)
    ensures
        repeats(ids, id) <= ids.len(),
        ids.len() > 0 && ids[0] == id ==> repeats(ids, id) > 0,
        forall|i: int| 0 <= i < repeats(ids, id) ==> (#[trigger] ids[i]) == id,
        repeats(ids, id) < ids.len() ==> ids[repeats(ids, id) as int] != id,
    decreases ids.len(),
{
    if ids.len() > 0 && ids[0] == id {
        let tail = ids.drop_first();
        lemma_repeats(tail, id);
        let end = repeats(ids, id);
        assert forall|i: int| 0 <= i < end implies (#[trigger] ids[i]) == id by {
            if i > 0 {
                assert(tail[i - 1] == ids[i]);
            }
        }
        if end < ids.len() {
            assert(tail[end - 1] == ids[end as int]);
        }
    }
}

/// Where exactly a page starts.
pub(crate) proof fn lemma_page_start_exact(ids: Seq<u64>, cursor: Option<u64>)
    ensures
        page_start(ids, cursor) <= ids.len(),
        cursor is None ==> page_start(ids, cursor) == 0,
        cursor matches Some(after) ==> {
            let start = page_start(ids, cursor) as int;
            let at = ids.index_of_first(after)->0;
            if ids.contains(after) {
                &&& at < start
                &&& forall|i: int| at <= i < start ==> (#[trigger] ids[i]) == after
                &&& start < ids.len() ==> ids[start] != after
            } else {
                &&& forall|i: int| 0 <= i < start ==> (#[trigger] ids[i]) <= after
                &&& start < ids.len() ==> ids[start] > after
            }
        },
{
    if let Some(after) = cursor {
        lemma_leading(ids, after);
        if ids.contains(after) {
            ids.index_of_first_ensures(after);
            let at = ids.index_of_first(after)->0;
            let rest = ids.skip(at);
            let run = repeats(rest, after) as int;
            lemma_repeats(rest, after);
            assert(rest[0] == after);
            assert forall|i: int| at <= i < at + run implies (#[trigger] ids[i]) == after by {
                assert(rest[i - at] == ids[i]);
            }
            if run < rest.len() {
                assert(rest[run] == ids[at + run]);
            }
        }
    }
}

/// A page starts on the list or at its end, right behind the cursor where the
/// list has it, and never with it. On a list of increasing ids, everything
/// before is at most the cursor, and what stands there is above it.
proof fn lemma_page_start(ids: Seq<u64>, cursor: Option<u64>)
    ensures
        page_start(ids, cursor) <= ids.len(),
        cursor matches Some(after) ==> ids.contains(after) ==> {
            &&& page_start(ids, cursor) > 0
            &&& ids[page_start(ids, cursor) - 1] == after
            &&& page_start(ids, cursor) < ids.len() ==> ids[page_start(ids, cursor) as int] != after
        },
        increasing(ids) ==> (cursor matches Some(after) ==> {
            &&& forall|i: int| 0 <= i < page_start(ids, cursor) ==> (#[trigger] ids[i]) <= after
            &&& page_start(ids, cursor) < ids.len() ==> ids[page_start(ids, cursor) as int] > after
        }),
{
    if let Some(after) = cursor {
        lemma_leading(ids, after);
        if ids.contains(after) {
            ids.index_of_first_ensures(after);
            let at = ids.index_of_first(after)->0;
            let rest = ids.skip(at);
            let run = repeats(rest, after) as int;
            lemma_repeats(rest, after);
            assert(rest[0] == after);
            assert(rest[run - 1] == ids[at + run - 1]);
            if run < rest.len() {
                assert(rest[run] == ids[at + run]);
            }
        }
    }
}

/// No page is longer than the limit, nor than the maximum, and without a
/// cursor it starts at the front.
pub proof fn law_pages_are_bounded(ids: Seq<u64>, cursor: Option<u64>, limit: u32)
    ensures
        page(ids, cursor, limit).len() <= limit,
        page(ids, cursor, limit).len() <= MAX_PAGE_SIZE,
        cursor is None ==> page(ids, cursor, limit).is_prefix_of(ids),
{
    lemma_page_start(ids, cursor);
    if cursor is None {
        assert(page(ids, cursor, limit).is_prefix_of(ids)) by {
            assert(ids.skip(0) =~= ids);
            assert(page(ids, cursor, limit) =~= ids.subrange(
                0,
                page(ids, cursor, limit).len() as int,
            ));
        }
    }
}

/// The cursor is exclusive: no page starts with its cursor, and on a list that
/// holds nothing twice the cursor is nowhere on the page.
pub proof fn law_cursor_is_exclusive(ids: Seq<u64>, after: u64, limit: u32)
    ensures
        page(ids, Some(after), limit).len() > 0 ==> page(ids, Some(after), limit)[0] != after,
        ids.no_duplicates() ==> !page(ids, Some(after), limit).contains(after),
{
    lemma_page_start(ids, Some(after));
    let start = page_start(ids, Some(after)) as int;
    let found = page(ids, Some(after), limit);
    assert forall|i: int| 0 <= i < found.len() implies #[trigger] found[i] == ids[start + i] by {}
    if found.len() > 0 && !ids.contains(after) {
        assert(ids.contains(ids[start]));
    }
    if ids.no_duplicates() && found.contains(after) {
        let i = choose|i: int| 0 <= i < found.len() && found[i] == after;
        assert(ids[start + i] == after);
        assert(ids[start - 1] == after);
    }
}

/// On a list of increasing ids a page holds exactly ids above the cursor, in
/// order, leaving none out: it is cut short only by its size.
pub proof fn law_page_follows_cursor(ids: Seq<u64>, after: u64, limit: u32, id: u64)
    requires
        increasing(ids),
    ensures
        page(ids, Some(after), limit).contains(id) ==> ids.contains(id) && id > after,
        increasing(page(ids, Some(after), limit)),
        page(ids, Some(after), limit).len() < page_size(limit) && ids.contains(id) && id > after
            ==> page(ids, Some(after), limit).contains(id),
{
    lemma_page_start(ids, Some(after));
    let start = page_start(ids, Some(after)) as int;
    let found = page(ids, Some(after), limit);
    assert forall|i: int| 0 <= i < found.len() implies #[trigger] found[i] == ids[start + i] by {}
    if found.contains(id) {
        let i = choose|i: int| 0 <= i < found.len() && found[i] == id;
        assert(ids[start + i] == id);
        assert(ids[start] > after);
        if i > 0 {
            assert(ids[start] < ids[start + i]);
        }
    }
    assert forall|i: int, j: int| 0 <= i < j < found.len() implies found[i] < found[j] by {
        assert(ids[start + i] < ids[start + j]);
    }
    if found.len() < page_size(limit) && ids.contains(id) && id > after {
        let i = choose|i: int| 0 <= i < ids.len() && ids[i] == id;
        assert(i >= start);
        assert(found[i - start] == id);
    }
}

/// On a list that holds nothing twice, in whatever order, the page that is
/// asked for with the last id of a page as its cursor goes on exactly where
/// that page ended.
pub proof fn law_pages_join_up(ids: Seq<u64>, cursor: Option<u64>, limit: u32)
    requires
        ids.no_duplicates(),
        page(ids, cursor, limit).len() > 0,
    ensures
        page_start(ids, Some(page(ids, cursor, limit).last())) == page_start(ids, cursor) + page(
            ids,
            cursor,
            limit,
        ).len(),
{
    lemma_page_start(ids, cursor);
    let start = page_start(ids, cursor) as int;
    let found = page(ids, cursor, limit);
    let last = found.last();
    let end = start + found.len();
    assert(last == ids[end - 1]);
    assert(ids.contains(last));
    lemma_page_start(ids, Some(last));
    assert(ids[page_start(ids, Some(last)) - 1] == ids[end - 1]);
}

/// What a reader sees who asks for `pages` pages, each with the last id of the
/// one before as its cursor, and stops at an empty one.
pub open spec fn walk(ids: Seq<u64>, cursor: Option<u64>, limit: u32, pages: nat) -> Seq<u64>
    decreases pages,
{
    let found = page(ids, cursor, limit);
    if pages == 0 || found.len() == 0 {
        Seq::empty()
    } else {
        found + walk(ids, Some(found.last()), limit, (pages - 1) as nat)
    }
}

/// A walk over a list that holds nothing twice gives all that the cursor does
/// not skip.
proof fn lemma_walk(ids: Seq<u64>, cursor: Option<u64>, limit: u32, pages: nat)
    requires
        ids.no_duplicates(),
        limit > 0,
        page_start(ids, cursor) + pages >= ids.len(),
    ensures
        walk(ids, cursor, limit, pages) == ids.skip(page_start(ids, cursor) as int),
    decreases pages,
{
    lemma_page_start(ids, cursor);
    let start = page_start(ids, cursor) as int;
    let found = page(ids, cursor, limit);
    let rest = ids.skip(start);
    if pages == 0 || found.len() == 0 {
        assert(rest =~= Seq::<u64>::empty());
    } else {
        let next = Some(found.last());
        law_pages_join_up(ids, cursor, limit);
        lemma_walk(ids, next, limit, (pages - 1) as nat);
        assert(found + ids.skip(start + found.len()) =~= rest);
    }
}

/// Walking page by page over a list that holds nothing twice, long enough,
/// gives every id of the list once and in order, whatever the limit above
/// zero.
pub proof fn law_walk_lists_every_id(ids: Seq<u64>, limit: u32, pages: nat)
    requires
        ids.no_duplicates(),
        limit > 0,
        pages >= ids.len(),
    ensures
        walk(ids, None, limit, pages) == ids,
{
    lemma_walk(ids, None, limit, pages);
    assert(ids.skip(0) =~= ids);
}

} // verus!
