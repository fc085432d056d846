//! What each storage function does to the entries, and what it asks the ledger
//! to write, in terms of what goes in alone.

use crate::address::Address;
use crate::errors::WillError;
use crate::ids::{elements, holds_ids, ids_of};
use crate::storage::{
    beneficiary_index, durability_of, has_voted, index_at, index_in_step, last_will_id, names,
    page, page_start, stored_will, value_fits, with_all_indexed, with_beneficiaries, with_indexed,
    with_next_id, with_vote, with_votes_reset, with_will, without_dropped, without_indexed,
    without_votes, DataKey, Durability, StorageView, Value, ValueView, Write,
};
use crate::storage_laws::lemma_page_start_exact;
use crate::types::{Beneficiary, HashedBeneficiary, Will, WillStatus, WillView};
use vstd::prelude::*;

verus! {

/// The request to keep an entry alive for sixty days once fewer than thirty
/// remain, at 17_280 ledgers a day.
pub open spec fn kept_alive(key: DataKey) -> Write {
    Write::ExtendTtl { key, threshold: 518_400, extend_to: 1_036_800 }
}

/// The counter lives with the instance, every other entry on its own.
pub proof fn law_where_entries_live(key: DataKey)
    ensures
        durability_of(key) == Durability::Instance <==> key == DataKey::NextWillId,
        durability_of(key) == Durability::Persistent <==> key != DataKey::NextWillId,
{
}

/// `next_will_id` counts one up from what the counter holds, or from zero, and
/// writes the counter alone, once.
pub proof fn law_what_next_will_id_does(storage: StorageView, count: u64)
    requires
        last_will_id(storage) < u64::MAX,
    ensures
        storage.entries.contains_key(DataKey::NextWillId) && storage.entries[DataKey::NextWillId]
            == ValueView::Counter(count) ==> last_will_id(storage) == count,
        !storage.entries.contains_key(DataKey::NextWillId) ==> last_will_id(storage) == 0,
        with_next_id(storage).entries == storage.entries.insert(
            DataKey::NextWillId,
            ValueView::Counter((last_will_id(storage) + 1) as u64),
        ),
        with_next_id(storage).journal == storage.journal.push(Write::Put(DataKey::NextWillId)),
{
}

/// `save_will` stores the will under its id and nothing else; it keeps the
/// entry alive unless the will is released or cancelled.
pub proof fn law_what_save_will_does(storage: StorageView, will: WillView)
    ensures
        ({
            let key = DataKey::Will(will.id);
            let after = with_will(storage, will);
            &&& after.entries == storage.entries.insert(key, ValueView::Will(will))
            &&& will.status == WillStatus::Released || will.status == WillStatus::Cancelled
                ==> after.journal == storage.journal.push(Write::Put(key))
            &&& will.status != WillStatus::Released && will.status != WillStatus::Cancelled
                ==> after.journal == storage.journal.push(Write::Put(key)).push(kept_alive(key))
        }),
{
}

/// `load_will` gives what is stored under the id, and fails where nothing is.
pub proof fn law_what_load_will_does(storage: StorageView, will_id: u64, will: WillView)
    ensures
        storage.entries.contains_key(DataKey::Will(will_id)) && storage.entries[DataKey::Will(
            will_id,
        )] == ValueView::Will(will) ==> stored_will(storage, will_id) == Ok::<WillView, WillError>(
            will,
        ),
        !storage.entries.contains_key(DataKey::Will(will_id)) ==> stored_will(storage, will_id)
            == Err::<WillView, WillError>(WillError::WillNotFound),
{
}

/// The list under a key is the one that is stored there, and empty where
/// nothing is.
pub proof fn law_what_a_list_holds(storage: StorageView, key: DataKey, ids: Seq<u64>)
    ensures
        storage.entries.contains_key(key) && storage.entries[key] == ValueView::Ids(ids)
            ==> index_at(storage, key) == ids,
        !storage.entries.contains_key(key) ==> index_at(storage, key) == Seq::<u64>::empty(),
{
}

/// `index_by_owner` and `index_by_beneficiary` put an id that is not on the
/// list at its end, write the list once and keep it alive; with an id that is
/// on it they do nothing.
pub proof fn law_what_indexing_does(storage: StorageView, key: DataKey, will_id: u64)
    ensures
        index_at(storage, key).contains(will_id) ==> with_indexed(storage, key, will_id) == storage,
        !index_at(storage, key).contains(will_id) ==> {
            let after = with_indexed(storage, key, will_id);
            &&& after.entries == storage.entries.insert(
                key,
                ValueView::Ids(index_at(storage, key) + seq![will_id]),
            )
            &&& after.journal == storage.journal.push(Write::Put(key)).push(kept_alive(key))
        },
{
    assert(index_at(storage, key) + seq![will_id] =~= index_at(storage, key).push(will_id));
}

/// `remove_beneficiary_index` takes the first occurrence of an id off the list
/// and writes the list once, without keeping it alive; with an id that is not
/// on it, it does nothing.
pub proof fn law_what_removal_does(storage: StorageView, key: DataKey, will_id: u64, at: int)
    ensures
        !index_at(storage, key).contains(will_id) ==> without_indexed(storage, key, will_id)
            == storage,
        ({
            let ids = index_at(storage, key);
            let after = without_indexed(storage, key, will_id);
            0 <= at < ids.len() && ids[at] == will_id && (forall|j: int|
                0 <= j < at ==> (#[trigger] ids[j]) != will_id) ==> {
                &&& after.entries == storage.entries.insert(
                    key,
                    ValueView::Ids(ids.take(at) + ids.skip(at + 1)),
                )
                &&& after.journal == storage.journal.push(Write::Put(key))
            }
        }),
{
    let ids = index_at(storage, key);
    if 0 <= at < ids.len() && ids[at] == will_id && (forall|j: int|
        0 <= j < at ==> (#[trigger] ids[j]) != will_id) {
        assert(ids.contains(will_id));
        ids.index_of_first_ensures(will_id);
        let first = ids.index_of_first(will_id)->0;
        assert(first == at);
        assert(ids.remove(at) =~= ids.take(at) + ids.skip(at + 1));
    }
}

/// `set_guardian_voted` records the vote of the guardian on the will and keeps
/// it alive; `has_guardian_voted` tells whether a vote is recorded.
pub proof fn law_what_votes_do(storage: StorageView, will_id: u64, guardian: Address, vote: bool)
    ensures
        ({
            let key = DataKey::GuardianVote(will_id, guardian);
            let after = with_vote(storage, will_id, guardian);
            &&& after.entries == storage.entries.insert(key, ValueView::Vote(true))
            &&& after.journal == storage.journal.push(Write::Put(key)).push(kept_alive(key))
            &&& storage.entries.contains_key(key) && storage.entries[key] == ValueView::Vote(vote)
                ==> has_voted(storage, will_id, guardian) == vote
            &&& !storage.entries.contains_key(key) ==> !has_voted(storage, will_id, guardian)
        }),
{
}

/// What deleting votes does to one entry, and what it writes.
proof fn lemma_votes_deleted(
    storage: StorageView,
    will_id: u64,
    guardians: Seq<Address>,
    key: DataKey,
)
    ensures
        ({
            let after = without_votes(storage, will_id, guardians);
            let hit = exists|i: int|
                0 <= i < guardians.len() && key == DataKey::GuardianVote(
                    will_id,
                    #[trigger] guardians[i],
                );
            &&& hit ==> !after.entries.contains_key(key)
            &&& !hit ==> after.entries.contains_key(key) == storage.entries.contains_key(key)
            &&& !hit ==> after.entries[key] == storage.entries[key]
            &&& after.journal == storage.journal + guardians.map_values(
                |guardian: Address| Write::Remove(DataKey::GuardianVote(will_id, guardian)),
            )
        }),
    decreases guardians.len(),
{
    let deletion = |guardian: Address| Write::Remove(DataKey::GuardianVote(will_id, guardian));
    if guardians.len() > 0 {
        let front = guardians.drop_last();
        let last = guardians.last();
        lemma_votes_deleted(storage, will_id, front, key);
        let after = without_votes(storage, will_id, guardians);
        if exists|i: int|
            0 <= i < guardians.len() && key == DataKey::GuardianVote(
                will_id,
                #[trigger] guardians[i],
            ) {
            let i = choose|i: int|
                0 <= i < guardians.len() && key == DataKey::GuardianVote(
                    will_id,
                    #[trigger] guardians[i],
                );
            if i < front.len() {
                assert(front[i] == guardians[i]);
            }
        } else {
            assert(guardians[guardians.len() - 1] == last);
            assert forall|i: int| 0 <= i < front.len() implies key != DataKey::GuardianVote(
                will_id,
                #[trigger] front[i],
            ) by {
                assert(front[i] == guardians[i]);
            }
        }
        assert(after.journal =~= storage.journal + guardians.map_values(deletion));
    } else {
        assert(storage.journal =~= storage.journal + guardians.map_values(deletion));
    }
}

/// `reset_guardian_votes` deletes the vote of every guardian of the will, in
/// order, and touches no other entry; where the will counts no vote, it does
/// nothing.
pub proof fn law_what_reset_does(storage: StorageView, will: WillView, key: DataKey)
    ensures
        will.guardian_votes == 0 ==> with_votes_reset(storage, will) == storage,
        will.guardian_votes > 0 ==> {
            let after = with_votes_reset(storage, will);
            let hit = exists|i: int|
                0 <= i < will.guardians.len() && key == DataKey::GuardianVote(
                    will.id,
                    #[trigger] will.guardians[i],
                );
            &&& hit ==> !after.entries.contains_key(key)
            &&& !hit ==> after.entries.contains_key(key) == storage.entries.contains_key(key)
            &&& !hit ==> after.entries[key] == storage.entries[key]
            &&& after.journal == storage.journal + will.guardians.map_values(
                |guardian: Address| Write::Remove(DataKey::GuardianVote(will.id, guardian)),
            )
        },
{
    lemma_votes_deleted(storage, will.id, will.guardians, key);
}

/// A page is a stretch of the list: it starts at the front without a cursor;
/// right behind the first occurrence of the cursor and the repeats that follow
/// it, where the list has it; and else at the first larger id. It is as long
/// as the list goes on, the limit says and fifty ids allow.
pub proof fn law_page_is_a_stretch(ids: Seq<u64>, cursor: Option<u64>, limit: u32, start: int)
    requires
        0 <= start <= ids.len(),
        match cursor {
            None => start == 0,
            Some(after) => if ids.contains(after) {
                exists|at: int| #[trigger]
                    is_first(ids, after, at) && at < start && (forall|i: int|
                        at <= i < start ==> (#[trigger] ids[i]) == after) && (start < ids.len()
                        ==> ids[start] != after)
            } else {
                &&& forall|i: int| 0 <= i < start ==> (#[trigger] ids[i]) <= after
                &&& start < ids.len() ==> ids[start] > after
            },
        },
    ensures
        ({
            let found = page(ids, cursor, limit);
            let rest = ids.len() - start;
            &&& found.len() <= limit && found.len() <= 50 && found.len() <= rest
            &&& found.len() == limit || found.len() == 50 || found.len() == rest
            &&& forall|i: int| 0 <= i < found.len() ==> (#[trigger] found[i]) == ids[start + i]
        }),
{
    lemma_page_start_exact(ids, cursor);
    if let Some(after) = cursor {
        let there = page_start(ids, cursor) as int;
        if ids.contains(after) {
            let at = choose|at: int| #[trigger]
                is_first(ids, after, at) && at < start && (forall|i: int|
                    at <= i < start ==> (#[trigger] ids[i]) == after) && (start < ids.len()
                    ==> ids[start] != after);
            ids.index_of_first_ensures(after);
            assert(ids.index_of_first(after)->0 == at);
            if there < start {
                assert(ids[there] == after);
            }
            if start < there {
                assert(ids[start] == after);
            }
        } else {
            if there < start {
                assert(ids[there] <= after);
            }
            if start < there {
                assert(ids[start] <= after);
            }
        }
    }
    assert(page_start(ids, cursor) == start);
}

/// Whether the first occurrence of `id` is at a place.
pub open spec fn is_first(ids: Seq<u64>, id: u64, at: int) -> bool {
    &&& 0 <= at < ids.len()
    &&& ids[at] == id
    &&& forall|j: int| 0 <= j < at ==> (#[trigger] ids[j]) != id
}

/// Whether a change has been noted between two states.
pub open spec fn noted(before: StorageView, after: StorageView, write: Write) -> bool {
    exists|i: int|
        before.journal.len() <= i < after.journal.len() && (#[trigger] after.journal[i]) == write
}

/// Whether one state goes on from another: what was noted before stays noted,
/// and every entry that is not the same has been noted to be stored since.
pub open spec fn goes_on(before: StorageView, after: StorageView) -> bool {
    &&& before.journal.is_prefix_of(after.journal)
    &&& forall|key: DataKey|
        #![trigger noted(before, after, Write::Put(key))]
        !noted(before, after, Write::Put(key)) ==> after.entries.contains_key(key)
            == before.entries.contains_key(key) && after.entries[key] == before.entries[key]
}

/// Going on is transitive, and so is having been noted.
proof fn lemma_goes_on(first: StorageView, second: StorageView, third: StorageView)
    requires
        goes_on(first, second),
        goes_on(second, third),
    ensures
        goes_on(first, third),
        forall|write: Write|
            #![trigger noted(first, third, write)]
            noted(first, third, write) <==> noted(first, second, write) || noted(
                second,
                third,
                write,
            ),
{
    assert forall|write: Write|
        #![trigger noted(first, third, write)]
        noted(first, third, write) <==> noted(first, second, write) || noted(
            second,
            third,
            write,
        ) by {
        if noted(first, second, write) {
            let i = choose|i: int|
                first.journal.len() <= i < second.journal.len() && (#[trigger] second.journal[i])
                    == write;
            assert(third.journal[i] == write);
        }
        if noted(first, third, write) {
            let i = choose|i: int|
                first.journal.len() <= i < third.journal.len() && (#[trigger] third.journal[i])
                    == write;
            if i < second.journal.len() {
                assert(second.journal[i] == write);
            }
        }
    }
    assert forall|key: DataKey|
        #![trigger noted(first, third, Write::Put(key))]
        !noted(first, third, Write::Put(key)) implies third.entries.contains_key(key)
        == first.entries.contains_key(key) && third.entries[key] == first.entries[key] by {
        assert(!noted(first, second, Write::Put(key)));
        assert(!noted(second, third, Write::Put(key)));
    }
}

/// Setting one entry goes on, and notes that entry alone.
proof fn lemma_set_goes_on(before: StorageView, key: DataKey, value: ValueView, renew: bool)
    ensures
        goes_on(before, before.set(key, value, renew)),
        forall|write: Write|
            #![trigger noted(before, before.set(key, value, renew), write)]
            noted(before, before.set(key, value, renew), write) <==> write == Write::Put(key)
                || (renew && write == kept_alive(key)),
{
    let after = before.set(key, value, renew);
    let end = before.journal.len() as int;
    assert(after.journal[end] == Write::Put(key));
    assert(renew ==> after.journal[end + 1] == kept_alive(key));
    assert(noted(before, after, Write::Put(key)));
    assert forall|write: Write|
        #![trigger noted(before, after, write)]
        noted(before, after, write) <==> write == Write::Put(key) || (renew && write == kept_alive(
            key,
        )) by {
        if noted(before, after, write) {
            let i = choose|i: int|
                before.journal.len() <= i < after.journal.len() && (#[trigger] after.journal[i])
                    == write;
            assert(i == end || (renew && i == end + 1));
        }
    }
}

/// Staying the same goes on, and notes nothing.
proof fn lemma_same_goes_on(storage: StorageView)
    ensures
        goes_on(storage, storage),
        forall|write: Write|
            #![trigger noted(storage, storage, write)]
            !noted(storage, storage, write),
{
}

/// What taking a will off lists notes, and what it makes of one list.
proof fn lemma_dropped_exactly(
    storage: StorageView,
    will_id: u64,
    beneficiaries: Seq<Beneficiary>,
    kept: Seq<Beneficiary>,
    address: Address,
)
    ensures
        ({
            let after = without_dropped(storage, will_id, beneficiaries, kept);
            let ids = beneficiary_index(storage, address);
            let dropped = names(beneficiaries, address) && !names(kept, address);
            &&& goes_on(storage, after)
            &&& forall|write: Write|
                #![trigger noted(storage, after, write)]
                noted(storage, after, write) ==> write is Put && write->Put_0 is BeneficiaryWills
            &&& noted(storage, after, Write::Put(DataKey::BeneficiaryWills(address))) ==> dropped
                && ids.contains(will_id)
            &&& dropped && ids.contains(will_id) ==> noted(
                storage,
                after,
                Write::Put(DataKey::BeneficiaryWills(address)),
            )
            &&& !dropped ==> beneficiary_index(after, address) == ids
            &&& dropped && ids.no_duplicates() ==> beneficiary_index(after, address)
                == ids.filter(|id: u64| id != will_id)
        }),
    decreases beneficiaries.len(),
{
    if beneficiaries.len() == 0 {
        lemma_same_goes_on(storage);
    } else {
        let front = beneficiaries.drop_last();
        let last = beneficiaries.last().address;
        let last_key = DataKey::BeneficiaryWills(last);
        let between = without_dropped(storage, will_id, front, kept);
        let after = without_dropped(storage, will_id, beneficiaries, kept);
        let put = Write::Put(DataKey::BeneficiaryWills(address));
        let ids = beneficiary_index(storage, address);
        lemma_dropped_exactly(storage, will_id, front, kept, address);
        lemma_names_push(beneficiaries, address);
        if !names(kept, last) && index_at(between, last_key).contains(will_id) {
            let fewer = ValueView::Ids(index_at(after, last_key));
            assert(after == between.set(last_key, fewer, false));
            lemma_set_goes_on(between, last_key, fewer, false);
        } else {
            assert(after == between);
            lemma_same_goes_on(between);
        }
        lemma_goes_on(storage, between, after);
        if last == address && !names(kept, last) && ids.no_duplicates() {
            lemma_filter_out(ids, will_id);
            if names(front, address) {
                assert(!beneficiary_index(between, address).contains(will_id));
            } else {
                assert(beneficiary_index(between, address) == ids);
            }
        }
        assert(noted(storage, after, put) <==> noted(storage, between, put) || noted(
            between,
            after,
            put,
        ));
        if !noted(storage, between, put) {
            assert(beneficiary_index(between, address) == ids);
        }
    }
}

/// A list with nothing twice, without one of its ids.
proof fn lemma_filter_out(ids: Seq<u64>, id: u64)
    requires
        ids.no_duplicates(),
    ensures
        !ids.filter(|other: u64| other != id).contains(id),
        ids.contains(id) ==> ids.filter(|other: u64| other != id) == ids.remove(
            ids.index_of_first(id)->0,
        ),
        !ids.contains(id) ==> ids.filter(|other: u64| other != id) == ids,
    decreases ids.len(),
{
    let keep = |other: u64| other != id;
    reveal_with_fuel(Seq::filter, 2);
    if ids.len() > 0 {
        let front = ids.drop_last();
        let last = ids.last();
        assert(front.no_duplicates());
        lemma_filter_out(front, id);
        assert(keep(last) == (last != id));
        if front.contains(id) {
            let i = choose|i: int| 0 <= i < front.len() && front[i] == id;
            assert(ids[i] == id);
            assert(ids.contains(id));
            assert(last != id);
            front.index_of_first_ensures(id);
            ids.index_of_first_ensures(id);
            let at = front.index_of_first(id)->0;
            assert(ids[at] == id);
            assert(ids.index_of_first(id)->0 == at);
            assert(front.remove(at).push(last) =~= ids.remove(at));
        } else if last == id {
            assert(ids[ids.len() - 1] == id);
            assert(ids.contains(id));
            ids.index_of_first_ensures(id);
            let at = ids.index_of_first(id)->0;
            if at < front.len() {
                assert(front[at] == id);
            }
            assert(ids.remove(at) =~= front);
        } else {
            if ids.contains(id) {
                let i = choose|i: int| 0 <= i < ids.len() && ids[i] == id;
                assert(front[i] == id);
            }
            assert(front.push(last) =~= ids);
        }
        if ids.filter(keep).contains(id) {
            let kept = ids.filter(keep);
            let i = choose|i: int| 0 <= i < kept.len() && kept[i] == id;
            if i < front.filter(keep).len() {
                assert(front.filter(keep)[i] == id);
            }
        }
    }
}

/// Who is on a list: who is on its front, and the last one.
proof fn lemma_names_push(list: Seq<Beneficiary>, address: Address)
    requires
        list.len() > 0,
    ensures
        names(list, address) <==> names(list.drop_last(), address) || list.last().address
            == address,
{
    let front = list.drop_last();
    if names(front, address) {
        let i = choose|i: int| 0 <= i < front.len() && (#[trigger] front[i]).address == address;
        assert(list[i].address == address);
    }
    if list.last().address == address {
        assert(list[list.len() - 1].address == address);
    }
    if names(list, address) {
        let i = choose|i: int| 0 <= i < list.len() && (#[trigger] list[i]).address == address;
        if i < front.len() {
            assert(front[i].address == address);
        }
    }
}

/// What putting a will on lists notes, and what it makes of one list.
proof fn lemma_indexed_exactly(
    storage: StorageView,
    will_id: u64,
    list: Seq<Beneficiary>,
    address: Address,
)
    ensures
        ({
            let after = with_all_indexed(storage, will_id, list);
            let ids = beneficiary_index(storage, address);
            let added = names(list, address) && !ids.contains(will_id);
            &&& goes_on(storage, after)
            &&& forall|write: Write|
                #![trigger noted(storage, after, write)]
                noted(storage, after, write) ==> exists|key: DataKey|
                    key is BeneficiaryWills && (write == Write::Put(key) || write
                        == #[trigger] kept_alive(key))
            &&& noted(storage, after, Write::Put(DataKey::BeneficiaryWills(address))) <==> added
            &&& noted(storage, after, kept_alive(DataKey::BeneficiaryWills(address))) <==> added
            &&& !added ==> beneficiary_index(after, address) == ids
            &&& added ==> beneficiary_index(after, address) == ids.push(will_id)
        }),
    decreases list.len(),
{
    if list.len() == 0 {
        lemma_same_goes_on(storage);
    } else {
        let front = list.drop_last();
        let last = list.last().address;
        let between = with_all_indexed(storage, will_id, front);
        let after = with_all_indexed(storage, will_id, list);
        let put = Write::Put(DataKey::BeneficiaryWills(address));
        let renewed = kept_alive(DataKey::BeneficiaryWills(address));
        let ids = beneficiary_index(storage, address);
        lemma_indexed_exactly(storage, will_id, front, address);
        lemma_names_push(list, address);
        let last_key = DataKey::BeneficiaryWills(last);
        if index_at(between, last_key).contains(will_id) {
            assert(after == between);
            lemma_same_goes_on(between);
        } else {
            let more = ValueView::Ids(index_at(between, last_key).push(will_id));
            assert(after == between.set(last_key, more, true));
            lemma_set_goes_on(between, last_key, more, true);
        }
        lemma_goes_on(storage, between, after);
        if last == address && names(front, address) && !ids.contains(will_id) {
            assert(ids.push(will_id)[ids.len() as int] == will_id);
        }
        assert(noted(storage, after, put) <==> noted(storage, between, put) || noted(
            between,
            after,
            put,
        ));
        assert(noted(storage, after, renewed) <==> noted(storage, between, renewed) || noted(
            between,
            after,
            renewed,
        ));
        assert forall|write: Write|
            #![trigger noted(storage, after, write)]
            noted(storage, after, write) implies exists|key: DataKey|
            key is BeneficiaryWills && (write == Write::Put(key) || write == #[trigger] kept_alive(
                key,
            )) by {
            if !noted(storage, between, write) {
                assert(noted(between, after, write));
                assert(write == Write::Put(last_key) || write == kept_alive(last_key));
            }
        }
    }
}

/// `replace_beneficiaries` stores the will with the new list, and changes the
/// list of each address just as far as it must: a dropped beneficiary's loses
/// the will and keeps the rest in order, a new one's has it at its end and is
/// kept alive, and every other stays as it is and is not even written. The
/// will is kept alive unless it is terminal. Every entry that changes is
/// written, no entry is deleted, and nothing that was noted before is lost.
pub proof fn law_what_replacement_does(
    storage: StorageView,
    will: WillView,
    list: Seq<Beneficiary>,
    address: Address,
    key: DataKey,
)
    requires
        index_in_step(storage, will),
    ensures
        ({
            let after = with_beneficiaries(storage, will, list);
            let own_key = DataKey::Will(will.id);
            let list_key = DataKey::BeneficiaryWills(address);
            let ids = beneficiary_index(storage, address);
            let dropped = names(will.beneficiaries, address) && !names(list, address);
            let added = names(list, address) && !names(will.beneficiaries, address);
            &&& after.entries.contains_key(own_key)
            &&& after.entries[own_key] == ValueView::Will(
                WillView { beneficiaries: list, ..will },
            )
            &&& dropped ==> beneficiary_index(after, address) == ids.filter(
                |id: u64| id != will.id,
            )
            &&& added ==> beneficiary_index(after, address) == ids + seq![will.id]
            &&& !dropped && !added ==> beneficiary_index(after, address) == ids
            &&& noted(storage, after, Write::Put(list_key)) <==> dropped || added
            &&& noted(storage, after, kept_alive(list_key)) <==> added
            &&& noted(storage, after, Write::Put(own_key))
            &&& noted(storage, after, kept_alive(own_key)) <==> will.status != WillStatus::Released
                && will.status != WillStatus::Cancelled
            &&& noted(storage, after, Write::Put(key)) ==> key is BeneficiaryWills || key == own_key
            &&& !noted(storage, after, Write::Remove(key))
            &&& !noted(storage, after, Write::Put(key)) ==> after.entries.contains_key(key)
                == storage.entries.contains_key(key) && after.entries[key] == storage.entries[key]
            &&& storage.journal.is_prefix_of(after.journal)
        }),
{
    let changed = WillView { beneficiaries: list, ..will };
    let own_key = DataKey::Will(will.id);
    let list_key = DataKey::BeneficiaryWills(address);
    let cleared = without_dropped(storage, will.id, will.beneficiaries, list);
    let indexed = with_all_indexed(cleared, will.id, list);
    let after = with_beneficiaries(storage, will, list);
    let ids = beneficiary_index(storage, address);
    assert(beneficiary_index(storage, address).no_duplicates());
    lemma_dropped_exactly(storage, will.id, will.beneficiaries, list, address);
    lemma_indexed_exactly(cleared, will.id, list, address);
    law_what_save_will_does(indexed, changed);
    let renew = changed.status != WillStatus::Released && changed.status != WillStatus::Cancelled;
    assert(after == indexed.set(own_key, ValueView::Will(changed), renew));
    lemma_set_goes_on(indexed, own_key, ValueView::Will(changed), renew);
    lemma_goes_on(storage, cleared, indexed);
    lemma_goes_on(storage, indexed, after);
    assert(beneficiary_index(after, address) == beneficiary_index(indexed, address));
    lemma_filter_out(ids, will.id);
    assert(ids.push(will.id) =~= ids + seq![will.id]);
    assert(noted(indexed, after, Write::Put(own_key)));
    assert forall|write: Write|
        #![trigger noted(storage, after, write)]
        noted(storage, after, write) <==> noted(storage, cleared, write) || noted(
            cleared,
            indexed,
            write,
        ) || noted(indexed, after, write) by {
        assert(noted(storage, after, write) <==> noted(storage, indexed, write) || noted(
            indexed,
            after,
            write,
        ));
        assert(noted(storage, indexed, write) <==> noted(storage, cleared, write) || noted(
            cleared,
            indexed,
            write,
        ));
    }
    assert(!noted(storage, cleared, kept_alive(list_key)));
    assert(!noted(storage, cleared, kept_alive(own_key)));
    assert(!noted(cleared, indexed, kept_alive(own_key)));
}

/// A list names exactly the addresses of its entries.
pub proof fn law_who_is_named(list: Seq<Beneficiary>, address: Address)
    ensures
        names(list, address) <==> list.map_values(
            |entry: Beneficiary| entry.address,
        ).contains(address),
{
    let addresses = list.map_values(|entry: Beneficiary| entry.address);
    if names(list, address) {
        let i = choose|i: int| 0 <= i < list.len() && (#[trigger] list[i]).address == address;
        assert(addresses[i] == address);
    }
    if addresses.contains(address) {
        let i = choose|i: int| 0 <= i < addresses.len() && addresses[i] == address;
        assert(list[i].address == address);
    }
}

/// The lists are in step with a will exactly where none of them holds an id
/// twice, and the will is on the lists of those it names and on no other.
pub proof fn law_what_in_step_means(storage: StorageView, will: WillView)
    ensures
        index_in_step(storage, will) <==> forall|address: Address|
            {
                let ids = #[trigger] index_at(storage, DataKey::BeneficiaryWills(address));
                &&& forall|i: int, j: int| 0 <= i < j < ids.len() ==> ids[i] != ids[j]
                &&& (ids.contains(will.id) <==> names(will.beneficiaries, address))
            },
{
    if index_in_step(storage, will) {
        assert forall|address: Address|
            {
                let ids = #[trigger] index_at(storage, DataKey::BeneficiaryWills(address));
                &&& forall|i: int, j: int| 0 <= i < j < ids.len() ==> ids[i] != ids[j]
                &&& (ids.contains(will.id) <==> names(will.beneficiaries, address))
            } by {
            assert(beneficiary_index(storage, address).no_duplicates());
        }
    }
    if forall|address: Address|
        {
            let ids = #[trigger] index_at(storage, DataKey::BeneficiaryWills(address));
            &&& forall|i: int, j: int| 0 <= i < j < ids.len() ==> ids[i] != ids[j]
            &&& (ids.contains(will.id) <==> names(will.beneficiaries, address))
        } {
        assert forall|address: Address| #[trigger]
            beneficiary_index(storage, address).no_duplicates() && (beneficiary_index(
                storage,
                address,
            ).contains(will.id) <==> names(will.beneficiaries, address)) by {
            let ids = index_at(storage, DataKey::BeneficiaryWills(address));
            assert forall|i: int, j: int|
                0 <= i < ids.len() && 0 <= j < ids.len() && i != j implies ids[i] != ids[j] by {
                if i < j {
                    assert(ids[i] != ids[j]);
                } else {
                    assert(ids[j] != ids[i]);
                }
            }
        }
    }
}

/// What may stand under a key: a count under the counter's, a will under its
/// own id, nothing but ids under the keys of lists, and a vote under that of a
/// vote.
pub proof fn law_what_fits(value: Value, id: u64, address: Address)
    ensures
        value.fits(DataKey::NextWillId) <==> value is Counter,
        value.fits(DataKey::Will(id)) <==> value is Will && value->Will_0.id == id,
        value.fits(DataKey::OwnerWills(address)) <==> value is Ids && holds_ids(value->Ids_0),
        value.fits(DataKey::BeneficiaryWills(address)) <==> value is Ids && holds_ids(
            value->Ids_0,
        ),
        value.fits(DataKey::GuardianVote(id, address)) <==> value is Vote,
        value_fits(DataKey::NextWillId, value@) <==> value is Counter,
        value_fits(DataKey::Will(id), value@) <==> value is Will && value->Will_0.id == id,
        value_fits(DataKey::OwnerWills(address), value@) <==> value is Ids,
        value_fits(DataKey::BeneficiaryWills(address), value@) <==> value is Ids,
        value_fits(DataKey::GuardianVote(id, address), value@) <==> value is Vote,
{
}

/// The identifiers of a list are its values, where all of them are ones.
pub proof fn law_ids_are_the_values(list: soroban_sdk::Vec<u64>)
    ensures
        ids_of(list).len() == elements(list).len(),
        holds_ids(list) <==> forall|i: int|
            0 <= i < elements(list).len() ==> (#[trigger] elements(list)[i]) == Some(
                ids_of(list)[i],
            ),
{
    if forall|i: int|
        0 <= i < elements(list).len() ==> (#[trigger] elements(list)[i]) == Some(ids_of(list)[i]) {
        assert(holds_ids(list));
    }
}

/// The views of stored values, wills and hashed beneficiaries show every
/// field.
pub proof fn law_views_of_records_are_complete(
    value: Value,
    will: Will,
    hashed: HashedBeneficiary,
    i: int,
)
    ensures
        value matches Value::Counter(count) ==> value@ == ValueView::Counter(count),
        value matches Value::Will(stored) ==> value@ == ValueView::Will(stored@),
        value matches Value::Ids(list) ==> value@ == ValueView::Ids(ids_of(list)),
        value matches Value::Vote(vote) ==> value@ == ValueView::Vote(vote),
        hashed@.commitment == hashed.commitment@,
        hashed@.percentage == hashed.percentage,
        hashed@.claimed == hashed.claimed,
        will@.id == will.id,
        will@.owner == will.owner,
        will@.co_owners == will.co_owners@,
        will@.owner_threshold == will.owner_threshold,
        will@.token == will.token,
        will@.balance == will.balance,
        will@.beneficiaries == will.beneficiaries@,
        will@.hashed_beneficiaries.len() == will.hashed_beneficiaries@.len(),
        0 <= i < will.hashed_beneficiaries@.len() ==> will@.hashed_beneficiaries[i]
            == will.hashed_beneficiaries@[i]@,
        will@.checkin_period_days == will.checkin_period_days,
        will@.grace_period_days == will.grace_period_days,
        will@.last_checkin == will.last_checkin,
        will@.trigger_time == will.trigger_time,
        will@.confirmation_deadline == will.confirmation_deadline,
        will@.status == will.status,
        will@.guardians == will.guardians@,
        will@.guardian_votes == will.guardian_votes,
{
}

} // verus!
