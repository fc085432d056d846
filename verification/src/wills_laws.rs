//! What the steps on stored wills do, in terms of what goes in alone.

use crate::address::Address;
use crate::errors::WillError;
use crate::storage::{stored_will, with_beneficiaries, StorageView};
use crate::types::{Beneficiary, HashedBeneficiaryView, WillStatus, WillView};
use crate::wills::{
    enough_signed, has_empty_part, has_excess, owners, percentages_verdict, signed_by,
    total_hashed, total_percentage, updatable,
};
use vstd::prelude::*;

verus! {

/// The plain sum of the percentages.
pub open spec fn sum_of_percentages(list: Seq<Beneficiary>) -> int {
    list.fold_left(0int, |sum: int, entry: Beneficiary| sum + entry.percentage)
}

/// The plain sum of the hashed beneficiaries' percentages.
pub open spec fn sum_of_hashed(hashed: Seq<HashedBeneficiaryView>) -> int {
    hashed.fold_left(0int, |sum: int, entry: HashedBeneficiaryView| sum + entry.percentage)
}

/// What the beneficiaries of a will must be beside the hashed ones: at most
/// ten of them, each with one to a hundred percent, and all of them together
/// with exactly a hundred. There is at least one, unless the hashed ones make
/// up the whole.
pub open spec fn makes_a_hundred(
    list: Seq<Beneficiary>,
    hashed: Seq<HashedBeneficiaryView>,
) -> bool {
    &&& list.len() <= 10
    &&& forall|i: int| 0 <= i < list.len() ==> 1 <= (#[trigger] list[i]).percentage <= 100
    &&& sum_of_percentages(list) + sum_of_hashed(hashed) == 100
    &&& list.len() >= 1 || sum_of_hashed(hashed) == 100
}

/// The totals are the plain sums.
proof fn lemma_total_percentage(list: Seq<Beneficiary>)
    ensures
        total_percentage(list) == sum_of_percentages(list),
        0 <= total_percentage(list),
    decreases list.len(),
{
    if list.len() > 0 {
        lemma_total_percentage(list.drop_last());
    }
}

/// The totals are the plain sums.
proof fn lemma_total_hashed(hashed: Seq<HashedBeneficiaryView>)
    ensures
        total_hashed(hashed) == sum_of_hashed(hashed),
        0 <= total_hashed(hashed),
    decreases hashed.len(),
{
    if hashed.len() > 0 {
        lemma_total_hashed(hashed.drop_last());
    }
}

/// A percentage is at most the sum of all.
proof fn lemma_part_at_most_total(list: Seq<Beneficiary>, i: int)
    requires
        0 <= i < list.len(),
    ensures
        list[i].percentage <= total_percentage(list),
    decreases list.len(),
{
    let front = list.drop_last();
    lemma_total_percentage(front);
    if i < front.len() {
        lemma_part_at_most_total(front, i);
    }
}

/// A list is accepted beside hashed beneficiaries exactly where it makes a
/// hundred percent with them.
pub proof fn law_percentages_must_make_a_hundred(
    list: Seq<Beneficiary>,
    hashed: Seq<HashedBeneficiaryView>,
)
    ensures
        percentages_verdict(list, hashed) is Ok <==> makes_a_hundred(list, hashed),
{
    lemma_total_percentage(list);
    lemma_total_hashed(hashed);
    if percentages_verdict(list, hashed) is Ok {
        assert forall|i: int| 0 <= i < list.len() implies 1 <= (#[trigger] list[i]).percentage
            <= 100 by {
            lemma_part_at_most_total(list, i);
        }
    }
}

/// Why a list is refused: for its length, for nothing in one part, for more
/// than the whole in one part, or else for the sum. Where the sum of the list
/// does not fit into 32 bits, it is the sum that counts.
pub proof fn law_percentages_are_refused_for_a_reason(
    list: Seq<Beneficiary>,
    hashed: Seq<HashedBeneficiaryView>,
    i: int,
)
    ensures
        ({
            let verdict = percentages_verdict(list, hashed);
            let sum = sum_of_percentages(list);
            &&& list.len() > 10 <==> verdict == Err::<(), WillError>(
                WillError::TooManyBeneficiaries,
            )
            &&& list.len() <= 10 && 0 <= i < list.len() && (list[i].percentage == 0 || (
            list[i].percentage > 100 && sum <= u32::MAX)) ==> verdict == Err::<(), WillError>(
                WillError::InvalidPercentage,
            )
            &&& list.len() <= 10 && sum + sum_of_hashed(hashed) != 100 && (forall|k: int|
                0 <= k < list.len() ==> 1 <= (#[trigger] list[k]).percentage <= 100) ==> verdict
                == Err::<(), WillError>(WillError::InvalidPercentages)
            &&& list.len() <= 10 && sum > u32::MAX && (forall|k: int|
                0 <= k < list.len() ==> 1 <= (#[trigger] list[k]).percentage) ==> verdict == Err::<
                (),
                WillError,
            >(WillError::InvalidPercentages)
        }),
{
    lemma_total_percentage(list);
    lemma_total_hashed(hashed);
    if 0 <= i < list.len() && list[i].percentage == 0 {
        assert(has_empty_part(list));
    }
    if 0 <= i < list.len() && list[i].percentage > 100 {
        assert(has_excess(list));
    }
}

/// The addresses that are both owners and signers.
pub open spec fn signing_owners(will: WillView, signers: Seq<Address>) -> Set<Address> {
    Set::new(
        |address: Address|
            signers.contains(address) && (address == will.owner || will.co_owners.contains(
                address,
            )),
    )
}

/// Those of a list who have signed.
spec fn signing(list: Seq<Address>, signers: Seq<Address>) -> Set<Address> {
    Set::new(|address: Address| signers.contains(address) && list.contains(address))
}

/// The count is that of different addresses.
proof fn lemma_signed_by(list: Seq<Address>, signers: Seq<Address>)
    ensures
        signing(list, signers).finite(),
        signed_by(list, signers) == signing(list, signers).len(),
    decreases list.len(),
{
    if list.len() == 0 {
        assert(signing(list, signers) =~= Set::empty());
    } else {
        let others = list.drop_last();
        let last = list.last();
        lemma_signed_by(others, signers);
        assert forall|address: Address| list.contains(address) <==> others.contains(address)
            || address == last by {
            if others.contains(address) {
                let i = choose|i: int| 0 <= i < others.len() && others[i] == address;
                assert(list[i] == address);
            }
            if address == last {
                assert(list[list.len() - 1] == address);
            }
            if list.contains(address) {
                let i = choose|i: int| 0 <= i < list.len() && list[i] == address;
                if i < others.len() {
                    assert(others[i] == address);
                }
            }
        }
        if signers.contains(last) && !others.contains(last) {
            assert(signing(list, signers) =~= signing(others, signers).insert(last));
        } else {
            assert(signing(list, signers) =~= signing(others, signers));
        }
    }
}

/// Where a will has co-owners, as many different owners as it asks for must
/// have signed, however often each of them is named.
pub proof fn law_owners_are_counted_once(will: WillView, signers: Seq<Address>)
    ensures
        signing_owners(will, signers).finite(),
        will.co_owners.len() > 0 ==> (enough_signed(will, signers) <==> signing_owners(
            will,
            signers,
        ).len() >= will.owner_threshold),
        will.co_owners.len() == 0 ==> enough_signed(will, signers),
{
    let all = owners(will);
    lemma_signed_by(all, signers);
    assert forall|address: Address| all.contains(address) <==> address == will.owner
        || will.co_owners.contains(address) by {
        if address == will.owner {
            assert(all[0] == address);
        }
        if will.co_owners.contains(address) {
            let i = choose|i: int| 0 <= i < will.co_owners.len() && will.co_owners[i] == address;
            assert(all[i + 1] == address);
        }
        if all.contains(address) {
            let i = choose|i: int| 0 <= i < all.len() && all[i] == address;
            if i > 0 {
                assert(will.co_owners[i - 1] == address);
            }
        }
    }
    assert(signing(all, signers) =~= signing_owners(will, signers));
}

/// `update_will_beneficiaries` succeeds exactly where the owner of a stored,
/// active will has signed, with as many different owners as the will asks for
/// where there are co-owners, and the list makes a hundred percent. The will
/// that is loaded then is the same but for its beneficiaries, who are those on
/// the list and make a hundred percent.
pub proof fn law_what_updating_a_will_does(
    storage: StorageView,
    signers: Seq<Address>,
    will_id: u64,
    owner: Address,
    list: Seq<Beneficiary>,
)
    requires
        storage.well_formed(),
    ensures
        ({
            let outcome = updatable(storage, signers, will_id, owner, list);
            let found = stored_will(storage, will_id);
            let will = found->Ok_0;
            let enough = will.co_owners.len() == 0 || signing_owners(will, signers).len()
                >= will.owner_threshold;
            let allowed = signers.contains(owner) && found is Ok && will.owner == owner && enough;
            let active = will.status == WillStatus::Active;
            &&& outcome is Ok <==> allowed && active && makes_a_hundred(
                list,
                will.hashed_beneficiaries,
            )
            &&& outcome matches Ok(same) ==> {
                let after = stored_will(with_beneficiaries(storage, same, list), will_id);
                &&& same == will
                &&& after is Ok
                &&& after->Ok_0.beneficiaries == list
                &&& after->Ok_0.hashed_beneficiaries == will.hashed_beneficiaries
                &&& makes_a_hundred(after->Ok_0.beneficiaries, after->Ok_0.hashed_beneficiaries)
                &&& after->Ok_0.id == will_id
                &&& after->Ok_0.owner == owner
                &&& after->Ok_0.co_owners == will.co_owners
                &&& after->Ok_0.owner_threshold == will.owner_threshold
                &&& after->Ok_0.token == will.token
                &&& after->Ok_0.balance == will.balance
                &&& after->Ok_0.checkin_period_days == will.checkin_period_days
                &&& after->Ok_0.grace_period_days == will.grace_period_days
                &&& after->Ok_0.last_checkin == will.last_checkin
                &&& after->Ok_0.trigger_time == will.trigger_time
                &&& after->Ok_0.confirmation_deadline == will.confirmation_deadline
                &&& after->Ok_0.status == WillStatus::Active
                &&& after->Ok_0.guardians == will.guardians
                &&& after->Ok_0.guardian_votes == will.guardian_votes
            }
            &&& !signers.contains(owner) ==> outcome == Err::<WillView, WillError>(
                WillError::NotOwner,
            )
            &&& signers.contains(owner) && found is Err ==> outcome == Err::<WillView, WillError>(
                WillError::WillNotFound,
            )
            &&& signers.contains(owner) && found is Ok && (will.owner != owner || !enough)
                ==> outcome == Err::<WillView, WillError>(WillError::NotOwner)
            &&& allowed && !active ==> outcome == Err::<WillView, WillError>(
                WillError::WillNotActive,
            )
            &&& allowed && active && !makes_a_hundred(list, will.hashed_beneficiaries) ==> outcome
                == Err::<WillView, WillError>(
                percentages_verdict(list, will.hashed_beneficiaries)->Err_0,
            )
        }),
{
    if let Ok(will) = stored_will(storage, will_id) {
        law_owners_are_counted_once(will, signers);
        law_percentages_must_make_a_hundred(list, will.hashed_beneficiaries);
    }
}

} // verus!
