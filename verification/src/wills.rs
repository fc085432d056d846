//! Steps on the wills of the multi-will layout.

use crate::address::{list_contains, Address};
use crate::contract::{WillContract, MAX_BENEFICIARIES};
use crate::errors::WillError;
use crate::events::{beneficiaries_updated, will_event, Event, EventName, FieldView};
use crate::storage::{
    beneficiary_index, has_room, index_in_step, load_will, names, replace_beneficiaries,
    stored_will, with_beneficiaries, DataKey, Storage, StorageView,
};
use crate::types::{
    Beneficiary, HashedBeneficiary, HashedBeneficiaryView, Will, WillStatus, WillView,
};
use soroban_sdk::Env;
use vstd::prelude::*;

verus! {

/// The whole of a will's balance, in percent.
pub const WHOLE_PERCENT: u32 = 100;

/// The sum of the beneficiaries' percentages.
pub open spec fn total_percentage(list: Seq<Beneficiary>) -> int
    decreases list.len(),
{
    if list.len() == 0 {
        0
    } else {
        total_percentage(list.drop_last()) + list.last().percentage
    }
}

/// The sum of the hashed beneficiaries' percentages.
pub open spec fn total_hashed(list: Seq<HashedBeneficiaryView>) -> int
    decreases list.len(),
{
    if list.len() == 0 {
        0
    } else {
        total_hashed(list.drop_last()) + list.last().percentage
    }
}

/// Whether some percentage is zero.
pub open spec fn has_empty_part(list: Seq<Beneficiary>) -> bool {
    exists|i: int| 0 <= i < list.len() && (#[trigger] list[i]).percentage == 0
}

/// Whether some percentage is more than the whole.
pub open spec fn has_excess(list: Seq<Beneficiary>) -> bool {
    exists|i: int| 0 <= i < list.len() && (#[trigger] list[i]).percentage > WHOLE_PERCENT
}

/// The verdict on a list of beneficiaries beside the hashed ones of a will: it
/// must not be too long, every single percentage must be in bounds, and all of
/// them together must make up the whole. Percentages whose sum does not even
/// fit into 32 bits are refused for the sum, unless one of them is zero.
pub open spec fn percentages_verdict(
    list: Seq<Beneficiary>,
    hashed: Seq<HashedBeneficiaryView>,
) -> Result<(), WillError> {
    if list.len() > MAX_BENEFICIARIES {
        Err(WillError::TooManyBeneficiaries)
    } else if has_empty_part(list) || (total_percentage(list) <= u32::MAX && has_excess(list)) {
        Err(WillError::InvalidPercentage)
    } else if total_percentage(list) + total_hashed(hashed) != WHOLE_PERCENT {
        Err(WillError::InvalidPercentages)
    } else {
        Ok(())
    }
}

/// How many different addresses among `owners` have signed.
pub open spec fn signed_by(owners: Seq<Address>, signers: Seq<Address>) -> nat
    decreases owners.len(),
{
    if owners.len() == 0 {
        0
    } else {
        let others = owners.drop_last();
        let last = owners.last();
        signed_by(others, signers) + if signers.contains(last) && !others.contains(last) {
            1nat
        } else {
            0nat
        }
    }
}

/// All owners of a will, the primary one first.
pub open spec fn owners(will: WillView) -> Seq<Address> {
    seq![will.owner] + will.co_owners
}

/// Whether enough owners have signed: the primary one suffices, unless there
/// are co-owners.
pub open spec fn enough_signed(will: WillView, signers: Seq<Address>) -> bool {
    will.co_owners.len() == 0 || signed_by(owners(will), signers) >= will.owner_threshold
}

/// The will whose beneficiaries may be replaced, or why they may not.
pub open spec fn updatable(
    storage: StorageView,
    signers: Seq<Address>,
    will_id: u64,
    owner: Address,
    list: Seq<Beneficiary>,
) -> Result<WillView, WillError> {
    if !signers.contains(owner) {
        Err(WillError::NotOwner)
    } else {
        match stored_will(storage, will_id) {
            Err(error) => Err(error),
            Ok(will) => if will.owner != owner || !enough_signed(will, signers) {
                Err(WillError::NotOwner)
            } else if will.status != WillStatus::Active {
                Err(WillError::WillNotActive)
            } else {
                match percentages_verdict(list, will.hashed_beneficiaries) {
                    Err(error) => Err(error),
                    Ok(_) => Ok(will),
                }
            },
        }
    }
}

/// The sum of the hashed beneficiaries' percentages.
fn sum_hashed(list: &Vec<HashedBeneficiary>) -> (total: u128)
    ensures
        total == total_hashed(list@.map_values(|hashed: HashedBeneficiary| hashed@)),
{
    let ghost views = list@.map_values(|hashed: HashedBeneficiary| hashed@);
    let mut total: u128 = 0;
    for i in 0..list.len()
        invariant
            views == list@.map_values(|hashed: HashedBeneficiary| hashed@),
            total == total_hashed(views.take(i as int)),
            total <= i * u32::MAX,
    {
        proof {
            assert(views.take(i + 1).drop_last() =~= views.take(i as int));
            assert(views.take(i + 1).last() == list@[i as int]@);
            assert(i * u32::MAX <= u64::MAX * u32::MAX) by (nonlinear_arith)
                requires
                    i <= u64::MAX,
            ;
        }
        total = total + list[i].percentage as u128;
        assert(total <= (i + 1) * u32::MAX) by (nonlinear_arith)
            requires
                total <= i * u32::MAX + u32::MAX,
        ;
    }
    assert(views.take(views.len() as int) =~= views);
    total
}

/// Checks a list of beneficiaries beside the hashed ones of a will.
fn check_percentages(list: &Vec<Beneficiary>, hashed: &Vec<HashedBeneficiary>) -> (verdict: Result<
    (),
    WillError,
>)
    ensures
        verdict == percentages_verdict(
            list@,
            hashed@.map_values(|hashed: HashedBeneficiary| hashed@),
        ),
{
    if list.len() > MAX_BENEFICIARIES {
        return Err(WillError::TooManyBeneficiaries);
    }
    let mut total: u64 = 0;
    let mut excess = false;
    for i in 0..list.len()
        invariant
            list@.len() <= MAX_BENEFICIARIES,
            forall|j: int| 0 <= j < i ==> (#[trigger] list@[j]).percentage != 0,
            excess == exists|j: int|
                0 <= j < i && (#[trigger] list@[j]).percentage > WHOLE_PERCENT,
            total == total_percentage(list@.take(i as int)),
            total <= i * u32::MAX,
    {
        let percentage: u32 = list[i].percentage;
        assert(list@[i as int].percentage == percentage);
        if percentage == 0 {
            return Err(WillError::InvalidPercentage);
        }
        assert(list@.take(i + 1).drop_last() =~= list@.take(i as int));
        total = total + percentage as u64;
        excess = excess || percentage > WHOLE_PERCENT;
    }
    assert(list@.take(list@.len() as int) =~= list@);
    if excess && total <= u32::MAX as u64 {
        return Err(WillError::InvalidPercentage);
    }
    let rest: u128 = sum_hashed(hashed);
    if total > WHOLE_PERCENT as u64 || rest != (WHOLE_PERCENT as u64 - total) as u128 {
        return Err(WillError::InvalidPercentages);
    }
    Ok(())
}

/// Whether enough owners of a will have signed.
fn check_owners(will: &Will, signers: &Vec<Address>) -> (enough: bool)
    ensures
        enough == enough_signed(will@, signers@),
{
    if will.co_owners.len() == 0 {
        return true;
    }
    let ghost all = owners(will@);
    let mut seen: Vec<Address> = vec![will.owner];
    let mut count: u128 = if list_contains(signers, &will.owner) {
        1
    } else {
        0
    };
    proof {
        reveal_with_fuel(signed_by, 2);
        assert(seen@ =~= all.take(1));
        assert(seen@.drop_last() =~= Seq::<Address>::empty());
    }
    for i in 0..will.co_owners.len()
        invariant
            all == owners(will@),
            seen@ == all.take(i + 1),
            count == signed_by(seen@, signers@),
            count <= i + 1,
    {
        let owner = will.co_owners[i];
        if list_contains(signers, &owner) && !list_contains(&seen, &owner) {
            count = count + 1;
        }
        let ghost before = seen@;
        seen.push(owner);
        assert(seen@.drop_last() =~= before);
        assert(seen@ =~= all.take(i + 2));
    }
    assert(seen@ =~= all);
    count >= will.owner_threshold as u128
}

impl WillContract {
    /// Replaces the beneficiaries of a stored will, for its owner, who must
    /// have signed, with as many co-owners as the will asks for, and gives the
    /// event to publish. The index of the wills that name an address is kept
    /// in step. A refused step leaves the storage untouched.
    pub fn update_will_beneficiaries(
        env: &Env,
        storage: &mut Storage,
        signers: &Vec<Address>,
        will_id: u64,
        owner: Address,
        list: Vec<Beneficiary>,
    ) -> (outcome: Result<Event, WillError>)
        requires
            old(storage).well_formed(),
            updatable(old(storage)@, signers@, will_id, owner, list@) is Ok ==> forall|i: int|
                0 <= i < list@.len() ==> has_room(
                    old(storage)@,
                    DataKey::BeneficiaryWills((#[trigger] list@[i]).address),
                    will_id,
                ),
        ensures
            final(storage).well_formed(),
            match updatable(old(storage)@, signers@, will_id, owner, list@) {
                Ok(will) => {
                    &&& outcome matches Ok(event)
                    &&& event@ == will_event(
                        EventName::BeneficiariesUpdated,
                        will_id,
                        seq![
                            FieldView::Address(owner),
                            FieldView::U32(list@.len() as u32),
                            FieldView::Beneficiaries(list@),
                        ],
                    )
                    &&& final(storage)@ == with_beneficiaries(old(storage)@, will, list@)
                    &&& index_in_step(old(storage)@, will) ==> {
                        &&& forall|address: Address|
                            (#[trigger] beneficiary_index(
                                final(storage)@,
                                address,
                            )).contains(will_id) <==> names(list@, address)
                        &&& forall|address: Address, id: u64|
                            id != will_id ==> (#[trigger] beneficiary_index(
                                final(storage)@,
                                address,
                            ).contains(id) <==> beneficiary_index(
                                old(storage)@,
                                address,
                            ).contains(id))
                        &&& index_in_step(
                            final(storage)@,
                            (WillView { beneficiaries: list@, ..will }),
                        )
                    }
                },
                Err(error) => outcome == Err::<Event, WillError>(error) && *final(storage) == *old(
                    storage,
                ),
            },
    {
        if !list_contains(signers, &owner) {
            return Err(WillError::NotOwner);
        }
        let will = match load_will(storage, will_id) {
            Ok(will) => will,
            Err(error) => {
                return Err(error);
            },
        };
        if will.owner != owner || !check_owners(&will, signers) {
            return Err(WillError::NotOwner);
        }
        if will.status != WillStatus::Active {
            return Err(WillError::WillNotActive);
        }
        match check_percentages(&list, &will.hashed_beneficiaries) {
            Err(error) => {
                return Err(error);
            },
            Ok(()) => {},
        }
        proof {
            storage.law_values_fit_their_keys();
            assert(storage@.entries.contains_key(DataKey::Will(will_id)));
            assert(will@.id == will_id);
        }
        let event = beneficiaries_updated(will_id, &owner, &list);
        replace_beneficiaries(env, storage, &will, list);
        Ok(event)
    }
}

} // verus!
