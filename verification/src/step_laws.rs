//! What each entry point does: when it succeeds, why it is refused otherwise,
//! and what it leaves of the will, in terms of what goes in alone.

use crate::address::Address;
use crate::contract::{
    check_in_deadline, checked_in, checked_in_event, created, created_event,
    lemma_passed_shares_in_bounds, new_shares_verdict, read, releasable, released,
    shares_in_bounds, shares_verdict, state_well_formed, total_share, triggered,
    updated, updated_event, Beneficiary, Instance, Will, WillView,
};
use crate::errors::WillError;
use crate::events::{EventDataView, EventName, FieldView, Subject};
use crate::types::WillStatus;
use vstd::prelude::*;

verus! {

/// The plain sum of the shares.
pub open spec fn sum_of_shares(list: Seq<Beneficiary>) -> int {
    list.fold_left(0int, |sum: int, entry: Beneficiary| sum + entry.share_bps)
}

/// What a list of beneficiaries must be: one to ten of them, each with a share
/// of at least one basis point and at most the whole, and all of them together
/// with exactly the whole.
pub open spec fn divides_the_whole(list: Seq<Beneficiary>) -> bool {
    &&& 1 <= list.len() <= 10
    &&& forall|i: int| 0 <= i < list.len() ==> 1 <= (#[trigger] list[i]).share_bps <= 10_000
    &&& sum_of_shares(list) == 10_000
}

/// The total is the plain sum.
pub(crate) proof fn lemma_total_is_the_sum(list: Seq<Beneficiary>)
    ensures
        total_share(list) == sum_of_shares(list),
    decreases list.len(),
{
    if list.len() > 0 {
        lemma_total_is_the_sum(list.drop_last());
    }
}

/// Shares in bounds add up to at most the whole for each entry.
proof fn lemma_sum_is_bounded(list: Seq<Beneficiary>)
    requires
        forall|i: int| 0 <= i < list.len() ==> (#[trigger] list[i]).share_bps <= 10_000,
    ensures
        sum_of_shares(list) <= 10_000 * list.len(),
    decreases list.len(),
{
    if list.len() > 0 {
        let front = list.drop_last();
        assert forall|i: int| 0 <= i < front.len() implies (#[trigger] front[i]).share_bps
            <= 10_000 by {
            assert(front[i] == list[i]);
        }
        assert(list.last() == list[list.len() - 1]);
        lemma_sum_is_bounded(front);
    }
}

/// A list of beneficiaries is accepted, for a new will and for a stored one,
/// exactly where it divides the whole.
pub proof fn law_lists_must_divide_the_whole(list: Seq<Beneficiary>)
    ensures
        shares_verdict(list) is Ok <==> divides_the_whole(list),
        new_shares_verdict(list) is Ok <==> divides_the_whole(list),
{
    lemma_total_is_the_sum(list);
    if shares_verdict(list) is Ok {
        lemma_passed_shares_in_bounds(list);
        assert(divides_the_whole(list));
        assert(new_shares_verdict(list) is Ok);
    }
    if divides_the_whole(list) {
        assert(shares_in_bounds(list));
    }
}

/// Why a list of beneficiaries is refused: for its length, for a share of
/// nothing, for a share of more than the whole, or else for the sum. Where the
/// sum does not fit into 32 bits it is the sum that counts, but in a new will
/// it is a share, where just one of them is more than the whole.
pub proof fn law_lists_are_refused_for_a_reason(list: Seq<Beneficiary>, i: int, j: int)
    ensures
        list.len() > 10 <==> shares_verdict(list) == Err::<(), WillError>(
            WillError::TooManyBeneficiaries,
        ),
        list.len() > 10 <==> new_shares_verdict(list) == Err::<(), WillError>(
            WillError::TooManyBeneficiaries,
        ),
        list.len() <= 10 && 0 <= i < list.len() && (list[i].share_bps == 0 || (list[i].share_bps
            > 10_000 && sum_of_shares(list) <= u32::MAX)) ==> {
            &&& shares_verdict(list) == Err::<(), WillError>(WillError::InvalidPercentage)
            &&& new_shares_verdict(list) == Err::<(), WillError>(WillError::InvalidPercentage)
        },
        list.len() <= 10 && sum_of_shares(list) != 10_000 && (forall|k: int|
            0 <= k < list.len() ==> 1 <= (#[trigger] list[k]).share_bps <= 10_000) ==> {
            &&& shares_verdict(list) == Err::<(), WillError>(WillError::InvalidPercentages)
            &&& new_shares_verdict(list) == Err::<(), WillError>(WillError::InvalidPercentages)
        },
        list.len() <= 10 && sum_of_shares(list) > u32::MAX && (forall|k: int|
            0 <= k < list.len() ==> 1 <= (#[trigger] list[k]).share_bps) ==> {
            &&& shares_verdict(list) == Err::<(), WillError>(WillError::InvalidPercentages)
            &&& 0 <= i < j < list.len() && list[i].share_bps > 10_000 && list[j].share_bps > 10_000
                ==> new_shares_verdict(list) == Err::<(), WillError>(WillError::InvalidPercentages)
            &&& 0 <= i < list.len() && (forall|k: int|
                0 <= k < list.len() && k != i ==> (#[trigger] list[k]).share_bps <= 10_000)
                ==> new_shares_verdict(list) == Err::<(), WillError>(WillError::InvalidPercentage)
        },
{
    lemma_total_is_the_sum(list);
    if list.len() <= 10 {
        if forall|k: int| 0 <= k < list.len() ==> (#[trigger] list[k]).share_bps <= 10_000 {
            lemma_sum_is_bounded(list);
        }
        if 0 <= i < list.len() && sum_of_shares(list) > u32::MAX && (forall|k: int|
            0 <= k < list.len() && k != i ==> (#[trigger] list[k]).share_bps <= 10_000) {
            assert(list[i].share_bps > 10_000);
        }
        if 0 <= i < list.len() && list[i].share_bps > 10_000 && sum_of_shares(list) <= u32::MAX {
            assert(!shares_in_bounds(list));
        }
    }
}

/// `create_will` succeeds exactly where the owner has signed, the bounty is at
/// most one hundredth, the list divides the whole, and the inactivity period
/// is above zero and ends at a time that can be told. The new will is what was
/// asked for, and active.
pub proof fn law_what_create_will_does(
    now: u64,
    signers: Seq<Address>,
    owner: Address,
    list: Seq<Beneficiary>,
    inactivity_period: u64,
    keeper_bounty_bps: u32,
)
    ensures
        ({
            let outcome = created(
                now,
                signers,
                owner,
                list,
                inactivity_period,
                keeper_bounty_bps,
            );
            let in_time = inactivity_period >= 1 && now + inactivity_period <= u64::MAX;
            &&& outcome is Ok <==> signers.contains(owner) && keeper_bounty_bps <= 100
                && divides_the_whole(list) && in_time
            &&& outcome matches Ok(will) ==> {
                &&& will.owner == owner
                &&& will.beneficiaries == list
                &&& will.inactivity_period == inactivity_period
                &&& will.last_check_in == now
                &&& !will.triggered
                &&& will.release_time == 0
                &&& will.keeper_bounty_bps == keeper_bounty_bps
                &&& will.status == WillStatus::Active
            }
            &&& !signers.contains(owner) ==> outcome == Err::<WillView, WillError>(
                WillError::NotOwner,
            )
            &&& signers.contains(owner) && keeper_bounty_bps > 100 ==> outcome == Err::<
                WillView,
                WillError,
            >(WillError::KeeperBountyTooHigh)
            &&& signers.contains(owner) && keeper_bounty_bps <= 100 && !divides_the_whole(list)
                ==> outcome == Err::<WillView, WillError>(new_shares_verdict(list)->Err_0)
            &&& signers.contains(owner) && keeper_bounty_bps <= 100 && divides_the_whole(list)
                && !in_time ==> outcome == Err::<WillView, WillError>(WillError::InvalidPeriod)
        }),
{
    law_lists_must_divide_the_whole(list);
}

/// `check_in` succeeds exactly where there is a will, its owner has signed,
/// and it has not been triggered. It changes nothing about the will but the
/// time of the last check-in.
pub proof fn law_what_check_in_does(state: Option<WillView>, now: u64, signers: Seq<Address>)
    ensures
        ({
            let outcome = checked_in(state, now, signers);
            let will = state->0;
            &&& outcome is Ok <==> state is Some && signers.contains(will.owner) && !will.triggered
            &&& outcome matches Ok(after) ==> {
                &&& after.last_check_in == now
                &&& after.owner == will.owner
                &&& after.beneficiaries == will.beneficiaries
                &&& after.inactivity_period == will.inactivity_period
                &&& after.triggered == will.triggered
                &&& after.release_time == will.release_time
                &&& after.keeper_bounty_bps == will.keeper_bounty_bps
                &&& after.status == will.status
            }
            &&& state is None ==> outcome == Err::<WillView, WillError>(WillError::WillNotFound)
            &&& state is Some && !signers.contains(will.owner) ==> outcome == Err::<
                WillView,
                WillError,
            >(WillError::NotOwner)
            &&& state is Some && signers.contains(will.owner) && will.triggered ==> outcome
                == Err::<WillView, WillError>(WillError::WillNotActive)
        }),
{
}

/// `update_beneficiaries` succeeds exactly where the owner of an untriggered
/// will has signed and the list divides the whole. It changes nothing about
/// the will but the beneficiaries, who are those on the list.
pub proof fn law_what_update_beneficiaries_does(
    state: Option<WillView>,
    signers: Seq<Address>,
    owner: Address,
    list: Seq<Beneficiary>,
)
    ensures
        ({
            let outcome = updated(state, signers, owner, list);
            let will = state->0;
            let allowed = signers.contains(owner) && state is Some && will.owner == owner;
            &&& outcome is Ok <==> allowed && !will.triggered && divides_the_whole(list)
            &&& outcome matches Ok(after) ==> {
                &&& after.beneficiaries == list
                &&& after.owner == will.owner
                &&& after.inactivity_period == will.inactivity_period
                &&& after.last_check_in == will.last_check_in
                &&& after.triggered == will.triggered
                &&& after.release_time == will.release_time
                &&& after.keeper_bounty_bps == will.keeper_bounty_bps
                &&& after.status == will.status
            }
            &&& !signers.contains(owner) ==> outcome == Err::<WillView, WillError>(
                WillError::NotOwner,
            )
            &&& signers.contains(owner) && state is None ==> outcome == Err::<WillView, WillError>(
                WillError::WillNotFound,
            )
            &&& signers.contains(owner) && state is Some && will.owner != owner ==> outcome
                == Err::<WillView, WillError>(WillError::NotOwner)
            &&& allowed && will.triggered ==> outcome == Err::<WillView, WillError>(
                WillError::WillNotActive,
            )
            &&& allowed && !will.triggered && !divides_the_whole(list) ==> outcome == Err::<
                WillView,
                WillError,
            >(shares_verdict(list)->Err_0)
        }),
{
    law_lists_must_divide_the_whole(list);
}

/// `trigger_will` succeeds exactly where there is an untriggered will whose
/// owner has been silent for the inactivity period. From the trigger on it is
/// seven days to the release, however late the trigger came: a release is
/// refused at every time before, and possible from then on. Nothing else about
/// the will changes.
pub proof fn law_what_trigger_will_does(state: Option<WillView>, now: u64, later: u64)
    requires
        triggered(state, now) is Ok ==> now + 604_800 <= u64::MAX,
    ensures
        ({
            let outcome = triggered(state, now);
            let will = state->0;
            let due = now >= will.last_check_in + will.inactivity_period;
            &&& outcome is Ok <==> state is Some && !will.triggered && due
            &&& outcome matches Ok(after) ==> {
                &&& after.triggered
                &&& after.status == WillStatus::Triggered
                &&& after.release_time == now + 604_800
                &&& after.owner == will.owner
                &&& after.beneficiaries == will.beneficiaries
                &&& after.inactivity_period == will.inactivity_period
                &&& after.last_check_in == will.last_check_in
                &&& after.keeper_bounty_bps == will.keeper_bounty_bps
                &&& later < now + 604_800 ==> releasable(Some(after), later) == Err::<
                    WillView,
                    WillError,
                >(WillError::GracePeriodNotExpired)
                &&& later >= now + 604_800 ==> releasable(Some(after), later) == Ok::<
                    WillView,
                    WillError,
                >(after)
            }
            &&& state is None ==> outcome == Err::<WillView, WillError>(WillError::WillNotFound)
            &&& state is Some && will.triggered ==> outcome == Err::<WillView, WillError>(
                WillError::WillNotActive,
            )
            &&& state is Some && !will.triggered && !due ==> outcome == Err::<WillView, WillError>(
                WillError::CheckinNotDue,
            )
        }),
{
}

/// `release_inheritance` succeeds exactly where there is a triggered will that
/// has not been released, and its release time has come. It pays out that
/// very will, and changes nothing about it but the status.
pub proof fn law_what_release_inheritance_does(state: Option<WillView>, now: u64)
    ensures
        ({
            let outcome = releasable(state, now);
            let will = state->0;
            let waiting = state is Some && will.status == WillStatus::Triggered;
            &&& outcome is Ok <==> waiting && now >= will.release_time
            &&& outcome matches Ok(paid) ==> paid == will
            &&& state is None ==> outcome == Err::<WillView, WillError>(WillError::WillNotFound)
            &&& state is Some && !waiting ==> outcome == Err::<WillView, WillError>(
                WillError::WillNotTriggered,
            )
            &&& waiting && now < will.release_time ==> outcome == Err::<WillView, WillError>(
                WillError::GracePeriodNotExpired,
            )
            &&& released(will).status == WillStatus::Released
            &&& released(will).owner == will.owner
            &&& released(will).beneficiaries == will.beneficiaries
            &&& released(will).inactivity_period == will.inactivity_period
            &&& released(will).last_check_in == will.last_check_in
            &&& released(will).triggered == will.triggered
            &&& released(will).release_time == will.release_time
            &&& released(will).keeper_bounty_bps == will.keeper_bounty_bps
        }),
{
}

/// `get_will` gives the stored will as it is, and fails where there is none.
pub proof fn law_what_get_will_does(state: Option<WillView>)
    ensures
        state matches Some(will) ==> read(state) == Ok::<WillView, WillError>(will),
        state is None ==> read(state) == Err::<WillView, WillError>(WillError::WillNotFound),
{
}

/// What being well formed means for a stored will: its list divides the whole,
/// its bounty is at most one hundredth, its period is above zero, and it is
/// either active without a release time, or triggered or released with one
/// that leaves the owner the whole period and seven days.
pub proof fn law_what_well_formed_means(will: WillView)
    ensures
        will.well_formed() <==> {
            &&& divides_the_whole(will.beneficiaries)
            &&& will.keeper_bounty_bps <= 100
            &&& will.inactivity_period >= 1
            &&& if will.triggered {
                &&& will.status == WillStatus::Triggered || will.status == WillStatus::Released
                &&& will.release_time >= will.last_check_in + will.inactivity_period + 604_800
            } else {
                &&& will.status == WillStatus::Active
                &&& will.release_time == 0
            }
        },
        state_well_formed(Some(will)) <==> will.well_formed(),
        state_well_formed(None),
{
    law_lists_must_divide_the_whole(will.beneficiaries);
}

/// The deadline in events is the time from which the will can be triggered,
/// where that is a time at all.
pub proof fn law_deadline_is_when_the_trigger_is_due(will: WillView, now: u64)
    requires
        !will.triggered,
    ensures
        now < check_in_deadline(will) ==> triggered(Some(will), now) is Err,
        will.last_check_in + will.inactivity_period <= u64::MAX && now >= check_in_deadline(will)
            ==> triggered(Some(will), now) is Ok,
        will.last_check_in + will.inactivity_period > u64::MAX ==> check_in_deadline(will)
            == u64::MAX,
{
}

/// Each change by the owner is told in one event about the will: who made it,
/// who the beneficiaries are, and until when the owner may stay silent.
pub proof fn law_what_owner_events_tell(will: WillView)
    requires
        will.beneficiaries.len() <= 10,
    ensures
        ({
            let event = created_event(will);
            &&& event.name == EventName::WillCreated
            &&& event.subject == Subject::Will(1)
            &&& event.data matches EventDataView::Tuple(fields)
            &&& fields.len() == 4
            &&& fields[0] == FieldView::Address(will.owner)
            &&& fields[1] == FieldView::U32(0)
            &&& fields[2] == FieldView::Shares(will.beneficiaries)
            &&& fields[3] == FieldView::U64(check_in_deadline(will))
        }),
        ({
            let event = checked_in_event(will);
            &&& event.name == EventName::CheckIn
            &&& event.subject == Subject::Will(1)
            &&& event.data matches EventDataView::Tuple(fields)
            &&& fields.len() == 2
            &&& fields[0] == FieldView::Address(will.owner)
            &&& fields[1] == FieldView::U64(check_in_deadline(will))
        }),
        ({
            let event = updated_event(will);
            &&& event.name == EventName::BeneficiariesUpdated
            &&& event.subject == Subject::Will(1)
            &&& event.data matches EventDataView::Tuple(fields)
            &&& fields.len() == 3
            &&& fields[0] == FieldView::Address(will.owner)
            &&& fields[1] matches FieldView::U32(count)
            &&& count == will.beneficiaries.len()
            &&& fields[2] == FieldView::Shares(will.beneficiaries)
        }),
{
}

/// The view of a will shows every field, and the view of the instance storage
/// shows the will: two with the same view hold the same.
pub proof fn law_views_of_wills_are_complete(will: Will, instance: Instance)
    ensures
        will@.owner == will.owner,
        will@.beneficiaries == will.beneficiaries@,
        will@.inactivity_period == will.inactivity_period,
        will@.last_check_in == will.last_check_in,
        will@.triggered == will.triggered,
        will@.release_time == will.release_time,
        will@.keeper_bounty_bps == will.keeper_bounty_bps,
        will@.status == will.status,
        instance.will is Some ==> instance@ == Some(instance.will->0@),
        instance.will is None ==> instance@ is None,
{
}

} // verus!
