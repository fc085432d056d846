//! What holds of the entry points taken together.

use crate::address::Address;
use crate::contract::{
    bounty_due, bounty_transfer, bps_part, checked_in, created, lemma_parts_total,
    lemma_passed_shares_in_bounds, part_transfers, parts_total, payouts, read, releasable,
    release_transfers, released, shares_in_bounds, state_well_formed, total_share, triggered,
    updated, Beneficiary, Transfer, WillView, MAX_BENEFICIARIES, RELEASE_DELAY, WHOLE_BPS,
};
use crate::errors::WillError;
use crate::types::WillStatus;
use vstd::prelude::*;

verus! {

/// The sum of the amounts of a list of transfers.
pub open spec fn total_amount(transfers: Seq<Transfer>) -> int
    decreases transfers.len(),
{
    if transfers.len() == 0 {
        0
    } else {
        total_amount(transfers.drop_last()) + transfers.last().amount
    }
}

/// Every step leads from a well-formed will to a well-formed will.
pub proof fn law_steps_keep_well_formed(
    state: Option<WillView>,
    now: u64,
    signers: Seq<Address>,
    owner: Address,
    beneficiaries: Seq<Beneficiary>,
    inactivity_period: u64,
    keeper_bounty_bps: u32,
)
    requires
        state_well_formed(state),
        triggered(state, now) is Ok ==> now + RELEASE_DELAY <= u64::MAX,
    ensures
        created(
            now,
            signers,
            owner,
            beneficiaries,
            inactivity_period,
            keeper_bounty_bps,
        ) matches Ok(will) ==> will.well_formed(),
        checked_in(state, now, signers) matches Ok(will) ==> will.well_formed(),
        updated(state, signers, owner, beneficiaries) matches Ok(will) ==> will.well_formed(),
        triggered(state, now) matches Ok(will) ==> will.well_formed(),
        releasable(state, now) matches Ok(will) ==> released(will).well_formed(),
{
}

/// A will that was just created is read back as it was given, active and
/// checked in at that moment.
pub proof fn law_created_will_is_read_back(
    now: u64,
    signers: Seq<Address>,
    owner: Address,
    beneficiaries: Seq<Beneficiary>,
    inactivity_period: u64,
    keeper_bounty_bps: u32,
)
    ensures
        created(
            now,
            signers,
            owner,
            beneficiaries,
            inactivity_period,
            keeper_bounty_bps,
        ) matches Ok(will) ==> {
            &&& read(Some(will)) == Ok::<WillView, WillError>(will)
            &&& will.owner == owner
            &&& will.beneficiaries == beneficiaries
            &&& will.inactivity_period == inactivity_period
            &&& will.keeper_bounty_bps == keeper_bounty_bps
            &&& will.last_check_in == now
            &&& !will.triggered
            &&& will.status == WillStatus::Active
        },
{
}

/// No will can be triggered at the time of its creation: its owner always has
/// some time, and the end of it can be told as a time.
pub proof fn law_new_will_is_not_due(
    now: u64,
    signers: Seq<Address>,
    owner: Address,
    beneficiaries: Seq<Beneficiary>,
    inactivity_period: u64,
    keeper_bounty_bps: u32,
)
    ensures
        created(
            now,
            signers,
            owner,
            beneficiaries,
            inactivity_period,
            keeper_bounty_bps,
        ) matches Ok(will) ==> {
            &&& triggered(Some(will), now) == Err::<WillView, WillError>(WillError::CheckinNotDue)
            &&& now < will.last_check_in + will.inactivity_period <= u64::MAX
            &&& 1 <= will.beneficiaries.len() <= MAX_BENEFICIARIES
        },
{
    if let Ok(will) = created(
        now,
        signers,
        owner,
        beneficiaries,
        inactivity_period,
        keeper_bounty_bps,
    ) {
        lemma_passed_shares_in_bounds(beneficiaries);
    }
}

/// Creating, checking in and updating succeed only with the signature of the
/// owner, who stays the same.
pub proof fn law_owner_must_sign(
    state: Option<WillView>,
    now: u64,
    signers: Seq<Address>,
    owner: Address,
    beneficiaries: Seq<Beneficiary>,
    inactivity_period: u64,
    keeper_bounty_bps: u32,
)
    ensures
        created(
            now,
            signers,
            owner,
            beneficiaries,
            inactivity_period,
            keeper_bounty_bps,
        ) matches Ok(will) ==> signers.contains(will.owner),
        checked_in(state, now, signers) matches Ok(will) ==> signers.contains(will.owner)
            && will.owner == state->0.owner,
        updated(state, signers, owner, beneficiaries) matches Ok(will) ==> signers.contains(
            will.owner,
        ) && will.owner == state->0.owner,
{
}

/// A new list of beneficiaries changes nothing else about the will.
pub proof fn law_update_changes_beneficiaries_only(
    state: Option<WillView>,
    signers: Seq<Address>,
    owner: Address,
    beneficiaries: Seq<Beneficiary>,
)
    ensures
        updated(state, signers, owner, beneficiaries) matches Ok(will) ==> will == (WillView {
            beneficiaries,
            ..state->0
        }),
{
}

/// After a check-in the will cannot be triggered until the whole inactivity
/// period has passed again, and can be from then on.
pub proof fn law_check_in_postpones_trigger(
    state: Option<WillView>,
    checked_at: u64,
    signers: Seq<Address>,
    now: u64,
)
    ensures
        checked_in(state, checked_at, signers) matches Ok(will) ==> {
            &&& now < checked_at + will.inactivity_period ==> triggered(Some(will), now) == Err::<
                WillView,
                WillError,
            >(WillError::CheckinNotDue)
            &&& now >= checked_at + will.inactivity_period ==> triggered(Some(will), now) is Ok
        },
{
}

/// Once triggered, a will can neither be checked in, nor changed, nor
/// triggered again.
pub proof fn law_triggered_will_is_frozen(
    will: WillView,
    now: u64,
    signers: Seq<Address>,
    owner: Address,
    beneficiaries: Seq<Beneficiary>,
)
    requires
        will.triggered,
    ensures
        checked_in(Some(will), now, signers) is Err,
        updated(Some(will), signers, owner, beneficiaries) is Err,
        triggered(Some(will), now) == Err::<WillView, WillError>(WillError::WillNotActive),
{
}

/// Funds are never released before the inactivity period after the last
/// check-in and the delay after that have both passed.
pub proof fn law_no_early_release(will: WillView, now: u64)
    requires
        will.well_formed(),
        releasable(Some(will), now) is Ok,
    ensures
        now >= will.last_check_in + will.inactivity_period + RELEASE_DELAY,
{
}

/// An owner who stays silent does not keep the funds locked: the will can be
/// triggered when the inactivity period is over, and its funds released when
/// the delay has passed, whoever calls.
pub proof fn law_silence_leads_to_release(will: WillView, trigger_at: u64, release_at: u64)
    requires
        !will.triggered,
        trigger_at >= will.last_check_in + will.inactivity_period,
        release_at >= trigger_at + RELEASE_DELAY,
    ensures
        triggered(Some(will), trigger_at) is Ok,
        releasable(Some((triggered(Some(will), trigger_at))->Ok_0), release_at) is Ok,
{
}

/// After a release the will can still be read, as it was but for its status,
/// and nothing can be done with it any more: it cannot be checked in, changed,
/// triggered or released a second time.
pub proof fn law_release_happens_once(
    state: Option<WillView>,
    released_at: u64,
    now: u64,
    signers: Seq<Address>,
    owner: Address,
    beneficiaries: Seq<Beneficiary>,
)
    requires
        state_well_formed(state),
        releasable(state, released_at) is Ok,
    ensures
        ({
            let after = Some(released(releasable(state, released_at)->Ok_0));
            &&& read(after) == Ok::<WillView, WillError>(
                WillView { status: WillStatus::Released, ..state->0 },
            )
            &&& checked_in(after, now, signers) is Err
            &&& signers.contains(state->0.owner) ==> checked_in(after, now, signers) == Err::<
                WillView,
                WillError,
            >(WillError::WillNotActive)
            &&& updated(after, signers, owner, beneficiaries) is Err
            &&& triggered(after, now) == Err::<WillView, WillError>(WillError::WillNotActive)
            &&& releasable(after, now) == Err::<WillView, WillError>(WillError::WillNotTriggered)
        }),
{
}

/// The keeper's bounty is never more than one hundredth of the balance, and
/// nothing where no keeper is named.
pub proof fn law_bounty_is_capped(will: WillView, balance: i128, keeper: Option<Address>)
    requires
        will.well_formed(),
        balance >= 0,
    ensures
        0 <= bounty_due(will, balance, keeper),
        100 * bounty_due(will, balance, keeper) <= balance,
        keeper is None ==> bounty_due(will, balance, keeper) == 0,
{
    let bps = will.keeper_bounty_bps as int;
    let amount = balance as int;
    assert(0 <= amount * bps <= amount * 100) by (nonlinear_arith)
        requires
            0 <= amount,
            0 <= bps <= 100,
    ;
}

/// Whether `address` is one of the beneficiaries.
pub open spec fn is_named(beneficiaries: Seq<Beneficiary>, address: Address) -> bool {
    exists|i: int| 0 <= i < beneficiaries.len() && (#[trigger] beneficiaries[i]).address == address
}

/// Whether every transfer moves a positive amount of the token from the given
/// address to one of the beneficiaries or to the keeper.
pub open spec fn goes_to_heirs(
    transfers: Seq<Transfer>,
    beneficiaries: Seq<Beneficiary>,
    token: Address,
    from: Address,
    keeper: Option<Address>,
) -> bool {
    forall|i: int|
        0 <= i < transfers.len() ==> {
            let transfer = #[trigger] transfers[i];
            &&& transfer.amount > 0
            &&& transfer.token == token
            &&& transfer.from == from
            &&& is_named(beneficiaries, transfer.to) || keeper == Some(transfer.to)
        }
}

/// The rounded parts of the first beneficiaries: what they add up to, and
/// where they go.
proof fn lemma_part_transfers(
    beneficiaries: Seq<Beneficiary>,
    count: int,
    token: Address,
    from: Address,
    amount: int,
)
    requires
        shares_in_bounds(beneficiaries),
        0 <= count <= beneficiaries.len(),
        0 <= amount <= i128::MAX,
    ensures
        total_amount(part_transfers(beneficiaries.take(count), token, from, amount))
            == parts_total(beneficiaries.take(count), amount),
        goes_to_heirs(
            part_transfers(beneficiaries.take(count), token, from, amount),
            beneficiaries,
            token,
            from,
            None,
        ),
    decreases count,
{
    if count > 0 {
        lemma_part_transfers(beneficiaries, count - 1, token, from, amount);
        let some = beneficiaries.take(count);
        let last = beneficiaries[count - 1];
        assert(some.drop_last() =~= beneficiaries.take(count - 1));
        assert(some.last() == last);
        let share = last.share_bps as int;
        assert(0 <= amount * share <= amount * 10_000) by (nonlinear_arith)
            requires
                0 <= amount,
                0 <= share <= 10_000,
        ;
        let before = part_transfers(beneficiaries.take(count - 1), token, from, amount);
        let all = part_transfers(some, token, from, amount);
        assert(is_named(beneficiaries, last.address));
        if bps_part(amount, share) > 0 {
            assert(all.drop_last() =~= before);
        }
    }
}

/// The payouts make up the whole amount. The last one goes to the last
/// beneficiary, who receives at least the rounded part and less than one unit
/// more for each beneficiary.
proof fn lemma_payouts(
    beneficiaries: Seq<Beneficiary>,
    token: Address,
    from: Address,
    amount: int,
)
    requires
        shares_in_bounds(beneficiaries),
        total_share(beneficiaries) == WHOLE_BPS,
        beneficiaries.len() > 0,
        0 < amount <= i128::MAX,
    ensures
        ({
            let paid = payouts(beneficiaries, token, from, amount);
            let part = bps_part(amount, beneficiaries.last().share_bps as int);
            &&& total_amount(paid) == amount
            &&& goes_to_heirs(paid, beneficiaries, token, from, None)
            &&& paid.len() > 0
            &&& paid.last().to == beneficiaries.last().address
            &&& paid.last().amount == amount - parts_total(beneficiaries.drop_last(), amount)
            &&& part <= paid.last().amount < part + beneficiaries.len()
        }),
{
    let others = beneficiaries.drop_last();
    let share = beneficiaries.last().share_bps as int;
    let before = part_transfers(others, token, from, amount);
    let paid = payouts(beneficiaries, token, from, amount);
    let left = amount - parts_total(others, amount);
    assert(others =~= beneficiaries.take(beneficiaries.len() - 1));
    lemma_part_transfers(beneficiaries, beneficiaries.len() - 1, token, from, amount);
    lemma_parts_total(others, amount);
    lemma_parts_total(beneficiaries, amount);
    assert(beneficiaries.last() == beneficiaries[beneficiaries.len() - 1]);
    assert(amount * total_share(others) + amount * share == amount * 10_000) by (nonlinear_arith)
        requires
            total_share(others) + share == 10_000,
    ;
    assert(amount * share > 0) by (nonlinear_arith)
        requires
            amount > 0,
            share > 0,
    ;
    assert(left > 0);
    assert(paid.drop_last() =~= before);
    assert(is_named(beneficiaries, beneficiaries.last().address));
}

/// The sum of a list with one more transfer in front.
proof fn lemma_total_amount_with_head(head: Transfer, tail: Seq<Transfer>)
    ensures
        total_amount(seq![head] + tail) == head.amount + total_amount(tail),
    decreases tail.len(),
{
    let all = seq![head] + tail;
    if tail.len() > 0 {
        assert(all.drop_last() =~= seq![head] + tail.drop_last());
        lemma_total_amount_with_head(head, tail.drop_last());
    } else {
        assert(all.drop_last() =~= Seq::<Transfer>::empty());
        assert(tail =~= Seq::<Transfer>::empty());
    }
}

/// A release pays out the whole balance, to the last unit. Every transfer
/// moves a positive amount of the token from the contract to one of the
/// beneficiaries or to the keeper.
pub proof fn law_release_conserves_funds(
    will: WillView,
    token: Address,
    from: Address,
    balance: i128,
    keeper: Option<Address>,
)
    requires
        will.well_formed(),
        balance >= 0,
    ensures
        total_amount(release_transfers(will, token, from, balance, keeper)) == balance,
        goes_to_heirs(
            release_transfers(will, token, from, balance, keeper),
            will.beneficiaries,
            token,
            from,
            keeper,
        ),
{
    law_bounty_is_capped(will, balance, keeper);
    let rest = balance - bounty_due(will, balance, keeper);
    let parts = payouts(will.beneficiaries, token, from, rest);
    lemma_passed_shares_in_bounds(will.beneficiaries);
    if rest > 0 {
        lemma_payouts(will.beneficiaries, token, from, rest);
    }
    if let Some(transfer) = bounty_transfer(will, token, from, balance, keeper) {
        lemma_total_amount_with_head(transfer, parts);
        let all = seq![transfer] + parts;
        assert forall|i: int| 0 <= i < all.len() implies {
            let transfer = #[trigger] all[i];
            &&& transfer.amount > 0
            &&& transfer.token == token
            &&& transfer.from == from
            &&& is_named(will.beneficiaries, transfer.to) || keeper == Some(transfer.to)
        } by {
            if i > 0 {
                assert(all[i] == parts[i - 1]);
            }
        }
    }
}

/// The last beneficiary is paid last, and absorbs what rounding down takes
/// from the others: it receives at least its rounded part of what the bounty
/// leaves, and less than one unit more for each beneficiary. A sole
/// beneficiary receives all of it.
pub proof fn law_last_beneficiary_absorbs_remainder(
    will: WillView,
    token: Address,
    from: Address,
    balance: i128,
    keeper: Option<Address>,
)
    requires
        will.well_formed(),
        balance > 0,
    ensures
        ({
            let paid = release_transfers(will, token, from, balance, keeper);
            let rest = balance - bounty_due(will, balance, keeper);
            let last = will.beneficiaries.last();
            let part = bps_part(rest, last.share_bps as int);
            &&& paid.len() > 0
            &&& paid.last().to == last.address
            &&& paid.last().amount == rest - parts_total(will.beneficiaries.drop_last(), rest)
            &&& part <= paid.last().amount < part + will.beneficiaries.len()
            &&& will.beneficiaries.len() == 1 ==> paid.last().amount == rest
        }),
{
    law_bounty_is_capped(will, balance, keeper);
    let rest = balance - bounty_due(will, balance, keeper);
    lemma_passed_shares_in_bounds(will.beneficiaries);
    lemma_payouts(will.beneficiaries, token, from, rest);
}

} // verus!
