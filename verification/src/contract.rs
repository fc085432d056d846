//! The entry points of the single-will contract.
//!
//! Each entry point is a step on the contract's [`Instance`] storage. What a
//! step needs of its surroundings comes in as plain values (the ledger time,
//! who signed, a token balance); what it asks of them goes out as plain values
//! (token transfers, an event). A refused step leaves the storage untouched.

use crate::address::{list_contains, Address};
use crate::errors::WillError;
use crate::events;
use crate::events::{Event, EventName, EventView, Field, FieldView};
use crate::types::WillStatus;
use vstd::prelude::*;

verus! {

/// The largest keeper bounty a will may offer, in basis points.
pub const MAX_KEEPER_BOUNTY_BPS: u32 = 100;

/// The whole of an amount, in basis points.
pub const WHOLE_BPS: u32 = 10_000;

/// Seconds between the triggering of a will and the release of its funds.
pub const RELEASE_DELAY: u64 = 604_800;

/// The largest number of beneficiaries a will may name.
pub const MAX_BENEFICIARIES: usize = 10;

/// The identifier under which events speak of the contract's only will.
pub const WILL_ID: u64 = 1;

/// A beneficiary and the part of the funds it is to receive, in basis points.
#[derive(Clone, Copy, Debug, PartialEq, Eq, Structural)]
pub struct Beneficiary {
    pub address: Address,
    pub share_bps: u32,
}

/// The stored state of the will.
#[derive(Debug)]
pub struct Will {
    /// Who made the will and keeps it from being triggered.
    pub owner: Address,
    /// Who receives the funds.
    pub beneficiaries: Vec<Beneficiary>,
    /// Seconds without a check-in after which the will may be triggered.
    pub inactivity_period: u64,
    /// Ledger time of the last check-in.
    pub last_check_in: u64,
    /// Whether the will has been triggered.
    pub triggered: bool,
    /// Ledger time from which the funds may be released; zero until triggered.
    pub release_time: u64,
    /// Part of the funds offered to whoever triggers or releases the will.
    pub keeper_bounty_bps: u32,
    /// Active, triggered or released.
    pub status: WillStatus,
}

/// A will as a mathematical value.
pub struct WillView {
    pub owner: Address,
    pub beneficiaries: Seq<Beneficiary>,
    pub inactivity_period: u64,
    pub last_check_in: u64,
    pub triggered: bool,
    pub release_time: u64,
    pub keeper_bounty_bps: u32,
    pub status: WillStatus,
}

impl View for Will {
    type V = WillView;

    open spec fn view(&self) -> WillView {
        WillView {
            owner: self.owner,
            beneficiaries: self.beneficiaries@,
            inactivity_period: self.inactivity_period,
            last_check_in: self.last_check_in,
            triggered: self.triggered,
            release_time: self.release_time,
            keeper_bounty_bps: self.keeper_bounty_bps,
            status: self.status,
        }
    }
}

impl Clone for Will {
    fn clone(&self) -> (copy: Self)
        ensures
            copy@ == self@,
    {
        let beneficiaries = self.beneficiaries.clone();
        assert(beneficiaries@ =~= self.beneficiaries@);
        Will {
            owner: self.owner,
            beneficiaries,
            inactivity_period: self.inactivity_period,
            last_check_in: self.last_check_in,
            triggered: self.triggered,
            release_time: self.release_time,
            keeper_bounty_bps: self.keeper_bounty_bps,
            status: self.status,
        }
    }
}

/// The contract's instance storage: the will, if there is one.
#[derive(Debug)]
pub struct Instance {
    pub will: Option<Will>,
}

impl View for Instance {
    type V = Option<WillView>;

    open spec fn view(&self) -> Option<WillView> {
        match self.will {
            Some(will) => Some(will@),
            None => None,
        }
    }
}

/// What a call finds: the ledger time, the contract's own address, and the
/// addresses that have authorised the call.
#[derive(Debug)]
pub struct Invocation {
    pub timestamp: u64,
    pub contract_address: Address,
    pub signers: Vec<Address>,
}

/// A movement of `amount` units of `token` from one address to another.
#[derive(Clone, Copy, Debug, PartialEq, Eq, Structural)]
pub struct Transfer {
    pub token: Address,
    pub from: Address,
    pub to: Address,
    pub amount: i128,
}

/// Published when the will is triggered.
#[derive(Clone, Copy, Debug, PartialEq, Eq, Structural)]
pub struct WillTriggeredEvent {
    pub owner: Address,
    pub triggered_by: Address,
    pub release_time: u64,
    pub keeper_bounty_paid: i128,
}

impl WillTriggeredEvent {
    /// The topic under which this event is published.
    pub fn topic(&self) -> (topic: &'static str)
        ensures
            topic@ == "will_triggered"@,
    {
        "will_triggered"
    }
}

/// Published when the funds are released.
#[derive(Clone, Copy, Debug, PartialEq, Eq, Structural)]
pub struct InheritanceReleasedEvent {
    pub owner: Address,
    pub released_by: Address,
    pub total_amount: i128,
    pub keeper_bounty_paid: i128,
}

impl InheritanceReleasedEvent {
    /// The topic under which this event is published.
    pub fn topic(&self) -> (topic: &'static str)
        ensures
            topic@ == "inheritance_released"@,
    {
        "inheritance_released"
    }
}

/// What a successful trigger asks for: the keeper's bounty, if one is due, and
/// one event.
#[derive(Debug)]
pub struct Trigger {
    pub bounty: Option<Transfer>,
    pub event: WillTriggeredEvent,
}

/// What a successful release asks for: the transfers, in order, and one event.
#[derive(Debug)]
pub struct Release {
    pub transfers: Vec<Transfer>,
    pub event: InheritanceReleasedEvent,
}

/// The sum of the beneficiaries' shares.
pub open spec fn total_share(beneficiaries: Seq<Beneficiary>) -> int
    decreases beneficiaries.len(),
{
    if beneficiaries.len() == 0 {
        0
    } else {
        total_share(beneficiaries.drop_last()) + beneficiaries.last().share_bps
    }
}

/// Whether every single share is above zero and at most the whole.
pub open spec fn shares_in_bounds(beneficiaries: Seq<Beneficiary>) -> bool {
    forall|i: int|
        0 <= i < beneficiaries.len() ==> 0 < (#[trigger] beneficiaries[i]).share_bps <= WHOLE_BPS
}

/// Whether some beneficiary is to receive nothing.
pub open spec fn has_empty_share(beneficiaries: Seq<Beneficiary>) -> bool {
    exists|i: int|
        0 <= i < beneficiaries.len() && (#[trigger] beneficiaries[i]).share_bps == 0
}

/// Whether one share is more than the whole, and no other is.
pub open spec fn has_lone_excess(beneficiaries: Seq<Beneficiary>) -> bool {
    exists|i: int|
        #![trigger beneficiaries[i]]
        0 <= i < beneficiaries.len() && beneficiaries[i].share_bps > WHOLE_BPS && forall|j: int|
            0 <= j < beneficiaries.len() && j != i ==> (#[trigger] beneficiaries[j]).share_bps
                <= WHOLE_BPS
}

/// The verdict on a list of beneficiaries: it must not be too long, every
/// single share must be in bounds, and together the shares must make up the
/// whole. Shares whose sum does not even fit into 32 bits are refused for the
/// sum, unless one of them is zero.
pub open spec fn shares_verdict(beneficiaries: Seq<Beneficiary>) -> Result<(), WillError> {
    if beneficiaries.len() > MAX_BENEFICIARIES {
        Err(WillError::TooManyBeneficiaries)
    } else if has_empty_share(beneficiaries) || (total_share(beneficiaries) <= u32::MAX
        && !shares_in_bounds(beneficiaries)) {
        Err(WillError::InvalidPercentage)
    } else if total_share(beneficiaries) != WHOLE_BPS {
        Err(WillError::InvalidPercentages)
    } else {
        Ok(())
    }
}

/// The verdict on the list of a new will, which differs in the reason alone: a
/// list in which just one share is more than the whole is refused for that
/// share, however large the sum.
pub open spec fn new_shares_verdict(beneficiaries: Seq<Beneficiary>) -> Result<(), WillError> {
    if beneficiaries.len() <= MAX_BENEFICIARIES && has_lone_excess(beneficiaries) {
        Err(WillError::InvalidPercentage)
    } else {
        shares_verdict(beneficiaries)
    }
}

/// `bps` basis points of `amount`, rounded down.
pub open spec fn bps_part(amount: int, bps: int) -> int {
    amount * bps / (WHOLE_BPS as int)
}

impl WillView {
    /// What holds of every stored will: its shares make up the whole, its
    /// bounty is within the maximum, its owner may be silent for some time,
    /// its status tells whether it has been triggered, and a release time is
    /// set exactly when it has, no sooner than the inactivity period and the
    /// delay after the last check-in.
    pub open spec fn well_formed(self) -> bool {
        &&& shares_verdict(self.beneficiaries) is Ok
        &&& self.keeper_bounty_bps <= MAX_KEEPER_BOUNTY_BPS
        &&& self.inactivity_period > 0
        &&& self.status == WillStatus::Active || self.status == WillStatus::Triggered
            || self.status == WillStatus::Released
        &&& self.triggered <==> self.status != WillStatus::Active
        &&& !self.triggered ==> self.release_time == 0
        &&& self.triggered ==> self.release_time >= self.last_check_in + self.inactivity_period
            + RELEASE_DELAY
    }
}

/// The time from which a will may be triggered unless its owner checks in;
/// the end of time, where it is later than that.
pub open spec fn check_in_deadline(will: WillView) -> u64 {
    if will.last_check_in + will.inactivity_period > u64::MAX {
        u64::MAX
    } else {
        (will.last_check_in + will.inactivity_period) as u64
    }
}

/// The event of a will's creation. No token is locked by it.
pub open spec fn created_event(will: WillView) -> EventView {
    events::will_event(
        EventName::WillCreated,
        WILL_ID,
        seq![
            FieldView::Address(will.owner),
            FieldView::U32(0),
            FieldView::Shares(will.beneficiaries),
            FieldView::U64(check_in_deadline(will)),
        ],
    )
}

/// The event of a check-in.
pub open spec fn checked_in_event(will: WillView) -> EventView {
    events::will_event(
        EventName::CheckIn,
        WILL_ID,
        seq![FieldView::Address(will.owner), FieldView::U64(check_in_deadline(will))],
    )
}

/// The event of a change of beneficiaries.
pub open spec fn updated_event(will: WillView) -> EventView {
    events::will_event(
        EventName::BeneficiariesUpdated,
        WILL_ID,
        seq![
            FieldView::Address(will.owner),
            FieldView::U32(will.beneficiaries.len() as u32),
            FieldView::Shares(will.beneficiaries),
        ],
    )
}

/// What holds of the instance storage at all times.
pub open spec fn state_well_formed(state: Option<WillView>) -> bool {
    state matches Some(will) ==> will.well_formed()
}

/// What `get_will` returns.
pub open spec fn read(state: Option<WillView>) -> Result<WillView, WillError> {
    match state {
        Some(will) => Ok(will),
        None => Err(WillError::WillNotFound),
    }
}

/// The will that `create_will` stores, or why it refuses.
pub open spec fn created(
    now: u64,
    signers: Seq<Address>,
    owner: Address,
    beneficiaries: Seq<Beneficiary>,
    inactivity_period: u64,
    keeper_bounty_bps: u32,
) -> Result<WillView, WillError> {
    if !signers.contains(owner) {
        Err(WillError::NotOwner)
    } else if keeper_bounty_bps > MAX_KEEPER_BOUNTY_BPS {
        Err(WillError::KeeperBountyTooHigh)
    } else {
        match new_shares_verdict(beneficiaries) {
            Err(error) => Err(error),
            Ok(_) => if inactivity_period == 0 || now + inactivity_period > u64::MAX {
                Err(WillError::InvalidPeriod)
            } else {
                Ok(
                    WillView {
                        owner,
                        beneficiaries,
                        inactivity_period,
                        last_check_in: now,
                        triggered: false,
                        release_time: 0,
                        keeper_bounty_bps,
                        status: WillStatus::Active,
                    },
                )
            },
        }
    }
}

/// The will that `check_in` stores, or why it refuses.
pub open spec fn checked_in(state: Option<WillView>, now: u64, signers: Seq<Address>) -> Result<
    WillView,
    WillError,
> {
    match state {
        None => Err(WillError::WillNotFound),
        Some(will) => if !signers.contains(will.owner) {
            Err(WillError::NotOwner)
        } else if will.triggered {
            Err(WillError::WillNotActive)
        } else {
            Ok(WillView { last_check_in: now, ..will })
        },
    }
}

/// The will that `update_beneficiaries` stores, or why it refuses.
pub open spec fn updated(
    state: Option<WillView>,
    signers: Seq<Address>,
    owner: Address,
    beneficiaries: Seq<Beneficiary>,
) -> Result<WillView, WillError> {
    if !signers.contains(owner) {
        Err(WillError::NotOwner)
    } else {
        match state {
            None => Err(WillError::WillNotFound),
            Some(will) => if will.owner != owner {
                Err(WillError::NotOwner)
            } else if will.triggered {
                Err(WillError::WillNotActive)
            } else {
                match shares_verdict(beneficiaries) {
                    Err(error) => Err(error),
                    Ok(_) => Ok(WillView { beneficiaries, ..will }),
                }
            },
        }
    }
}

/// The will that `trigger_will` stores, or why it refuses.
pub open spec fn triggered(state: Option<WillView>, now: u64) -> Result<WillView, WillError> {
    match state {
        None => Err(WillError::WillNotFound),
        Some(will) => if will.triggered {
            Err(WillError::WillNotActive)
        } else if now < will.last_check_in + will.inactivity_period {
            Err(WillError::CheckinNotDue)
        } else {
            Ok(
                WillView {
                    triggered: true,
                    release_time: (now + RELEASE_DELAY) as u64,
                    status: WillStatus::Triggered,
                    ..will
                },
            )
        },
    }
}

/// The will whose funds `release_inheritance` pays out, or why it refuses.
pub open spec fn releasable(state: Option<WillView>, now: u64) -> Result<WillView, WillError> {
    match state {
        None => Err(WillError::WillNotFound),
        Some(will) => if will.status != WillStatus::Triggered {
            Err(WillError::WillNotTriggered)
        } else if now < will.release_time {
            Err(WillError::GracePeriodNotExpired)
        } else {
            Ok(will)
        },
    }
}

/// The bounty due to the keeper out of `balance`: nothing where no keeper is
/// named or there is nothing to pay from.
pub open spec fn bounty_due(will: WillView, balance: i128, keeper: Option<Address>) -> int {
    if keeper is Some && balance > 0 {
        bps_part(balance as int, will.keeper_bounty_bps as int)
    } else {
        0
    }
}

/// The keeper's bounty as a transfer; none where it comes to nothing.
pub open spec fn bounty_transfer(
    will: WillView,
    token: Address,
    from: Address,
    balance: i128,
    keeper: Option<Address>,
) -> Option<Transfer> {
    let amount = bounty_due(will, balance, keeper);
    if keeper is Some && amount > 0 {
        Some(Transfer { token, from, to: keeper->0, amount: amount as i128 })
    } else {
        None
    }
}

/// The event of a trigger.
pub open spec fn trigger_event(
    will: WillView,
    contract: Address,
    balance: i128,
    keeper: Option<Address>,
) -> WillTriggeredEvent {
    WillTriggeredEvent {
        owner: will.owner,
        triggered_by: contract,
        release_time: will.release_time,
        keeper_bounty_paid: bounty_due(will, balance, keeper) as i128,
    }
}

/// The event of a release.
pub open spec fn release_event(
    will: WillView,
    contract: Address,
    balance: i128,
    keeper: Option<Address>,
) -> InheritanceReleasedEvent {
    InheritanceReleasedEvent {
        owner: will.owner,
        released_by: contract,
        total_amount: balance,
        keeper_bounty_paid: bounty_due(will, balance, keeper) as i128,
    }
}

/// What the will is once its funds have been paid out.
pub open spec fn released(will: WillView) -> WillView {
    WillView { status: WillStatus::Released, ..will }
}

/// `transfers` with one more at the end; as they were, where its amount comes
/// to nothing.
pub open spec fn with_transfer(
    transfers: Seq<Transfer>,
    token: Address,
    from: Address,
    to: Address,
    amount: int,
) -> Seq<Transfer> {
    if amount > 0 {
        transfers.push(Transfer { token, from, to, amount: amount as i128 })
    } else {
        transfers
    }
}

/// The sum of the beneficiaries' parts of `amount`, each rounded down.
pub open spec fn parts_total(beneficiaries: Seq<Beneficiary>, amount: int) -> int
    decreases beneficiaries.len(),
{
    if beneficiaries.len() == 0 {
        0
    } else {
        parts_total(beneficiaries.drop_last(), amount) + bps_part(
            amount,
            beneficiaries.last().share_bps as int,
        )
    }
}

/// The beneficiaries' parts of `amount` as transfers, each rounded down, in
/// the order of the list.
pub open spec fn part_transfers(
    beneficiaries: Seq<Beneficiary>,
    token: Address,
    from: Address,
    amount: int,
) -> Seq<Transfer>
    decreases beneficiaries.len(),
{
    if beneficiaries.len() == 0 {
        Seq::empty()
    } else {
        let last = beneficiaries.last();
        with_transfer(
            part_transfers(beneficiaries.drop_last(), token, from, amount),
            token,
            from,
            last.address,
            bps_part(amount, last.share_bps as int),
        )
    }
}

/// The whole of `amount` as transfers to the beneficiaries: to each its part,
/// and to the last one all that the others leave, so that it absorbs what
/// rounding down takes from them.
pub open spec fn payouts(
    beneficiaries: Seq<Beneficiary>,
    token: Address,
    from: Address,
    amount: int,
) -> Seq<Transfer> {
    if beneficiaries.len() == 0 || amount <= 0 {
        Seq::empty()
    } else {
        let others = beneficiaries.drop_last();
        with_transfer(
            part_transfers(others, token, from, amount),
            token,
            from,
            beneficiaries.last().address,
            amount - parts_total(others, amount),
        )
    }
}

/// All transfers of a release: the bounty first, then the payouts of the rest.
pub open spec fn release_transfers(
    will: WillView,
    token: Address,
    from: Address,
    balance: i128,
    keeper: Option<Address>,
) -> Seq<Transfer> {
    let rest = balance - bounty_due(will, balance, keeper);
    let parts = payouts(will.beneficiaries, token, from, rest);
    match bounty_transfer(will, token, from, balance, keeper) {
        Some(bounty) => seq![bounty] + parts,
        None => parts,
    }
}

/// Rounding down in two steps, whole multiples of the denominator first,
/// gives the same part.
proof fn lemma_bps_part_split(amount: int, bps: int)
    requires
        0 <= amount,
        0 <= bps <= WHOLE_BPS,
    ensures
        bps_part(amount, bps) == (amount / 10_000) * bps + ((amount % 10_000) * bps) / 10_000,
        0 <= bps_part(amount, bps) <= amount,
        0 <= (amount / 10_000) * bps <= amount,
        0 <= (amount % 10_000) * bps <= 100_000_000,
{
    let q = amount / 10_000;
    let r = amount % 10_000;
    assert(amount == q * 10_000 + r);
    assert(amount * bps == (q * bps) * 10_000 + r * bps) by (nonlinear_arith)
        requires
            amount == q * 10_000 + r,
    ;
    assert(0 <= r * bps <= 100_000_000) by (nonlinear_arith)
        requires
            0 <= r < 10_000,
            0 <= bps <= 10_000,
    ;
    assert(0 <= q * bps <= q * 10_000) by (nonlinear_arith)
        requires
            0 <= q,
            0 <= bps <= 10_000,
    ;
    assert(r * bps <= r * 10_000) by (nonlinear_arith)
        requires
            0 <= r,
            bps <= 10_000,
    ;
}

/// `bps` basis points of `amount`, rounded down, without overflow on the way.
fn part_of(amount: i128, bps: u32) -> (part: i128)
    requires
        0 <= amount,
        bps <= WHOLE_BPS,
    ensures
        part == bps_part(amount as int, bps as int),
        0 <= part <= amount,
{
    proof {
        lemma_bps_part_split(amount as int, bps as int);
    }
    let whole: i128 = (amount / 10_000) * (bps as i128);
    let rest: i128 = ((amount % 10_000) * (bps as i128)) / 10_000;
    whole + rest
}

/// A share is at most the sum of all.
proof fn lemma_share_at_most_total(beneficiaries: Seq<Beneficiary>, i: int)
    requires
        0 <= i < beneficiaries.len(),
    ensures
        0 <= total_share(beneficiaries.take(i)),
        total_share(beneficiaries.take(i)) + beneficiaries[i].share_bps <= total_share(
            beneficiaries,
        ),
    decreases beneficiaries.len(),
{
    let front = beneficiaries.drop_last();
    if i < front.len() {
        lemma_share_at_most_total(front, i);
        assert(front.take(i) =~= beneficiaries.take(i));
    } else {
        assert(beneficiaries.take(i) =~= front);
        lemma_total_share_not_negative(front);
    }
}

/// The sum of shares is not negative.
proof fn lemma_total_share_not_negative(beneficiaries: Seq<Beneficiary>)
    ensures
        0 <= total_share(beneficiaries),
    decreases beneficiaries.len(),
{
    if beneficiaries.len() > 0 {
        lemma_total_share_not_negative(beneficiaries.drop_last());
    }
}

/// In a list that passes, every single share is in bounds.
pub(crate) proof fn lemma_passed_shares_in_bounds(beneficiaries: Seq<Beneficiary>)
    requires
        shares_verdict(beneficiaries) is Ok,
    ensures
        shares_in_bounds(beneficiaries),
        beneficiaries.len() > 0,
{
    assert forall|i: int| 0 <= i < beneficiaries.len() implies 0 < (
    #[trigger] beneficiaries[i]).share_bps <= WHOLE_BPS by {
        lemma_share_at_most_total(beneficiaries, i);
    }
}

/// The rounded parts of `amount` add up to no more than the shares' part of
/// it, and to less by less than one unit for each.
pub(crate) proof fn lemma_parts_total(beneficiaries: Seq<Beneficiary>, amount: int)
    requires
        0 <= amount,
    ensures
        0 <= parts_total(beneficiaries, amount),
        WHOLE_BPS * parts_total(beneficiaries, amount) <= amount * total_share(beneficiaries),
        amount * total_share(beneficiaries) <= WHOLE_BPS * parts_total(beneficiaries, amount) + (
        WHOLE_BPS - 1) * beneficiaries.len(),
    decreases beneficiaries.len(),
{
    if beneficiaries.len() > 0 {
        let front = beneficiaries.drop_last();
        let share = beneficiaries.last().share_bps as int;
        lemma_parts_total(front, amount);
        assert(0 <= amount * share) by (nonlinear_arith)
            requires
                0 <= amount,
                0 <= share,
        ;
        assert(amount * total_share(beneficiaries) == amount * total_share(front) + amount * share)
            by (nonlinear_arith)
            requires
                total_share(beneficiaries) == total_share(front) + share,
        ;
    } else {
        assert(amount * total_share(beneficiaries) == 0) by (nonlinear_arith)
            requires
                total_share(beneficiaries) == 0,
        ;
    }
}

/// Paying the parts of some of the first beneficiaries leaves at least the
/// next one's part.
proof fn lemma_parts_leave_the_next(beneficiaries: Seq<Beneficiary>, amount: int, i: int)
    requires
        shares_verdict(beneficiaries) is Ok,
        0 <= amount,
        0 <= i < beneficiaries.len(),
    ensures
        0 <= parts_total(beneficiaries.take(i), amount),
        0 <= bps_part(amount, beneficiaries[i].share_bps as int),
        parts_total(beneficiaries.take(i), amount) + bps_part(
            amount,
            beneficiaries[i].share_bps as int,
        ) <= amount,
{
    let before = beneficiaries.take(i);
    let share = beneficiaries[i].share_bps as int;
    lemma_share_at_most_total(beneficiaries, i);
    lemma_parts_total(before, amount);
    assert(0 <= amount * share) by (nonlinear_arith)
        requires
            0 <= amount,
            0 <= share,
    ;
    assert(amount * total_share(before) + amount * share <= amount * 10_000) by (nonlinear_arith)
        requires
            0 <= amount,
            total_share(before) + share <= 10_000,
    ;
}

/// Checks a list of beneficiaries.
fn check_shares(beneficiaries: &Vec<Beneficiary>) -> (verdict: Result<(), WillError>)
    ensures
        verdict == shares_verdict(beneficiaries@),
{
    if beneficiaries.len() > MAX_BENEFICIARIES {
        return Err(WillError::TooManyBeneficiaries);
    }
    let mut total: u64 = 0;
    let mut excess = false;
    for i in 0..beneficiaries.len()
        invariant
            beneficiaries@.len() <= MAX_BENEFICIARIES,
            forall|j: int| 0 <= j < i ==> (#[trigger] beneficiaries@[j]).share_bps != 0,
            excess == exists|j: int|
                0 <= j < i && (#[trigger] beneficiaries@[j]).share_bps > WHOLE_BPS,
            total == total_share(beneficiaries@.take(i as int)),
            total <= i * u32::MAX,
    {
        let share: u32 = beneficiaries[i].share_bps;
        if share == 0 {
            assert(beneficiaries@[i as int].share_bps == 0);
            return Err(WillError::InvalidPercentage);
        }
        assert(beneficiaries@.take(i + 1).drop_last() =~= beneficiaries@.take(i as int));
        assert(beneficiaries@[i as int].share_bps == share);
        total = total + share as u64;
        excess = excess || share > WHOLE_BPS;
    }
    assert(beneficiaries@.take(beneficiaries@.len() as int) =~= beneficiaries@);
    assert(excess == !shares_in_bounds(beneficiaries@));
    if excess && total <= u32::MAX as u64 {
        return Err(WillError::InvalidPercentage);
    }
    if total != WHOLE_BPS as u64 {
        return Err(WillError::InvalidPercentages);
    }
    Ok(())
}

/// Checks the list of a new will.
fn check_new_shares(beneficiaries: &Vec<Beneficiary>) -> (verdict: Result<(), WillError>)
    ensures
        verdict == new_shares_verdict(beneficiaries@),
{
    if beneficiaries.len() > MAX_BENEFICIARIES {
        return Err(WillError::TooManyBeneficiaries);
    }
    let mut excess: Option<usize> = None;
    for i in 0..beneficiaries.len()
        invariant
            beneficiaries@.len() <= MAX_BENEFICIARIES,
            match excess {
                None => forall|j: int|
                    0 <= j < i ==> (#[trigger] beneficiaries@[j]).share_bps <= WHOLE_BPS,
                Some(at) => at < i && beneficiaries@[at as int].share_bps > WHOLE_BPS && forall|
                    j: int,
                |
                    0 <= j < i && j != at ==> (#[trigger] beneficiaries@[j]).share_bps
                        <= WHOLE_BPS,
            },
    {
        if beneficiaries[i].share_bps > WHOLE_BPS {
            if let Some(at) = excess {
                assert(beneficiaries@[at as int].share_bps > WHOLE_BPS);
                assert(beneficiaries@[i as int].share_bps > WHOLE_BPS);
                return check_shares(beneficiaries);
            }
            excess = Some(i);
        }
    }
    if excess.is_some() {
        assert(beneficiaries@[excess->0 as int].share_bps > WHOLE_BPS);
        return Err(WillError::InvalidPercentage);
    }
    check_shares(beneficiaries)
}

/// The keeper's bounty, where one is due.
fn keeper_bounty(
    will: &Will,
    token: Address,
    from: Address,
    balance: i128,
    keeper: Option<Address>,
) -> (bounty: Option<Transfer>)
    requires
        will.keeper_bounty_bps <= WHOLE_BPS,
    ensures
        bounty == bounty_transfer(will@, token, from, balance, keeper),
        0 <= bounty_due(will@, balance, keeper),
        balance > 0 ==> bounty_due(will@, balance, keeper) <= balance,
        bounty is None ==> bounty_due(will@, balance, keeper) == 0,
        bounty matches Some(transfer) ==> transfer.amount == bounty_due(will@, balance, keeper),
{
    match keeper {
        Some(to) if balance > 0 => {
            let amount: i128 = part_of(balance, will.keeper_bounty_bps);
            if amount > 0 {
                Some(Transfer { token, from, to, amount })
            } else {
                None
            }
        },
        _ => None,
    }
}

/// Pays out the whole of `amount`: appends what the beneficiaries receive to
/// `transfers`.
fn pay_out(
    transfers: &mut Vec<Transfer>,
    beneficiaries: &Vec<Beneficiary>,
    token: Address,
    from: Address,
    amount: i128,
)
    requires
        shares_verdict(beneficiaries@) is Ok,
    ensures
        final(transfers)@ == old(transfers)@ + payouts(beneficiaries@, token, from, amount as int),
{
    proof {
        lemma_passed_shares_in_bounds(beneficiaries@);
    }
    if amount <= 0 {
        assert(transfers@ =~= old(transfers)@ + payouts(
            beneficiaries@,
            token,
            from,
            amount as int,
        ));
        return ;
    }
    let others: usize = beneficiaries.len() - 1;
    let mut left: i128 = amount;
    assert(transfers@ =~= old(transfers)@ + part_transfers(
        beneficiaries@.take(0),
        token,
        from,
        amount as int,
    ));
    for i in 0..others
        invariant
            others == beneficiaries@.len() - 1,
            shares_verdict(beneficiaries@) is Ok,
            shares_in_bounds(beneficiaries@),
            0 < amount,
            left == amount - parts_total(beneficiaries@.take(i as int), amount as int),
            transfers@ == old(transfers)@ + part_transfers(
                beneficiaries@.take(i as int),
                token,
                from,
                amount as int,
            ),
    {
        let beneficiary = beneficiaries[i];
        proof {
            assert(beneficiaries@.take(i + 1).drop_last() =~= beneficiaries@.take(i as int));
            assert(beneficiaries@.take(i + 1).last() == beneficiary);
            lemma_parts_leave_the_next(beneficiaries@, amount as int, i as int);
        }
        let part: i128 = part_of(amount, beneficiary.share_bps);
        left = left - part;
        if part > 0 {
            transfers.push(Transfer { token, from, to: beneficiary.address, amount: part });
        }
        assert(transfers@ =~= old(transfers)@ + part_transfers(
            beneficiaries@.take(i + 1),
            token,
            from,
            amount as int,
        ));
    }
    assert(beneficiaries@.take(others as int) =~= beneficiaries@.drop_last());
    if left > 0 {
        let to = beneficiaries[others].address;
        transfers.push(Transfer { token, from, to, amount: left });
    }
    assert(transfers@ =~= old(transfers)@ + payouts(beneficiaries@, token, from, amount as int));
}

impl Will {
    /// Whether this will could have been stored by the entry points.
    pub fn is_well_formed(&self) -> (yes: bool)
        ensures
            yes == self@.well_formed(),
    {
        if check_shares(&self.beneficiaries).is_err() {
            return false;
        }
        if self.keeper_bounty_bps > MAX_KEEPER_BOUNTY_BPS {
            return false;
        }
        if self.inactivity_period == 0 {
            return false;
        }
        match self.status {
            WillStatus::Active => {
                return !self.triggered && self.release_time == 0;
            },
            WillStatus::Triggered => {},
            WillStatus::Released => {},
            _ => {
                return false;
            },
        }
        if !self.triggered {
            return false;
        }
        let due: u128 = self.last_check_in as u128 + self.inactivity_period as u128
            + RELEASE_DELAY as u128;
        self.release_time as u128 >= due
    }

    /// The time from which this will may be triggered.
    fn deadline(&self) -> (deadline: u64)
        ensures
            deadline == check_in_deadline(self@),
    {
        if self.inactivity_period > u64::MAX - self.last_check_in {
            u64::MAX
        } else {
            self.last_check_in + self.inactivity_period
        }
    }

    /// The beneficiaries, as a piece of an event's data.
    fn shares_field(&self) -> (field: Field)
        ensures
            field@ == FieldView::Shares(self@.beneficiaries),
    {
        let list = self.beneficiaries.clone();
        assert(list@ =~= self.beneficiaries@);
        Field::Shares(list)
    }
}

/// The contract whose entry points follow.
pub struct WillContract;

impl WillContract {
    /// Stores a new will of `owner`, who must have signed, and gives the event
    /// to publish. A will that was stored before is replaced.
    pub fn create_will(
        instance: &mut Instance,
        call: &Invocation,
        owner: Address,
        beneficiaries: Vec<Beneficiary>,
        inactivity_period: u64,
        keeper_bounty_bps: u32,
    ) -> (outcome: Result<Event, WillError>)
        ensures
            match created(
                call.timestamp,
                call.signers@,
                owner,
                beneficiaries@,
                inactivity_period,
                keeper_bounty_bps,
            ) {
                Ok(will) => {
                    &&& outcome matches Ok(event)
                    &&& event@ == created_event(will)
                    &&& final(instance)@ == Some(will)
                    &&& will.well_formed()
                },
                Err(error) => outcome == Err::<Event, WillError>(error) && *final(instance) == *old(
                    instance,
                ),
            },
    {
        if !list_contains(&call.signers, &owner) {
            return Err(WillError::NotOwner);
        }
        if keeper_bounty_bps > MAX_KEEPER_BOUNTY_BPS {
            return Err(WillError::KeeperBountyTooHigh);
        }
        match check_new_shares(&beneficiaries) {
            Err(error) => {
                return Err(error);
            },
            Ok(()) => {},
        }
        if inactivity_period == 0 || inactivity_period > u64::MAX - call.timestamp {
            return Err(WillError::InvalidPeriod);
        }
        let will = Will {
            owner,
            beneficiaries,
            inactivity_period,
            last_check_in: call.timestamp,
            triggered: false,
            release_time: 0,
            keeper_bounty_bps,
            status: WillStatus::Active,
        };
        let event = events::quadruple(
            EventName::WillCreated,
            WILL_ID,
            Field::Address(owner),
            Field::U32(0),
            will.shares_field(),
            Field::U64(will.deadline()),
        );
        instance.will = Some(will);
        Ok(event)
    }

    /// Records that the owner, who must have signed, is still there, and gives
    /// the event to publish.
    pub fn check_in(instance: &mut Instance, call: &Invocation) -> (outcome: Result<
        Event,
        WillError,
    >)
        ensures
            match checked_in(old(instance)@, call.timestamp, call.signers@) {
                Ok(will) => {
                    &&& outcome matches Ok(event)
                    &&& event@ == checked_in_event(will)
                    &&& final(instance)@ == Some(will)
                },
                Err(error) => outcome == Err::<Event, WillError>(error) && *final(instance) == *old(
                    instance,
                ),
            },
            state_well_formed(old(instance)@) ==> state_well_formed(final(instance)@),
    {
        match &mut instance.will {
            None => Err(WillError::WillNotFound),
            Some(will) => {
                if !list_contains(&call.signers, &will.owner) {
                    return Err(WillError::NotOwner);
                }
                if will.triggered {
                    return Err(WillError::WillNotActive);
                }
                will.last_check_in = call.timestamp;
                let next_deadline: u64 = will.deadline();
                Ok(events::check_in(WILL_ID, &will.owner, next_deadline))
            },
        }
    }

    /// Triggers the will once its owner has been silent for the inactivity
    /// period. Anybody may call this; a keeper who is named receives the
    /// bounty out of `balance`, the contract's holding of the token.
    pub fn trigger_will(
        instance: &mut Instance,
        call: &Invocation,
        token_address: Address,
        balance: i128,
        keeper: Option<Address>,
    ) -> (outcome: Result<Trigger, WillError>)
        requires
            state_well_formed(old(instance)@),
            triggered(old(instance)@, call.timestamp) is Ok ==> call.timestamp + RELEASE_DELAY
                <= u64::MAX,
        ensures
            match triggered(old(instance)@, call.timestamp) {
                Ok(will) => {
                    &&& final(instance)@ == Some(will)
                    &&& outcome matches Ok(trigger)
                    &&& trigger.bounty == bounty_transfer(
                        will,
                        token_address,
                        call.contract_address,
                        balance,
                        keeper,
                    )
                    &&& trigger.event == trigger_event(
                        will,
                        call.contract_address,
                        balance,
                        keeper,
                    )
                },
                Err(error) => outcome == Err::<Trigger, WillError>(error) && *final(instance)
                    == *old(instance),
            },
            state_well_formed(final(instance)@),
    {
        match &mut instance.will {
            None => Err(WillError::WillNotFound),
            Some(will) => {
                if will.triggered {
                    return Err(WillError::WillNotActive);
                }
                let now: u64 = call.timestamp;
                if (now as u128) < will.last_check_in as u128 + will.inactivity_period as u128 {
                    return Err(WillError::CheckinNotDue);
                }
                will.triggered = true;
                will.status = WillStatus::Triggered;
                will.release_time = now + RELEASE_DELAY;
                let bounty = keeper_bounty(
                    will,
                    token_address,
                    call.contract_address,
                    balance,
                    keeper,
                );
                let keeper_bounty_paid: i128 = match &bounty {
                    Some(transfer) => transfer.amount,
                    None => 0,
                };
                let event = WillTriggeredEvent {
                    owner: will.owner,
                    triggered_by: call.contract_address,
                    release_time: will.release_time,
                    keeper_bounty_paid,
                };
                Ok(Trigger { bounty, event })
            },
        }
    }

    /// Pays out `balance`, the contract's holding of the token, and marks the
    /// will as released; it can still be read. Anybody may call this once the
    /// release time has come; a keeper who is named receives the bounty, the
    /// beneficiaries their shares of the rest.
    pub fn release_inheritance(
        instance: &mut Instance,
        call: &Invocation,
        token_address: Address,
        balance: i128,
        keeper: Option<Address>,
    ) -> (outcome: Result<Release, WillError>)
        requires
            state_well_formed(old(instance)@),
        ensures
            match releasable(old(instance)@, call.timestamp) {
                Ok(will) => {
                    &&& final(instance)@ == Some(released(will))
                    &&& outcome matches Ok(release)
                    &&& release.transfers@ == release_transfers(
                        will,
                        token_address,
                        call.contract_address,
                        balance,
                        keeper,
                    )
                    &&& release.event == release_event(
                        will,
                        call.contract_address,
                        balance,
                        keeper,
                    )
                },
                Err(error) => outcome == Err::<Release, WillError>(error) && *final(instance)
                    == *old(instance),
            },
            state_well_formed(final(instance)@),
    {
        let from = call.contract_address;
        match &mut instance.will {
            None => Err(WillError::WillNotFound),
            Some(will) => {
                if will.status != WillStatus::Triggered {
                    return Err(WillError::WillNotTriggered);
                }
                if call.timestamp < will.release_time {
                    return Err(WillError::GracePeriodNotExpired);
                }
                let bounty = keeper_bounty(will, token_address, from, balance, keeper);
                let mut transfers: Vec<Transfer> = Vec::new();
                let mut keeper_bounty_paid: i128 = 0;
                if let Some(transfer) = bounty {
                    keeper_bounty_paid = transfer.amount;
                    transfers.push(transfer);
                }
                let rest: i128 = balance - keeper_bounty_paid;
                let ghost head = transfers@;
                let ghost parts = payouts(will.beneficiaries@, token_address, from, rest as int);
                pay_out(&mut transfers, &will.beneficiaries, token_address, from, rest);
                assert(transfers@ =~= head + parts);
                assert(transfers@ =~= release_transfers(
                    will@,
                    token_address,
                    from,
                    balance,
                    keeper,
                ));
                let event = InheritanceReleasedEvent {
                    owner: will.owner,
                    released_by: from,
                    total_amount: balance,
                    keeper_bounty_paid,
                };
                will.status = WillStatus::Released;
                Ok(Release { transfers, event })
            },
        }
    }

    /// The stored will.
    pub fn get_will(instance: &Instance) -> (outcome: Result<Will, WillError>)
        ensures
            match read(instance@) {
                Ok(will) => outcome matches Ok(copy) && copy@ == will,
                Err(error) => outcome == Err::<Will, WillError>(error),
            },
    {
        match &instance.will {
            Some(will) => Ok(will.clone()),
            None => Err(WillError::WillNotFound),
        }
    }

    /// Replaces the beneficiaries of the will, for its owner, who must have
    /// signed, and gives the event to publish. The contract holds one will, so
    /// the identifier is not looked at.
    pub fn update_beneficiaries(
        instance: &mut Instance,
        call: &Invocation,
        _will_id: u64,
        owner: Address,
        beneficiaries: Vec<Beneficiary>,
    ) -> (outcome: Result<Event, WillError>)
        ensures
            match updated(old(instance)@, call.signers@, owner, beneficiaries@) {
                Ok(will) => {
                    &&& outcome matches Ok(event)
                    &&& event@ == updated_event(will)
                    &&& final(instance)@ == Some(will)
                },
                Err(error) => outcome == Err::<Event, WillError>(error) && *final(instance) == *old(
                    instance,
                ),
            },
            state_well_formed(old(instance)@) ==> state_well_formed(final(instance)@),
    {
        if !list_contains(&call.signers, &owner) {
            return Err(WillError::NotOwner);
        }
        match &mut instance.will {
            None => Err(WillError::WillNotFound),
            Some(will) => {
                if will.owner != owner {
                    return Err(WillError::NotOwner);
                }
                if will.triggered {
                    return Err(WillError::WillNotActive);
                }
                match check_shares(&beneficiaries) {
                    Err(error) => {
                        return Err(error);
                    },
                    Ok(()) => {},
                }
                let count: u32 = beneficiaries.len() as u32;
                will.beneficiaries = beneficiaries;
                Ok(
                    events::triple(
                        EventName::BeneficiariesUpdated,
                        WILL_ID,
                        Field::Address(owner),
                        Field::U32(count),
                        will.shares_field(),
                    ),
                )
            },
        }
    }
}

} // verus!
