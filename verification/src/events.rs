//! The events of the multi-will contract.
//!
//! Each function gives one event: under which topics it is published, and with
//! which data, so that off-chain indexers can follow a will's history without
//! simulating transactions again.

use crate::address::Address;
use crate::contract;
use crate::ids::{copy_list, ids_of};
use crate::types::Beneficiary;
use vstd::prelude::*;

verus! {

/// What happened.
#[derive(Clone, Copy, Debug, PartialEq, Eq, Structural)]
pub enum EventName {
    WillCreated,
    CheckIn,
    WillTriggered,
    EmergencyCheckin,
    InheritanceReleased,
    WillCancelled,
    BeneficiariesUpdated,
    GuardiansUpdated,
    WillClosed,
    TopUp,
    GuardianVoted,
    WillsMerged,
    WillMigrated,
    WillCloned,
    BatchCreated,
    WillArchived,
    PeriodsUpdated,
    BeneficiaryRenounced,
    WillSettingsUpdated,
    KeeperBountyPaid,
}

/// The symbol that is the first topic of an event.
pub open spec fn symbol_of(name: EventName) -> Seq<char> {
    match name {
        EventName::WillCreated => "created"@,
        EventName::CheckIn => "checkin"@,
        EventName::WillTriggered => "triggered"@,
        EventName::EmergencyCheckin => "emerg"@,
        EventName::InheritanceReleased => "released"@,
        EventName::WillCancelled => "cancelled"@,
        EventName::BeneficiariesUpdated => "benefup"@,
        EventName::GuardiansUpdated => "guardup"@,
        EventName::WillClosed => "closed"@,
        EventName::TopUp => "topup"@,
        EventName::GuardianVoted => "gvote"@,
        EventName::WillsMerged => "merged"@,
        EventName::WillMigrated => "migrated"@,
        EventName::WillCloned => "cloned"@,
        EventName::BatchCreated => "batch"@,
        EventName::WillArchived => "archived"@,
        EventName::PeriodsUpdated => "periodu"@,
        EventName::BeneficiaryRenounced => "renounce"@,
        EventName::WillSettingsUpdated => "setupd"@,
        EventName::KeeperBountyPaid => "bounty"@,
    }
}

impl EventName {
    /// The symbol that is the first topic of an event.
    pub fn symbol(&self) -> (symbol: &'static str)
        ensures
            symbol@ == symbol_of(*self),
    {
        match self {
            EventName::WillCreated => "created",
            EventName::CheckIn => "checkin",
            EventName::WillTriggered => "triggered",
            EventName::EmergencyCheckin => "emerg",
            EventName::InheritanceReleased => "released",
            EventName::WillCancelled => "cancelled",
            EventName::BeneficiariesUpdated => "benefup",
            EventName::GuardiansUpdated => "guardup",
            EventName::WillClosed => "closed",
            EventName::TopUp => "topup",
            EventName::GuardianVoted => "gvote",
            EventName::WillsMerged => "merged",
            EventName::WillMigrated => "migrated",
            EventName::WillCloned => "cloned",
            EventName::BatchCreated => "batch",
            EventName::WillArchived => "archived",
            EventName::PeriodsUpdated => "periodu",
            EventName::BeneficiaryRenounced => "renounce",
            EventName::WillSettingsUpdated => "setupd",
            EventName::KeeperBountyPaid => "bounty",
        }
    }
}

/// What the event is about, its second topic.
#[derive(Clone, Copy, Debug, PartialEq, Eq, Structural)]
pub enum Subject {
    Will(u64),
    Owner(Address),
}

/// A piece of an event's data.
#[derive(Debug, PartialEq, Eq)]
pub enum Field {
    Address(Address),
    U32(u32),
    U64(u64),
    I128(i128),
    Ids(soroban_sdk::Vec<u64>),
    Symbols(Vec<String>),
    /// Beneficiaries with their percentages.
    Beneficiaries(Vec<Beneficiary>),
    /// Beneficiaries with their shares in basis points.
    Shares(Vec<contract::Beneficiary>),
}

/// A piece of an event's data as a mathematical value.
pub enum FieldView {
    Address(Address),
    U32(u32),
    U64(u64),
    I128(i128),
    Ids(Seq<u64>),
    Symbols(Seq<Seq<char>>),
    Beneficiaries(Seq<Beneficiary>),
    Shares(Seq<contract::Beneficiary>),
}

impl View for Field {
    type V = FieldView;

    open spec fn view(&self) -> FieldView {
        match *self {
            Field::Address(address) => FieldView::Address(address),
            Field::U32(number) => FieldView::U32(number),
            Field::U64(number) => FieldView::U64(number),
            Field::I128(number) => FieldView::I128(number),
            Field::Ids(list) => FieldView::Ids(ids_of(list)),
            Field::Symbols(names) => FieldView::Symbols(
                names@.map_values(|name: String| name@),
            ),
            Field::Beneficiaries(list) => FieldView::Beneficiaries(list@),
            Field::Shares(list) => FieldView::Shares(list@),
        }
    }
}

/// The data of an event: a bare value, or a tuple of values.
#[derive(Debug, PartialEq, Eq)]
pub enum EventData {
    One(Field),
    Tuple(Vec<Field>),
}

/// The data of an event as a mathematical value.
pub enum EventDataView {
    One(FieldView),
    Tuple(Seq<FieldView>),
}

impl View for EventData {
    type V = EventDataView;

    open spec fn view(&self) -> EventDataView {
        match *self {
            EventData::One(field) => EventDataView::One(field@),
            EventData::Tuple(fields) => EventDataView::Tuple(
                fields@.map_values(|field: Field| field@),
            ),
        }
    }
}

/// An event that is to be published.
#[derive(Debug, PartialEq, Eq)]
pub struct Event {
    pub name: EventName,
    pub subject: Subject,
    pub data: EventData,
}

/// An event as a mathematical value.
pub struct EventView {
    pub name: EventName,
    pub subject: Subject,
    pub data: EventDataView,
}

impl View for Event {
    type V = EventView;

    open spec fn view(&self) -> EventView {
        EventView { name: self.name, subject: self.subject, data: self.data@ }
    }
}

/// An event about a will, with a tuple of data.
pub open spec fn will_event(name: EventName, will_id: u64, fields: Seq<FieldView>) -> EventView {
    EventView { name, subject: Subject::Will(will_id), data: EventDataView::Tuple(fields) }
}

/// An event about a will, with a bare value as its data.
pub open spec fn will_notice(name: EventName, will_id: u64, field: FieldView) -> EventView {
    EventView { name, subject: Subject::Will(will_id), data: EventDataView::One(field) }
}

/// An event about a will, with a bare value as its data.
fn notice(name: EventName, will_id: u64, field: Field) -> (event: Event)
    ensures
        event@ == will_notice(name, will_id, field@),
{
    Event { name, subject: Subject::Will(will_id), data: EventData::One(field) }
}

/// An event about a will, with two values as its data.
fn pair(name: EventName, will_id: u64, first: Field, second: Field) -> (event: Event)
    ensures
        event@ == will_event(name, will_id, seq![first@, second@]),
{
    let fields = vec![first, second];
    assert(fields@.map_values(|field: Field| field@) =~= seq![first@, second@]);
    Event { name, subject: Subject::Will(will_id), data: EventData::Tuple(fields) }
}

/// An event about a will, with three values as its data.
pub(crate) fn triple(
    name: EventName,
    will_id: u64,
    first: Field,
    second: Field,
    third: Field,
) -> (event: Event)
    ensures
        event@ == will_event(name, will_id, seq![first@, second@, third@]),
{
    let fields = vec![first, second, third];
    assert(fields@.map_values(|field: Field| field@) =~= seq![first@, second@, third@]);
    Event { name, subject: Subject::Will(will_id), data: EventData::Tuple(fields) }
}

/// An event about a will, with four values as its data.
pub(crate) fn quadruple(
    name: EventName,
    will_id: u64,
    first: Field,
    second: Field,
    third: Field,
    fourth: Field,
) -> (event: Event)
    ensures
        event@ == will_event(name, will_id, seq![first@, second@, third@, fourth@]),
{
    let fields = vec![first, second, third, fourth];
    assert(fields@.map_values(|field: Field| field@) =~= seq![first@, second@, third@, fourth@]);
    Event { name, subject: Subject::Will(will_id), data: EventData::Tuple(fields) }
}

/// Published when a new will is created.
///
/// `token_count` is the number of distinct tokens locked at creation time.
pub fn will_created(
    will_id: u64,
    owner: &Address,
    token_count: u32,
    beneficiaries: &Vec<Beneficiary>,
    checkin_deadline: u64,
) -> (event: Event)
    ensures
        event@ == will_event(
            EventName::WillCreated,
            will_id,
            seq![
                FieldView::Address(*owner),
                FieldView::U32(token_count),
                FieldView::Beneficiaries(beneficiaries@),
                FieldView::U64(checkin_deadline),
            ],
        ),
{
    let list = beneficiaries.clone();
    assert(list@ =~= beneficiaries@);
    quadruple(
        EventName::WillCreated,
        will_id,
        Field::Address(*owner),
        Field::U32(token_count),
        Field::Beneficiaries(list),
        Field::U64(checkin_deadline),
    )
}

/// Published when the owner checks in, resetting the check-in deadline.
pub fn check_in(will_id: u64, owner: &Address, next_deadline: u64) -> (event: Event)
    ensures
        event@ == will_event(
            EventName::CheckIn,
            will_id,
            seq![FieldView::Address(*owner), FieldView::U64(next_deadline)],
        ),
{
    pair(EventName::CheckIn, will_id, Field::Address(*owner), Field::U64(next_deadline))
}

/// Published when a will is triggered after a missed check-in.
pub fn will_triggered(will_id: u64, grace_period_ends: u64) -> (event: Event)
    ensures
        event@ == will_notice(
            EventName::WillTriggered,
            will_id,
            FieldView::U64(grace_period_ends),
        ),
{
    notice(EventName::WillTriggered, will_id, Field::U64(grace_period_ends))
}

/// Published when the owner emergency-checks-in during the grace period,
/// cancelling the trigger.
pub fn emergency_checkin(will_id: u64, owner: &Address, next_deadline: u64) -> (event: Event)
    ensures
        event@ == will_event(
            EventName::EmergencyCheckin,
            will_id,
            seq![FieldView::Address(*owner), FieldView::U64(next_deadline)],
        ),
{
    pair(EventName::EmergencyCheckin, will_id, Field::Address(*owner), Field::U64(next_deadline))
}

/// Published when inheritance is released to all beneficiaries.
///
/// `token_count` is the number of distinct tokens distributed.
pub fn inheritance_released(will_id: u64, token_count: u32, beneficiaries_count: u32) -> (event:
    Event)
    ensures
        event@ == will_event(
            EventName::InheritanceReleased,
            will_id,
            seq![FieldView::U32(token_count), FieldView::U32(beneficiaries_count)],
        ),
{
    pair(
        EventName::InheritanceReleased,
        will_id,
        Field::U32(token_count),
        Field::U32(beneficiaries_count),
    )
}

/// Published when the owner cancels the will and withdraws all token balances.
///
/// `token_count` is the number of distinct tokens refunded.
pub fn will_cancelled(will_id: u64, owner: &Address, token_count: u32) -> (event: Event)
    ensures
        event@ == will_event(
            EventName::WillCancelled,
            will_id,
            seq![FieldView::Address(*owner), FieldView::U32(token_count)],
        ),
{
    pair(EventName::WillCancelled, will_id, Field::Address(*owner), Field::U32(token_count))
}

/// Published when the owner updates the beneficiary list: who did so, how many
/// beneficiaries there are now, and which. Lists on the ledger are counted in
/// 32 bits.
pub fn beneficiaries_updated(
    will_id: u64,
    owner: &Address,
    beneficiaries: &Vec<Beneficiary>,
) -> (event: Event)
    requires
        beneficiaries@.len() <= u32::MAX,
    ensures
        event@ == will_event(
            EventName::BeneficiariesUpdated,
            will_id,
            seq![
                FieldView::Address(*owner),
                FieldView::U32(beneficiaries@.len() as u32),
                FieldView::Beneficiaries(beneficiaries@),
            ],
        ),
{
    let list = beneficiaries.clone();
    assert(list@ =~= beneficiaries@);
    triple(
        EventName::BeneficiariesUpdated,
        will_id,
        Field::Address(*owner),
        Field::U32(beneficiaries.len() as u32),
        Field::Beneficiaries(list),
    )
}

/// Published when the owner updates the guardian list.
pub fn guardians_updated(will_id: u64, owner: &Address) -> (event: Event)
    ensures
        event@ == will_notice(EventName::GuardiansUpdated, will_id, FieldView::Address(*owner)),
{
    notice(EventName::GuardiansUpdated, will_id, Field::Address(*owner))
}

/// Published when the owner closes a released will, marking it settled.
pub fn will_closed(will_id: u64, owner: &Address) -> (event: Event)
    ensures
        event@ == will_notice(EventName::WillClosed, will_id, FieldView::Address(*owner)),
{
    notice(EventName::WillClosed, will_id, Field::Address(*owner))
}

/// Published when the owner tops up a specific token's balance in the will.
pub fn top_up(
    will_id: u64,
    owner: &Address,
    token: &Address,
    amount: i128,
    new_balance: i128,
) -> (event: Event)
    ensures
        event@ == will_event(
            EventName::TopUp,
            will_id,
            seq![
                FieldView::Address(*owner),
                FieldView::Address(*token),
                FieldView::I128(amount),
                FieldView::I128(new_balance),
            ],
        ),
{
    quadruple(
        EventName::TopUp,
        will_id,
        Field::Address(*owner),
        Field::Address(*token),
        Field::I128(amount),
        Field::I128(new_balance),
    )
}

/// Published each time a guardian votes to trigger an early release.
pub fn guardian_voted(will_id: u64, guardian: &Address, weight: u32, total_weight: u32) -> (event:
    Event)
    ensures
        event@ == will_event(
            EventName::GuardianVoted,
            will_id,
            seq![
                FieldView::Address(*guardian),
                FieldView::U32(weight),
                FieldView::U32(total_weight),
            ],
        ),
{
    triple(
        EventName::GuardianVoted,
        will_id,
        Field::Address(*guardian),
        Field::U32(weight),
        Field::U32(total_weight),
    )
}

/// Published when two wills are merged into one.
pub fn wills_merged(
    surviving_will_id: u64,
    consumed_will_id: u64,
    owner: &Address,
    new_balance: i128,
) -> (event: Event)
    ensures
        event@ == will_event(
            EventName::WillsMerged,
            surviving_will_id,
            seq![
                FieldView::Address(*owner),
                FieldView::U64(consumed_will_id),
                FieldView::I128(new_balance),
            ],
        ),
{
    triple(
        EventName::WillsMerged,
        surviving_will_id,
        Field::Address(*owner),
        Field::U64(consumed_will_id),
        Field::I128(new_balance),
    )
}

/// Published when a will is migrated to a new schema version.
pub fn will_migrated(will_id: u64, owner: &Address, from_version: u32, to_version: u32) -> (event:
    Event)
    ensures
        event@ == will_event(
            EventName::WillMigrated,
            will_id,
            seq![
                FieldView::Address(*owner),
                FieldView::U32(from_version),
                FieldView::U32(to_version),
            ],
        ),
{
    triple(
        EventName::WillMigrated,
        will_id,
        Field::Address(*owner),
        Field::U32(from_version),
        Field::U32(to_version),
    )
}

/// Published when a will is cloned from a template.
pub fn will_cloned(source_id: u64, new_id: u64, owner: &Address) -> (event: Event)
    ensures
        event@ == will_event(
            EventName::WillCloned,
            new_id,
            seq![FieldView::U64(source_id), FieldView::Address(*owner)],
        ),
{
    pair(EventName::WillCloned, new_id, Field::U64(source_id), Field::Address(*owner))
}

/// Published when a batch of wills is created in a single transaction.
pub fn batch_created(owner: &Address, will_ids: &soroban_sdk::Vec<u64>) -> (event: Event)
    ensures
        event@ == (EventView {
            name: EventName::BatchCreated,
            subject: Subject::Owner(*owner),
            data: EventDataView::One(FieldView::Ids(ids_of(*will_ids))),
        }),
{
    Event {
        name: EventName::BatchCreated,
        subject: Subject::Owner(*owner),
        data: EventData::One(Field::Ids(copy_list(will_ids))),
    }
}

/// Published when a released or cancelled will is archived.
pub fn will_archived(will_id: u64, owner: &Address) -> (event: Event)
    ensures
        event@ == will_notice(EventName::WillArchived, will_id, FieldView::Address(*owner)),
{
    notice(EventName::WillArchived, will_id, Field::Address(*owner))
}

/// Published when the owner updates the check-in or grace periods.
pub fn periods_updated(
    will_id: u64,
    owner: &Address,
    new_checkin_period_days: u64,
    new_grace_period_days: u64,
    next_deadline: u64,
) -> (event: Event)
    ensures
        event@ == will_event(
            EventName::PeriodsUpdated,
            will_id,
            seq![
                FieldView::Address(*owner),
                FieldView::U64(new_checkin_period_days),
                FieldView::U64(new_grace_period_days),
                FieldView::U64(next_deadline),
            ],
        ),
{
    quadruple(
        EventName::PeriodsUpdated,
        will_id,
        Field::Address(*owner),
        Field::U64(new_checkin_period_days),
        Field::U64(new_grace_period_days),
        Field::U64(next_deadline),
    )
}

/// Published when a beneficiary renounces their inheritance share.
pub fn beneficiary_renounced(will_id: u64, beneficiary: &Address, owner: &Address) -> (event: Event)
    ensures
        event@ == will_event(
            EventName::BeneficiaryRenounced,
            will_id,
            seq![FieldView::Address(*beneficiary), FieldView::Address(*owner)],
        ),
{
    pair(
        EventName::BeneficiaryRenounced,
        will_id,
        Field::Address(*beneficiary),
        Field::Address(*owner),
    )
}

/// Published when several will settings (beneficiaries, guardians, periods)
/// are updated atomically.
pub fn will_settings_updated(will_id: u64, owner: &Address, update_fields: Vec<String>) -> (event:
    Event)
    ensures
        event@ == will_event(
            EventName::WillSettingsUpdated,
            will_id,
            seq![
                FieldView::Address(*owner),
                FieldView::Symbols(update_fields@.map_values(|name: String| name@)),
            ],
        ),
{
    pair(
        EventName::WillSettingsUpdated,
        will_id,
        Field::Address(*owner),
        Field::Symbols(update_fields),
    )
}

/// Published when a keeper bounty is paid for triggering a will or releasing
/// its inheritance.
pub fn keeper_bounty_paid(will_id: u64, keeper: &Address, amount: i128) -> (event: Event)
    ensures
        event@ == will_event(
            EventName::KeeperBountyPaid,
            will_id,
            seq![FieldView::Address(*keeper), FieldView::I128(amount)],
        ),
{
    pair(EventName::KeeperBountyPaid, will_id, Field::Address(*keeper), Field::I128(amount))
}

/// Makes the characters of all symbols known.
proof fn lemma_symbols()
    ensures
        "created"@ == seq!['c', 'r', 'e', 'a', 't', 'e', 'd'],
        "checkin"@ == seq!['c', 'h', 'e', 'c', 'k', 'i', 'n'],
        "triggered"@ == seq!['t', 'r', 'i', 'g', 'g', 'e', 'r', 'e', 'd'],
        "emerg"@ == seq!['e', 'm', 'e', 'r', 'g'],
        "released"@ == seq!['r', 'e', 'l', 'e', 'a', 's', 'e', 'd'],
        "cancelled"@ == seq!['c', 'a', 'n', 'c', 'e', 'l', 'l', 'e', 'd'],
        "benefup"@ == seq!['b', 'e', 'n', 'e', 'f', 'u', 'p'],
        "guardup"@ == seq!['g', 'u', 'a', 'r', 'd', 'u', 'p'],
        "closed"@ == seq!['c', 'l', 'o', 's', 'e', 'd'],
        "topup"@ == seq!['t', 'o', 'p', 'u', 'p'],
        "gvote"@ == seq!['g', 'v', 'o', 't', 'e'],
        "merged"@ == seq!['m', 'e', 'r', 'g', 'e', 'd'],
        "migrated"@ == seq!['m', 'i', 'g', 'r', 'a', 't', 'e', 'd'],
        "cloned"@ == seq!['c', 'l', 'o', 'n', 'e', 'd'],
        "batch"@ == seq!['b', 'a', 't', 'c', 'h'],
        "archived"@ == seq!['a', 'r', 'c', 'h', 'i', 'v', 'e', 'd'],
        "periodu"@ == seq!['p', 'e', 'r', 'i', 'o', 'd', 'u'],
        "renounce"@ == seq!['r', 'e', 'n', 'o', 'u', 'n', 'c', 'e'],
        "setupd"@ == seq!['s', 'e', 't', 'u', 'p', 'd'],
        "bounty"@ == seq!['b', 'o', 'u', 'n', 't', 'y'],
{
    reveal_strlit("created");
    reveal_strlit("checkin");
    reveal_strlit("triggered");
    reveal_strlit("emerg");
    reveal_strlit("released");
    reveal_strlit("cancelled");
    reveal_strlit("benefup");
    reveal_strlit("guardup");
    reveal_strlit("closed");
    reveal_strlit("topup");
    reveal_strlit("gvote");
    reveal_strlit("merged");
    reveal_strlit("migrated");
    reveal_strlit("cloned");
    reveal_strlit("batch");
    reveal_strlit("archived");
    reveal_strlit("periodu");
    reveal_strlit("renounce");
    reveal_strlit("setupd");
    reveal_strlit("bounty");
}

/// Two kinds of events never share their symbol, so that the first topic says
/// what happened, and every symbol fits into the nine characters of a short
/// one.
pub proof fn law_symbols_identify_events(a: EventName, b: EventName)
    ensures
        symbol_of(a) == symbol_of(b) <==> a == b,
        0 < symbol_of(a).len() <= 9,
{
    lemma_symbols();
    let s = symbol_of(a);
    let t = symbol_of(b);
    if s == t {
        assert(s.len() == t.len());
        assert(s[0] == t[0] && s[1] == t[1] && s[2] == t[2] && s[3] == t[3]);
    }
}

/// An event about a will has the will's id as its subject, and carries the
/// given values, each in its place: bare where there is one, as a tuple where
/// there are more.
pub proof fn law_events_carry_what_they_are_given(
    name: EventName,
    will_id: u64,
    fields: Seq<FieldView>,
    field: FieldView,
)
    ensures
        will_event(name, will_id, fields).name == name,
        will_event(name, will_id, fields).subject == Subject::Will(will_id),
        will_event(name, will_id, fields).data == EventDataView::Tuple(fields),
        will_notice(name, will_id, field).name == name,
        will_notice(name, will_id, field).subject == Subject::Will(will_id),
        will_notice(name, will_id, field).data == EventDataView::One(field),
{
}

/// The view of an event shows all of it: its name, its subject and every value
/// in its place.
pub proof fn law_views_of_events_are_complete(event: Event, field: Field, i: int)
    ensures
        event@.name == event.name,
        event@.subject == event.subject,
        event.data matches EventData::One(only) ==> event@.data == EventDataView::One(only@),
        event.data matches EventData::Tuple(fields) ==> {
            &&& event@.data matches EventDataView::Tuple(views)
            &&& views.len() == fields@.len()
            &&& 0 <= i < fields@.len() ==> views[i] == fields@[i]@
        },
        field matches Field::Address(address) ==> field@ == FieldView::Address(address),
        field matches Field::U32(number) ==> field@ == FieldView::U32(number),
        field matches Field::U64(number) ==> field@ == FieldView::U64(number),
        field matches Field::I128(number) ==> field@ == FieldView::I128(number),
        field matches Field::Ids(list) ==> field@ == FieldView::Ids(ids_of(list)),
        field matches Field::Symbols(names) ==> {
            &&& field@ matches FieldView::Symbols(views)
            &&& views.len() == names@.len()
            &&& 0 <= i < names@.len() ==> views[i] == names@[i]@
        },
        field matches Field::Beneficiaries(list) ==> field@ == FieldView::Beneficiaries(list@),
        field matches Field::Shares(list) ==> field@ == FieldView::Shares(list@),
{
}

} // verus!
