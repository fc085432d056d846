//! Who receives how much of the funds, and what the events tell of it.

use crate::address::Address;
use crate::contract::{
    bounty_due, bounty_transfer, lemma_parts_total, lemma_passed_shares_in_bounds,
    part_transfers, parts_total, payouts, release_event, release_transfers, shares_in_bounds,
    total_share, trigger_event, Beneficiary, Transfer, WillView,
};
use crate::contract_laws::law_bounty_is_capped;
use vstd::prelude::*;

verus! {

/// What `who` receives from a list of transfers.
pub open spec fn received(transfers: Seq<Transfer>, who: Address) -> int
    decreases transfers.len(),
{
    if transfers.len() == 0 {
        0
    } else {
        received(transfers.drop_last(), who) + if transfers.last().to == who {
            transfers.last().amount as int
        } else {
            0
        }
    }
}

/// What `who` is owed out of `rest` by the entries with its address: the
/// rounded-down part of each.
pub open spec fn owed(list: Seq<Beneficiary>, who: Address, rest: int) -> int
    decreases list.len(),
{
    if list.len() == 0 {
        0
    } else {
        owed(list.drop_last(), who, rest) + if list.last().address == who {
            rest * list.last().share_bps / 10_000
        } else {
            0
        }
    }
}

/// What rounding down leaves of `rest`.
pub open spec fn remainder(list: Seq<Beneficiary>, rest: int) -> int
    decreases list.len(),
{
    if list.len() == 0 {
        rest
    } else {
        remainder(list.drop_last(), rest) - rest * list.last().share_bps / 10_000
    }
}

/// The keeper's bounty: the will's basis points of the balance, rounded down,
/// where a keeper is named and there is anything to pay from.
pub open spec fn bounty_of(will: WillView, balance: int, keeper: Option<Address>) -> int {
    if keeper is Some && balance > 0 {
        balance * will.keeper_bounty_bps / 10_000
    } else {
        0
    }
}

/// The transfers to those on a list whose rounded-down part of `rest` is not
/// nothing, in the order of the list.
pub open spec fn parts_in_order(
    list: Seq<Beneficiary>,
    token: Address,
    from: Address,
    rest: int,
) -> Seq<Transfer> {
    list.filter(|entry: Beneficiary| rest * entry.share_bps / 10_000 > 0).map_values(
        |entry: Beneficiary|
            Transfer {
                token,
                from,
                to: entry.address,
                amount: (rest * entry.share_bps / 10_000) as i128,
            },
    )
}

/// The parts are transfers in the order of the list.
proof fn lemma_parts_in_order(list: Seq<Beneficiary>, token: Address, from: Address, rest: int)
    ensures
        part_transfers(list, token, from, rest) == parts_in_order(list, token, from, rest),
    decreases list.len(),
{
    let something = |entry: Beneficiary| rest * entry.share_bps / 10_000 > 0;
    if list.len() > 0 {
        lemma_parts_in_order(list.drop_last(), token, from, rest);
        assert(something(list.last()) == (rest * list.last().share_bps / 10_000 > 0));
        reveal_with_fuel(Seq::filter, 2);
        assert(part_transfers(list, token, from, rest) =~= parts_in_order(list, token, from, rest));
    } else {
        assert(part_transfers(list, token, from, rest) =~= parts_in_order(list, token, from, rest));
    }
}

/// What the parts give to one address, and what they leave.
proof fn lemma_parts_received(
    list: Seq<Beneficiary>,
    count: int,
    token: Address,
    from: Address,
    rest: int,
    who: Address,
)
    requires
        shares_in_bounds(list),
        0 <= count <= list.len(),
        0 <= rest <= i128::MAX,
    ensures
        received(part_transfers(list.take(count), token, from, rest), who) == owed(
            list.take(count),
            who,
            rest,
        ),
        parts_total(list.take(count), rest) == rest - remainder(list.take(count), rest),
    decreases count,
{
    if count > 0 {
        lemma_parts_received(list, count - 1, token, from, rest, who);
        let some = list.take(count);
        let entry = list[count - 1];
        assert(some.drop_last() =~= list.take(count - 1));
        assert(some.last() == entry);
        let share = entry.share_bps as int;
        assert(0 <= rest * share <= rest * 10_000) by (nonlinear_arith)
            requires
                0 <= rest,
                0 <= share <= 10_000,
        ;
        let before = part_transfers(list.take(count - 1), token, from, rest);
        let after = part_transfers(some, token, from, rest);
        if rest * share / 10_000 > 0 {
            assert(after.drop_last() =~= before);
        }
    }
}

/// One more transfer in front.
proof fn lemma_received_with_head(head: Transfer, tail: Seq<Transfer>, who: Address)
    ensures
        received(seq![head] + tail, who) == received(tail, who) + if head.to == who {
            head.amount as int
        } else {
            0
        },
    decreases tail.len(),
{
    let all = seq![head] + tail;
    if tail.len() > 0 {
        assert(all.drop_last() =~= seq![head] + tail.drop_last());
        lemma_received_with_head(head, tail.drop_last(), who);
    } else {
        assert(all.drop_last() =~= Seq::<Transfer>::empty());
        assert(tail =~= Seq::<Transfer>::empty());
    }
}

/// What a list with entries of one address owes to it, where no other entry
/// has that address.
proof fn lemma_owed_once(list: Seq<Beneficiary>, i: int, rest: int)
    requires
        0 <= i < list.len(),
        forall|j: int|
            0 <= j < list.len() && j != i ==> (#[trigger] list[j]).address != list[i].address,
    ensures
        owed(list, list[i].address, rest) == rest * list[i].share_bps / 10_000,
    decreases list.len(),
{
    let front = list.drop_last();
    if i < front.len() {
        assert forall|j: int| 0 <= j < front.len() && j != i implies (#[trigger] front[j]).address
            != front[i].address by {
            assert(front[j] == list[j]);
        }
        lemma_owed_once(front, i, rest);
        assert(list[list.len() - 1].address != list[i].address);
    } else {
        lemma_owed_never(front, list[i].address, rest);
    }
}

/// What a list owes to an address that it does not have.
proof fn lemma_owed_never(list: Seq<Beneficiary>, who: Address, rest: int)
    requires
        forall|j: int| 0 <= j < list.len() ==> (#[trigger] list[j]).address != who,
    ensures
        owed(list, who, rest) == 0,
    decreases list.len(),
{
    if list.len() > 0 {
        let front = list.drop_last();
        assert forall|j: int| 0 <= j < front.len() implies (#[trigger] front[j]).address != who by {
            assert(front[j] == list[j]);
        }
        assert(list[list.len() - 1].address != who);
        lemma_owed_never(front, who, rest);
    }
}

/// What is left for the last beneficiary is something.
proof fn lemma_last_receives(list: Seq<Beneficiary>, rest: int)
    requires
        shares_in_bounds(list),
        total_share(list) == 10_000,
        list.len() > 0,
        0 < rest,
    ensures
        0 <= parts_total(list.drop_last(), rest) < rest,
        rest - parts_total(list.drop_last(), rest) >= rest * list.last().share_bps / 10_000,
{
    let others = list.drop_last();
    let share = list.last().share_bps as int;
    lemma_parts_total(others, rest);
    assert(list.last() == list[list.len() - 1]);
    assert(rest * total_share(others) + rest * share == rest * 10_000) by (nonlinear_arith)
        requires
            total_share(others) + share == 10_000,
    ;
    assert(rest * share > 0) by (nonlinear_arith)
        requires
            rest > 0,
            share > 0,
    ;
}

/// The bounty is what the will's basis points of the balance come to, rounded
/// down: not a unit more, and less than a unit less.
pub proof fn law_bounty_is_the_offered_part(will: WillView, balance: i128, keeper: Option<Address>)
    ensures
        bounty_due(will, balance, keeper) == bounty_of(will, balance as int, keeper),
        keeper is Some && balance > 0 ==> {
            let due = bounty_due(will, balance, keeper);
            10_000 * due <= balance * will.keeper_bounty_bps < 10_000 * (due + 1)
        },
        keeper is None || balance <= 0 ==> bounty_due(will, balance, keeper) == 0,
{
}

/// A trigger transfers exactly the bounty from the contract to the keeper, in
/// the given token; nothing, where it comes to nothing.
pub proof fn law_trigger_pays_the_keeper(
    will: WillView,
    token: Address,
    from: Address,
    balance: i128,
    keeper: Option<Address>,
)
    requires
        will.well_formed(),
    ensures
        ({
            let due = bounty_of(will, balance as int, keeper);
            let paid = bounty_transfer(will, token, from, balance, keeper);
            &&& paid is Some <==> due > 0
            &&& paid matches Some(transfer) ==> {
                &&& keeper == Some(transfer.to)
                &&& transfer.amount == due
                &&& transfer.token == token
                &&& transfer.from == from
            }
        }),
{
    if balance > 0 {
        law_bounty_is_capped(will, balance, keeper);
    }
}

/// Every address receives from a release what it is owed and no more: the
/// rounded-down parts of what the bounty leaves for all entries with that
/// address, the remainder where it is the last beneficiary, and the bounty
/// where it is the keeper.
pub proof fn law_everyone_receives_their_share(
    will: WillView,
    token: Address,
    from: Address,
    balance: i128,
    keeper: Option<Address>,
    who: Address,
)
    requires
        will.well_formed(),
        balance > 0,
    ensures
        ({
            let bounty = bounty_of(will, balance as int, keeper);
            let rest = balance - bounty;
            let list = will.beneficiaries;
            received(release_transfers(will, token, from, balance, keeper), who) == owed(
                list,
                who,
                rest,
            ) + (if list.last().address == who {
                remainder(list, rest)
            } else {
                0
            }) + (if keeper == Some(who) {
                bounty
            } else {
                0
            })
        }),
{
    let bounty = bounty_of(will, balance as int, keeper);
    let rest = balance - bounty;
    let list = will.beneficiaries;
    let others = list.drop_last();
    law_bounty_is_capped(will, balance, keeper);
    lemma_passed_shares_in_bounds(list);
    lemma_last_receives(list, rest);
    assert(others =~= list.take(list.len() - 1));
    lemma_parts_received(list, list.len() - 1, token, from, rest, who);
    let parts = payouts(list, token, from, rest);
    assert(parts.drop_last() =~= part_transfers(others, token, from, rest));
    if let Some(transfer) = bounty_transfer(will, token, from, balance, keeper) {
        lemma_received_with_head(transfer, parts, who);
    }
}

/// Where a beneficiary's address occurs once on the list and is not the
/// keeper's, it receives exactly its rounded-down part of what the bounty
/// leaves, and the last one the remainder on top.
pub proof fn law_each_beneficiary_receives_its_part(
    will: WillView,
    token: Address,
    from: Address,
    balance: i128,
    keeper: Option<Address>,
    i: int,
)
    requires
        will.well_formed(),
        balance > 0,
        0 <= i < will.beneficiaries.len(),
        forall|j: int|
            0 <= j < will.beneficiaries.len() && j != i ==> (
            #[trigger] will.beneficiaries[j]).address != will.beneficiaries[i].address,
        keeper != Some(will.beneficiaries[i].address),
    ensures
        ({
            let rest = balance - bounty_of(will, balance as int, keeper);
            let entry = will.beneficiaries[i];
            let paid = received(
                release_transfers(will, token, from, balance, keeper),
                entry.address,
            );
            &&& i < will.beneficiaries.len() - 1 ==> paid == rest * entry.share_bps / 10_000
            &&& i == will.beneficiaries.len() - 1 ==> paid == rest * entry.share_bps / 10_000
                + remainder(will.beneficiaries, rest)
        }),
{
    let rest = balance - bounty_of(will, balance as int, keeper);
    let list = will.beneficiaries;
    law_everyone_receives_their_share(will, token, from, balance, keeper, list[i].address);
    lemma_owed_once(list, i, rest);
    if i < list.len() - 1 {
        assert(list[list.len() - 1].address != list[i].address);
    }
}

/// A release pays the keeper first, where there is a bounty, then the
/// beneficiaries in the order of the list, leaving out those whose part comes
/// to nothing, and last the last one, with all that is left. Every transfer is
/// in the given token and from the contract. Where there is nothing to pay
/// from, nothing is paid.
pub proof fn law_release_pays_in_order(
    will: WillView,
    token: Address,
    from: Address,
    balance: i128,
    keeper: Option<Address>,
)
    requires
        will.well_formed(),
    ensures
        ({
            let bounty = bounty_of(will, balance as int, keeper);
            let rest = balance - bounty;
            let others = will.beneficiaries.drop_last();
            let first = if bounty > 0 {
                seq![Transfer { token, from, to: keeper->0, amount: bounty as i128 }]
            } else {
                Seq::empty()
            };
            let left = Transfer {
                token,
                from,
                to: will.beneficiaries.last().address,
                amount: remainder(others, rest) as i128,
            };
            let paid = release_transfers(will, token, from, balance, keeper);
            &&& balance > 0 ==> paid == first + parts_in_order(others, token, from, rest).push(left)
            &&& balance > 0 ==> 0 < remainder(others, rest) <= rest <= balance
            &&& balance <= 0 ==> paid.len() == 0
        }),
{
    if balance > 0 {
        let bounty = bounty_of(will, balance as int, keeper);
        let rest = balance - bounty;
        let list = will.beneficiaries;
        let others = list.drop_last();
        law_bounty_is_capped(will, balance, keeper);
        lemma_passed_shares_in_bounds(list);
        lemma_last_receives(list, rest);
        assert(others =~= list.take(list.len() - 1));
        lemma_parts_received(list, list.len() - 1, token, from, rest, from);
        lemma_parts_in_order(others, token, from, rest);
        let parts = payouts(list, token, from, rest);
        assert(Seq::<Transfer>::empty() + parts =~= parts);
    }
}

/// The remainder is less than one unit for each beneficiary, and nothing where
/// the parts come out even.
pub proof fn law_remainder_is_small(will: WillView, rest: int)
    requires
        will.well_formed(),
        0 <= rest <= i128::MAX,
    ensures
        0 <= remainder(will.beneficiaries, rest) < will.beneficiaries.len(),
        rest % 10_000 == 0 ==> remainder(will.beneficiaries, rest) == 0,
{
    let list = will.beneficiaries;
    lemma_passed_shares_in_bounds(list);
    lemma_parts_total(list, rest);
    assert(list =~= list.take(list.len() as int));
    let anyone = list[0].address;
    lemma_parts_received(list, list.len() as int, anyone, anyone, rest, anyone);
    assert(rest * total_share(list) == rest * 10_000);
    if rest % 10_000 == 0 {
        lemma_even_parts(list, rest / 10_000);
        assert(rest == (rest / 10_000) * 10_000);
        assert((rest / 10_000) * 10_000 == rest);
    }
}

/// Parts of a multiple of the whole come out even.
proof fn lemma_even_parts(list: Seq<Beneficiary>, times: int)
    ensures
        remainder(list, times * 10_000) == times * 10_000 - times * total_share(list),
    decreases list.len(),
{
    if list.len() > 0 {
        let front = list.drop_last();
        let share = list.last().share_bps as int;
        lemma_even_parts(front, times);
        assert(times * 10_000 * share / 10_000 == times * share) by (nonlinear_arith);
        assert(times * total_share(list) == times * total_share(front) + times * share)
            by (nonlinear_arith)
            requires
                total_share(list) == total_share(front) + share,
        ;
    } else {
        assert(times * total_share(list) == 0) by (nonlinear_arith)
            requires
                total_share(list) == 0,
        ;
    }
}

/// The event of a trigger tells whose will it was, from when the funds can be
/// released, and what the keeper was paid; that of a release, what there was
/// to release. Both name the contract.
pub proof fn law_what_keeper_events_tell(
    will: WillView,
    token: Address,
    contract: Address,
    balance: i128,
    keeper: Option<Address>,
)
    requires
        will.well_formed(),
    ensures
        ({
            let paid = match bounty_transfer(will, token, contract, balance, keeper) {
                Some(transfer) => transfer.amount,
                None => 0,
            };
            &&& trigger_event(will, contract, balance, keeper).owner == will.owner
            &&& trigger_event(will, contract, balance, keeper).triggered_by == contract
            &&& trigger_event(will, contract, balance, keeper).release_time == will.release_time
            &&& trigger_event(will, contract, balance, keeper).keeper_bounty_paid == paid
            &&& release_event(will, contract, balance, keeper).owner == will.owner
            &&& release_event(will, contract, balance, keeper).released_by == contract
            &&& release_event(will, contract, balance, keeper).total_amount == balance
            &&& release_event(will, contract, balance, keeper).keeper_bounty_paid == paid
        }),
{
    if balance > 0 {
        law_bounty_is_capped(will, balance, keeper);
    }
}

} // verus!
