//! Who is paid what when a stream is closed.
use soroban_sdk::Address;
use vstd::prelude::*;

use crate::accrual::{claimable, claimed_sum, due, is_first_place, lemma_place, part, place, run_for,
    streamed, weight_sum};
use crate::arith::toward_zero;
use crate::laws::accrual::{full_accrual, law_accrual_is_rate_times_ledgers, lemma_part,
    lemma_same_run, lemma_weight_in_sum, sound_share, sound_stream};
use crate::laws::amounts::{law_claims_add_up, law_recipients_are_found, lemma_quotient_in_range};
use crate::laws::closing::{law_close_pays_out_the_deposit, law_close_unless_out_of_range,
    lemma_claimed_not_negative, lemma_settled, running};
use crate::laws::entries::same_entry;
use crate::laws::layout::law_leading_shares_are_those_before_the_first_other_item;
use crate::laws::stream_calls::lemma_all_shares;
use crate::outcome::{Action, Event, Failure, Party, Trap};
use crate::records::StreamView;
use crate::storage::Storage;
use crate::streams::{close_stream_step, closing, settled, settled_items};
use crate::types::{DataKey, StreamRecipient, EVENT_SCHEMA_VERSION};

verus! {

/// What these actions pay to an account in a token, out of what the contract holds.
pub open spec fn paid_to(actions: Seq<Action>, token: Address, who: Address) -> int
    decreases actions.len(),
{
    if actions.len() == 0 {
        0
    } else {
        paid_to(actions.drop_last(), token, who) + match actions.last() {
            Action::Transfer { token: of, from: Party::Contract, to: Party::Account(to), amount } =>
            if of == token && to == who {
                amount as int
            } else {
                0
            },
            _ => 0,
        }
    }
}

/// One transfer for each of the first `n` recipients of a stream that can claim
/// something at ledger `now`, in their order: of what it can claim, in the stream's
/// token, from the contract to that recipient.
pub open spec fn owed_transfers(stream: StreamView, now: u32, n: nat) -> Seq<Action>
    decreases n,
{
    if n == 0 {
        Seq::empty()
    } else {
        let before = owed_transfers(stream, now, (n - 1) as nat);
        let to = stream.recipients[n - 1].recipient;
        let amount = claimable(stream, to, now)->Ok_0;
        if amount > 0 {
            before.push(
                Action::Transfer {
                    token: stream.token,
                    from: Party::Contract,
                    to: Party::Account(to),
                    amount,
                },
            )
        } else {
            before
        }
    }
}

/// What a recipient of the closing stream can claim is what its share is short of
/// its entitlement.
proof fn lemma_owed(stream: StreamView, now: u32, i: int)
    requires
        sound_stream(stream),
        !stream.closed,
        0 <= i < stream.recipients.len(),
    ensures
        ({
            let live = running(stream, now);
            let share = stream.recipients[i];
            let entitled = part(
                streamed(live, now)->Ok_0,
                share.weight,
                weight_sum(stream.recipients),
            );
            &&& sound_stream(live)
            &&& streamed(live, now) is Ok
            &&& streamed(live, now) == streamed(stream, now)
            &&& 0 <= streamed(live, now)->Ok_0 <= full_accrual(stream)
            &&& entitled is Err ==> entitled == Err::<i128, Trap>(Trap::MultiplyOverflow)
            &&& entitled is Ok ==> {
                &&& claimable(stream, share.recipient, now) is Ok
                &&& claimable(stream, share.recipient, now)->Ok_0 == if entitled->Ok_0
                    > share.claimed {
                    entitled->Ok_0 - share.claimed
                } else {
                    0
                }
            }
        }),
{
    let live = running(stream, now);
    let shares = stream.recipients;
    let share = shares[i];
    assert(sound_stream(live));
    law_accrual_is_rate_times_ledgers(live, now);
    law_accrual_is_rate_times_ledgers(stream, now);
    assert(is_first_place(shares, share.recipient, i));
    lemma_place(shares, share.recipient, i);
    assert(run_for(live, now) == run_for(stream, now));
    lemma_same_run(live, stream, now, now, share.recipient);
    lemma_weight_in_sum(shares, i);
    assert(sound_share(share, full_accrual(stream), weight_sum(shares)));
    lemma_part(streamed(live, now)->Ok_0, share.weight, weight_sum(shares));
}

proof fn lemma_settled_transfers(stream: StreamView, now: u32, n: nat)
    requires
        sound_stream(stream),
        !stream.closed,
        n <= stream.recipients.len(),
    ensures
        ({
            let live = running(stream, now);
            let total = streamed(live, now)->Ok_0;
            let settlement = settled(live, total, n);
            &&& settlement is Ok ==> settlement->Ok_0.transfers == owed_transfers(stream, now, n)
            &&& settlement is Err ==> settlement->Err_0 == Trap::MultiplyOverflow
        }),
    decreases n,
{
    if n > 0 {
        let live = running(stream, now);
        let total = streamed(live, now)->Ok_0;
        lemma_settled_transfers(stream, now, (n - 1) as nat);
        lemma_owed(stream, now, n - 1);
        lemma_settled(live, total, (n - 1) as nat);
        lemma_settled(live, total, n);
        assert(live.recipients == stream.recipients);
        if settled(live, total, (n - 1) as nat) is Ok && part(
            total,
            live.recipients[n - 1].weight,
            weight_sum(live.recipients),
        ) is Ok {
            assert forall|i: int| 0 <= i < n implies part(
                total,
                (#[trigger] live.recipients[i]).weight,
                weight_sum(live.recipients),
            ) is Ok by {}
            assert(settled(live, total, n) is Ok);
        }
    }
}

proof fn lemma_owed_transfers(stream: StreamView, now: u32, n: nat, who: Address)
    requires
        sound_stream(stream),
        n <= stream.recipients.len(),
        forall|i: int|
            0 <= i < n ==> claimable(
                stream,
                (#[trigger] stream.recipients[i]).recipient,
                now,
            )->Ok_0 >= 0,
    ensures
        ({
            let transfers = owed_transfers(stream, now, n);
            &&& transfers.len() <= n
            &&& forall|k: int|
                0 <= k < transfers.len() ==> ((#[trigger] transfers[k]) matches Action::Transfer {
                    token,
                    from,
                    to,
                    amount,
                } && token == stream.token && from is Contract && to is Account && amount > 0)
            &&& paid_to(transfers, stream.token, who) == match place(stream.recipients, who) {
                Some(i) => if i < n {
                    claimable(stream, who, now)->Ok_0 as int
                } else {
                    0
                },
                None => 0,
            }
        }),
    decreases n,
{
    if place(stream.recipients, who) is Some {
        assert(is_first_place(stream.recipients, who, place(stream.recipients, who)->0));
    }
    if n > 0 {
        lemma_owed_transfers(stream, now, (n - 1) as nat, who);
        let before = owed_transfers(stream, now, (n - 1) as nat);
        let to = stream.recipients[n - 1].recipient;
        assert(is_first_place(stream.recipients, to, n - 1));
        lemma_place(stream.recipients, to, n - 1);
        assert(claimable(stream, to, now)->Ok_0 >= 0);
        if claimable(stream, to, now)->Ok_0 > 0 {
            assert(owed_transfers(stream, now, n).drop_last() =~= before);
        }
    }
}

/// The payer of an open stream closes it, unless what has accrued times a weight
/// leaves the range of amounts, and has to sign for it. Every recipient that can
/// claim something at this ledger is paid just that, and then the payer what is left
/// of the deposit: these are the transfers that are asked for, all in the stream's
/// token and from the contract, and no others. An event tells both sums. The stream
/// is then closed, with no pause running and each share grown by what it was paid.
/// Nothing else changes.
pub proof fn law_close_pays_each_what_it_could_claim(
    s: Storage,
    id: u32,
    payer: Address,
    now: u32,
    stream: StreamView,
)
    requires
        s.stream(DataKey::Stream(id), Trap::StreamNotFound) == Ok::<StreamView, Trap>(stream),
        sound_stream(stream),
    ensures
        ({
            let step = close_stream_step(s, id, payer, now);
            let t = step.storage;
            let n = stream.recipients.len();
            let in_range = forall|i: int|
                0 <= i < n ==> streamed(stream, now)->Ok_0 * (
                #[trigger] stream.recipients[i]).weight <= i128::MAX;
            let wrong = if payer != stream.payer {
                Some(Trap::NotStreamParty)
            } else if stream.closed {
                Some(Trap::StreamClosed)
            } else if !in_range {
                Some(Trap::MultiplyOverflow)
            } else {
                None
            };
            let length: int = if stream.paused && now >= stream.paused_at_ledger {
                now - stream.paused_at_ledger
            } else {
                0
            };
            &&& step.signer == Some(payer)
            &&& wrong matches Some(trap) ==> {
                &&& step.outcome == Err::<(), Failure>(Failure::Trap(trap))
                &&& t == s
                &&& step.actions.len() == 0
            }
            &&& wrong is None ==> {
                &&& step.outcome is Ok
                &&& step.actions.len() > 0
                &&& t.stream(DataKey::Stream(id), Trap::StreamNotFound) is Ok
                &&& ({
                    let after = t.stream(DataKey::Stream(id), Trap::StreamNotFound)->Ok_0;
                    let owed = claimed_sum(after.recipients) - claimed_sum(stream.recipients);
                    let refund = stream.deposited - claimed_sum(after.recipients);
                    let transfers = step.actions.drop_last();
                    &&& owed >= 0
                    &&& refund >= 0
                    &&& step.actions.last() == Action::Publish {
                        version: EVENT_SCHEMA_VERSION,
                        event: Event::StreamClose {
                            id,
                            owed: owed as i128,
                            refund: refund as i128,
                        },
                    }
                    &&& transfers == if refund > 0 {
                        owed_transfers(stream, now, n).push(
                            Action::Transfer {
                                token: stream.token,
                                from: Party::Contract,
                                to: Party::Account(payer),
                                amount: refund as i128,
                            },
                        )
                    } else {
                        owed_transfers(stream, now, n)
                    }
                    &&& after.payer == stream.payer
                    &&& after.token == stream.token
                    &&& after.rate_per_ledger == stream.rate_per_ledger
                    &&& after.deposited == stream.deposited
                    &&& after.start_ledger == stream.start_ledger
                    &&& !after.paused
                    &&& stream.paused ==> after.paused_at_ledger == 0
                    &&& !stream.paused ==> after.paused_at_ledger == stream.paused_at_ledger
                    &&& stream.paused_ledgers + length <= u32::MAX ==> after.paused_ledgers
                        == stream.paused_ledgers + length
                    &&& stream.paused_ledgers + length > u32::MAX ==> after.paused_ledgers
                        == u32::MAX
                    &&& after.closed
                    &&& after.odd is None
                    &&& after.recipients.len() == n
                    &&& forall|i: int|
                        0 <= i < n ==> {
                            let share = #[trigger] stream.recipients[i];
                            let amount = claimable(stream, share.recipient, now);
                            &&& amount is Ok
                            &&& amount->Ok_0 >= 0
                            &&& after.recipients[i].recipient == share.recipient
                            &&& after.recipients[i].weight == share.weight
                            &&& after.recipients[i].claimed == share.claimed + amount->Ok_0
                        }
                })
                &&& forall|key: DataKey|
                    key != DataKey::Stream(id) ==> #[trigger] same_entry(s, t, key)
            }
        }),
{
    if payer == stream.payer && !stream.closed {
        law_close_unless_out_of_range(stream, now);
        let live = running(stream, now);
        let n = stream.recipients.len();
        lemma_owed(stream, now, 0);
        lemma_settled_transfers(stream, now, n);
        let total = streamed(live, now)->Ok_0;
        lemma_settled(live, total, n);
        if closing(stream, now) is Ok {
            law_close_pays_out_the_deposit(stream, now);
            let end = closing(stream, now)->Ok_0;
            end.stream.lemma_round_trip();
            let step = close_stream_step(s, id, payer, now);
            assert(step.actions.drop_last() =~= end.transfers);
            assert forall|i: int| 0 <= i < n implies claimable(
                stream,
                (#[trigger] stream.recipients[i]).recipient,
                now,
            )->Ok_0 >= 0 by {
                lemma_owed(stream, now, i);
            }
        } else {
            lemma_unsettled(stream, now);
        }
    }
}

/// A sound stream is not closed only where a product leaves the range.
proof fn lemma_unsettled(stream: StreamView, now: u32)
    requires
        sound_stream(stream),
        !stream.closed,
        closing(stream, now) is Err,
    ensures
        closing(stream, now)->Err_0 == Trap::MultiplyOverflow,
{
    let live = running(stream, now);
    let n = stream.recipients.len();
    lemma_owed(stream, now, 0);
    let total = streamed(live, now)->Ok_0;
    lemma_settled_transfers(stream, now, n);
    if settled(live, total, n) is Ok {
        lemma_settled(live, total, n);
        law_close_unless_out_of_range(stream, now);
        assert forall|i: int| 0 <= i < n implies streamed(stream, now)->Ok_0 * (
        #[trigger] stream.recipients[i]).weight <= i128::MAX by {
            lemma_weight_in_sum(stream.recipients, i);
            assert(sound_share(
                stream.recipients[i],
                full_accrual(stream),
                weight_sum(stream.recipients),
            ));
            assert(part(total, live.recipients[i].weight, weight_sum(live.recipients)) is Ok);
            lemma_part(total, stream.recipients[i].weight, weight_sum(stream.recipients));
        }
    }
}

/// What is left of the deposit is an amount.
proof fn lemma_claimed_stays_in_range(stream: StreamView, after: StreamView)
    requires
        sound_stream(stream),
        after.recipients.len() == stream.recipients.len(),
        forall|i: int|
            0 <= i < stream.recipients.len() ==> (#[trigger] after.recipients[i]).claimed >= 0,
    ensures
        stream.deposited - claimed_sum(after.recipients) <= i128::MAX,
{
    lemma_claimed_not_negative(after.recipients, after.recipients.len() as int);
    assert(after.recipients.take(after.recipients.len() as int) =~= after.recipients);
}

/// For each account, what closing a stream transfers to it adds up to exactly what
/// it could have claimed at this ledger, with what is left of the deposit on top
/// for the payer. All of these transfers are positive, in the stream's token and
/// from the contract.
pub proof fn law_close_owes_nobody_anything(
    s: Storage,
    id: u32,
    payer: Address,
    now: u32,
    stream: StreamView,
    who: Address,
)
    requires
        s.stream(DataKey::Stream(id), Trap::StreamNotFound) == Ok::<StreamView, Trap>(stream),
        sound_stream(stream),
        close_stream_step(s, id, payer, now).outcome is Ok,
    ensures
        ({
            let step = close_stream_step(s, id, payer, now);
            let after = step.storage.stream(DataKey::Stream(id), Trap::StreamNotFound)->Ok_0;
            let refund = stream.deposited - claimed_sum(after.recipients);
            &&& claimable(stream, who, now) is Ok
            &&& paid_to(step.actions, stream.token, who) == claimable(stream, who, now)->Ok_0
                + if who == stream.payer {
                refund
            } else {
                0
            }
            &&& forall|k: int|
                0 <= k < step.actions.len() - 1 ==> ((
                #[trigger] step.actions[k]) matches Action::Transfer { token, from, to, amount }
                    && token == stream.token && from is Contract && to is Account && amount > 0)
            &&& step.actions.last() is Publish
        }),
{
    law_close_pays_each_what_it_could_claim(s, id, payer, now, stream);
    law_recipients_are_found(stream.recipients, who, 0);
    let n = stream.recipients.len();
    let step = close_stream_step(s, id, payer, now);
    lemma_owed_transfers(stream, now, n, who);
    let transfers = step.actions.drop_last();
    let owed = owed_transfers(stream, now, n);
    let after = step.storage.stream(DataKey::Stream(id), Trap::StreamNotFound)->Ok_0;
    let refund = stream.deposited - claimed_sum(after.recipients);
    assert forall|i: int| 0 <= i < n implies (#[trigger] after.recipients[i]).claimed >= 0 by {
        assert(sound_share(
            stream.recipients[i],
            full_accrual(stream),
            weight_sum(stream.recipients),
        ));
    }
    lemma_claimed_stays_in_range(stream, after);
    if refund > 0 {
        assert(transfers.drop_last() =~= owed);
    }
    if place(stream.recipients, who) is Some {
        let i = place(stream.recipients, who)->0;
        assert(is_first_place(stream.recipients, who, i));
        assert(stream.recipients[i].recipient == who);
    }
    assert(claimable(stream, who, now) is Ok);
    assert(paid_to(step.actions, stream.token, who) == paid_to(transfers, stream.token, who));
    assert(paid_to(transfers, stream.token, who) == paid_to(owed, stream.token, who) + if who
        == stream.payer {
        refund
    } else {
        0
    });
    assert forall|k: int| 0 <= k < step.actions.len() - 1 implies ((
    #[trigger] step.actions[k]) matches Action::Transfer { token, from, to, amount } && token
        == stream.token && from is Contract && to is Account && amount > 0) by {
        assert(step.actions[k] == transfers[k]);
        if k < owed.len() {
            assert(owed[k] == transfers[k]);
        }
    }
}

/// One transfer for each of the first `n` shares of a stream to which something is
/// due when `total` has accrued, in their order.
pub open spec fn due_transfers(stream: StreamView, total: i128, n: nat) -> Seq<Action>
    decreases n,
{
    if n == 0 {
        Seq::empty()
    } else {
        let before = due_transfers(stream, total, (n - 1) as nat);
        let share = stream.recipients[n - 1];
        let amount = due(share, total, weight_sum(stream.recipients))->Ok_0;
        if amount > 0 {
            before.push(
                Action::Transfer {
                    token: stream.token,
                    from: Party::Contract,
                    to: Party::Account(share.recipient),
                    amount,
                },
            )
        } else {
            before
        }
    }
}

proof fn lemma_settled_dues(stream: StreamView, total: i128, n: nat)
    requires
        n <= stream.recipients.len(),
        settled(stream, total, n) is Ok,
    ensures
        ({
            let settlement = settled(stream, total, n)->Ok_0;
            &&& settlement.transfers == due_transfers(stream, total, n)
            &&& settlement.shares.len() == n
            &&& forall|i: int|
                0 <= i < n ==> {
                    let share = #[trigger] stream.recipients[i];
                    let amount = due(share, total, weight_sum(stream.recipients));
                    &&& amount is Ok
                    &&& amount->Ok_0 >= 0
                    &&& settlement.shares[i].recipient == share.recipient
                    &&& settlement.shares[i].weight == share.weight
                    &&& settlement.shares[i].claimed == share.claimed + amount->Ok_0
                }
            &&& settlement.owed == claimed_sum(settlement.shares) - claimed_sum(
                stream.recipients.take(n as int),
            )
        }),
    decreases n,
{
    if n == 0 {
        assert(stream.recipients.take(0) =~= Seq::empty());
    } else {
        let m = (n - 1) as nat;
        lemma_settled_dues(stream, total, m);
        let before = settled(stream, total, m)->Ok_0;
        let settlement = settled(stream, total, n)->Ok_0;
        assert(settlement.shares.drop_last() =~= before.shares);
        assert(stream.recipients.take(n as int).drop_last() =~= stream.recipients.take(m as int));
        assert forall|i: int| 0 <= i < n implies ({
            let share = #[trigger] stream.recipients[i];
            let amount = due(share, total, weight_sum(stream.recipients));
            &&& amount is Ok
            &&& amount->Ok_0 >= 0
            &&& settlement.shares[i].recipient == share.recipient
            &&& settlement.shares[i].weight == share.weight
            &&& settlement.shares[i].claimed == share.claimed + amount->Ok_0
        }) by {
            if i < m {
                assert(settlement.shares[i] == before.shares[i]);
            }
        }
    }
}

/// Whatever the terms of a stream are, closing it pays each share what is due to it
/// at this ledger and the payer what the claims then leave of the deposit. Each share
/// has then claimed that much more. The stream cannot be closed while one item of its
/// list of recipients is no recipient.
pub proof fn law_close_settles_every_share(
    s: Storage,
    id: u32,
    payer: Address,
    now: u32,
    stream: StreamView,
)
    requires
        s.stream(DataKey::Stream(id), Trap::StreamNotFound) == Ok::<StreamView, Trap>(stream),
        payer == stream.payer,
        !stream.closed,
    ensures
        ({
            let step = close_stream_step(s, id, payer, now);
            let t = step.storage;
            let n = stream.recipients.len();
            let total = streamed(stream, now)->Ok_0;
            &&& step.signer == Some(payer)
            &&& streamed(stream, now) matches Err(trap) ==> step.outcome == Err::<(), Failure>(
                Failure::Trap(trap),
            )
            &&& streamed(stream, now) is Ok && !stream.is_whole() ==> step.outcome == Err::<
                (),
                Failure,
            >(Failure::Trap(Trap::MalformedEntry))
            &&& step.outcome is Err ==> t == s && step.actions.len() == 0
            &&& step.outcome is Ok ==> {
                &&& t.stream(DataKey::Stream(id), Trap::StreamNotFound) is Ok
                &&& step.actions.len() > 0
                &&& ({
                    let after = t.stream(DataKey::Stream(id), Trap::StreamNotFound)->Ok_0;
                    let owed = claimed_sum(after.recipients) - claimed_sum(stream.recipients);
                    let refund = stream.deposited - claimed_sum(after.recipients);
                    &&& i128::MIN <= owed <= i128::MAX
                    &&& i128::MIN <= refund <= i128::MAX
                    &&& step.actions.last() == Action::Publish {
                        version: EVENT_SCHEMA_VERSION,
                        event: Event::StreamClose {
                            id,
                            owed: owed as i128,
                            refund: refund as i128,
                        },
                    }
                    &&& step.actions.drop_last() == if refund > 0 {
                        due_transfers(stream, total, n).push(
                            Action::Transfer {
                                token: stream.token,
                                from: Party::Contract,
                                to: Party::Account(payer),
                                amount: refund as i128,
                            },
                        )
                    } else {
                        due_transfers(stream, total, n)
                    }
                    &&& after.closed
                    &&& !after.paused
                    &&& after.payer == stream.payer
                    &&& after.token == stream.token
                    &&& after.rate_per_ledger == stream.rate_per_ledger
                    &&& after.deposited == stream.deposited
                    &&& after.start_ledger == stream.start_ledger
                    &&& after.recipients.len() == n
                    &&& forall|i: int|
                        0 <= i < n ==> {
                            let share = #[trigger] stream.recipients[i];
                            let amount = due(share, total, weight_sum(stream.recipients));
                            &&& amount is Ok
                            &&& amount->Ok_0 >= 0
                            &&& after.recipients[i].recipient == share.recipient
                            &&& after.recipients[i].weight == share.weight
                            &&& after.recipients[i].claimed == share.claimed + amount->Ok_0
                        }
                })
                &&& forall|key: DataKey|
                    key != DataKey::Stream(id) ==> #[trigger] same_entry(s, t, key)
            }
        }),
{
    let live = running(stream, now);
    let n = stream.recipients.len();
    assert(run_for(live, now) == run_for(stream, now));
    let step = close_stream_step(s, id, payer, now);
    if step.outcome is Ok {
        let total = streamed(stream, now)->Ok_0;
        let end = closing(stream, now)->Ok_0;
        lemma_settled_dues(live, total, n);
        lemma_same_dues(live, stream, total, n);
        assert(stream.recipients.take(n as int) =~= stream.recipients);
        let shares = settled(live, total, n)->Ok_0.shares;
        law_claims_add_up(shares, stream.recipients[0]);
        StreamView::lemma_read_coherent(s.value(DataKey::Stream(id)));
        assert forall|i: int|
            0 <= i < n && shares[i].claimed == stream.recipients[i].claimed implies (
        #[trigger] shares[i]) == stream.recipients[i] by {
            let share = stream.recipients[i];
            assert(shares[i].recipient == share.recipient);
        }
        if let Some(items) = stream.odd {
            law_leading_shares_are_those_before_the_first_other_item(items);
            let new_items = settled_items(items, stream.recipients, shares);
            assert forall|i: int| 0 <= i < new_items.len() implies StreamRecipient::decoded(
                #[trigger] new_items[i],
            ) == Some(shares[i]) by {
                assert(StreamRecipient::decoded(items[i]) == Some(stream.recipients[i]));
                shares[i].lemma_round_trip();
            }
            lemma_all_shares(new_items, shares);
        }
        end.stream.lemma_round_trip();
        assert(step.actions.drop_last() =~= end.transfers);
    }
}

proof fn lemma_same_dues(one: StreamView, two: StreamView, total: i128, n: nat)
    requires
        one.recipients == two.recipients,
        one.token == two.token,
    ensures
        due_transfers(one, total, n) == due_transfers(two, total, n),
    decreases n,
{
    if n > 0 {
        lemma_same_dues(one, two, total, (n - 1) as nat);
    }
}

/// What is due to a share is its weight's part of what has accrued, rounded toward
/// zero, less what it has claimed; and nothing, if that is less than nothing.
pub proof fn law_due_is_the_rest_of_the_part(share: StreamRecipient, total: i128, out_of: nat)
    requires
        i128::MIN <= total * share.weight <= i128::MAX,
        out_of > 0,
    ensures
        ({
            let rest = toward_zero(total * share.weight, out_of as int) - share.claimed;
            &&& i128::MIN <= rest <= i128::MAX ==> {
                &&& due(share, total, out_of) is Ok
                &&& due(share, total, out_of)->Ok_0 == if rest > 0 {
                    rest
                } else {
                    0
                }
            }
            &&& !(i128::MIN <= rest <= i128::MAX) ==> due(share, total, out_of) == Err::<
                i128,
                Trap,
            >(Trap::SubtractOverflow)
        }),
{
    lemma_quotient_in_range(total * share.weight, out_of as int);
}

} // verus!
