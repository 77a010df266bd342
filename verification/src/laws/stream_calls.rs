//! What the calls on streams do, in terms of what they are given.
use soroban_sdk::Address;
use vstd::arithmetic::div_mod::lemma_fundamental_div_mod;
use vstd::prelude::*;

use crate::accrual::{claimable, dry_for, place, weight_sum};
use crate::laws::accrual::lemma_weight_in_sum;
use crate::laws::amounts::{law_accrual_is_paid_for, law_claimable_is_the_weighted_rest,
    law_recipients_are_found};
use crate::laws::entries::{holds, holds_number, same_entry};
use crate::laws::layout::law_leading_shares_are_those_before_the_first_other_item;
use crate::outcome::{Action, Event, Failure, Party, Trap};
use crate::records::{leading_shares, StreamView};
use crate::sdk::{address_items, number_items, Datum};
use crate::storage::Storage;
use crate::streams::{claim_stream_step, claimable_at, claimed_by, close_stream_step,
    fresh_stream, open_stream_step, pause_stream_step, resume_stream_step, resumed, suspended,
    top_up_stream_step, topped_up};
use crate::types::{DataKey, StreamRecipient, EVENT_SCHEMA_VERSION, MIN_STREAM_DEPOSIT,
    MIN_STREAM_DURATION_LEDGERS};

verus! {

/// A list that does not have the given item.
pub open spec fn lacks<T>(items: Seq<T>, item: T) -> bool {
    forall|i: int| 0 <= i < items.len() ==> #[trigger] items[i] != item
}

/// A list that has no item twice.
pub open spec fn all_differ<T>(items: Seq<T>) -> bool {
    forall|i: int, j: int| 0 <= i < j < items.len() ==> #[trigger] items[i] != #[trigger] items[j]
}

/// The sum of numbers.
pub open spec fn sum_of(numbers: Seq<u32>) -> int
    decreases numbers.len(),
{
    if numbers.len() == 0 {
        0
    } else {
        sum_of(numbers.drop_last()) + numbers.last()
    }
}

/// A stream is opened if it has recipients, none of them twice, each of them with a
/// positive weight, a positive rate, and a deposit of at least the minimum that
/// pays for at least the shortest run, and if there is a number left for it; what
/// is wrong first is told. The payer has to sign for it. Opening it moves exactly
/// the deposit, of that token, from the payer to the contract. Under the next id
/// the stream then holds at each place the recipient and the weight that were
/// passed for that place, nothing claimed, and the other terms as they were passed,
/// from this ledger on. Nothing else changes.
pub proof fn law_open_records_what_was_passed(
    s: Storage,
    token: Address,
    payer: Address,
    recipients: soroban_sdk::Vec<Address>,
    weights: soroban_sdk::Vec<u32>,
    rate_per_ledger: i128,
    deposit: i128,
    now: u32,
    id: u32,
)
    requires
        holds_number(s, DataKey::StreamCount, id),
    ensures
        ({
            let tos = address_items(recipients)->0;
            let parts = number_items(weights)->0;
            let step = open_stream_step(
                s,
                token,
                payer,
                recipients,
                weights,
                rate_per_ledger,
                deposit,
                now,
            );
            let t = step.storage;
            let wrong = if address_items(recipients) is None || number_items(weights) is None {
                Some(Trap::MalformedArgument)
            } else if tos.len() != parts.len() {
                Some(Trap::UnequalRecipientsAndWeights)
            } else if tos.len() == 0 {
                Some(Trap::NoRecipients)
            } else if !lacks(parts, 0u32) {
                Some(Trap::WeightNotPositive)
            } else if !all_differ(tos) {
                Some(Trap::DuplicateRecipient)
            } else if rate_per_ledger <= 0 {
                Some(Trap::RateNotPositive)
            } else if deposit <= 0 {
                Some(Trap::DepositNotPositive)
            } else if deposit < MIN_STREAM_DEPOSIT {
                Some(Trap::DepositBelowMinimum)
            } else if deposit < rate_per_ledger * MIN_STREAM_DURATION_LEDGERS {
                Some(Trap::DurationBelowMinimum)
            } else if id == u32::MAX {
                Some(Trap::AddOverflow)
            } else {
                None
            };
            &&& step.signer == Some(payer)
            &&& wrong matches Some(trap) ==> {
                &&& step.outcome == Err::<u32, Failure>(Failure::Trap(trap))
                &&& t == s
                &&& step.actions.len() == 0
            }
            &&& wrong is None ==> {
                &&& step.outcome == Ok::<u32, Failure>(id)
                &&& step.actions.len() == 2
                &&& step.actions[0] == Action::Transfer {
                    token,
                    from: Party::Account(payer),
                    to: Party::Contract,
                    amount: deposit,
                }
                &&& step.actions[1] == Action::Publish {
                    version: EVENT_SCHEMA_VERSION,
                    event: Event::StreamOpen {
                        id,
                        payer,
                        recipients,
                        weights,
                        rate_per_ledger,
                        deposit,
                    },
                }
                &&& t.stream(DataKey::Stream(id), Trap::StreamNotFound) is Ok
                &&& ({
                    let stream = t.stream(DataKey::Stream(id), Trap::StreamNotFound)->Ok_0;
                    &&& stream.payer == payer
                    &&& stream.token == token
                    &&& stream.rate_per_ledger == rate_per_ledger
                    &&& stream.deposited == deposit
                    &&& stream.start_ledger == now
                    &&& !stream.paused
                    &&& stream.paused_at_ledger == 0
                    &&& stream.paused_ledgers == 0
                    &&& !stream.closed
                    &&& stream.odd is None
                    &&& stream.recipients.len() == tos.len()
                    &&& forall|i: int|
                        0 <= i < tos.len() ==> (#[trigger] stream.recipients[i]).recipient == tos[i]
                            && stream.recipients[i].weight == parts[i]
                            && stream.recipients[i].claimed == 0
                })
                &&& holds(t, DataKey::StreamCount, Datum::Number((id + 1) as u32))
                &&& forall|key: DataKey|
                    key != DataKey::Stream(id) && key != DataKey::StreamCount
                        ==> #[trigger] same_entry(s, t, key)
            }
        }),
{
    if address_items(recipients) is Some && number_items(weights) is Some {
        let tos = address_items(recipients)->0;
        let parts = number_items(weights)->0;
        fresh_stream(token, payer, tos, parts, rate_per_ledger, deposit, now).lemma_round_trip();
        assert(parts.contains(0u32) <==> !lacks(parts, 0u32));
        assert(tos.no_duplicates() <==> all_differ(tos));
        if rate_per_ledger > 0 {
            let rate = rate_per_ledger as int;
            let funded = deposit as int / rate;
            lemma_fundamental_div_mod(deposit as int, rate);
            assert(funded < MIN_STREAM_DURATION_LEDGERS <==> deposit < rate
                * MIN_STREAM_DURATION_LEDGERS) by (nonlinear_arith)
                requires
                    deposit as int == rate * funded + deposit as int % rate,
                    0 <= deposit as int % rate < rate,
            ;
        }
    }
}

proof fn lemma_weights_of(shares: Seq<StreamRecipient>, weights: Seq<u32>)
    requires
        shares.len() == weights.len(),
        forall|i: int| 0 <= i < weights.len() ==> (#[trigger] shares[i]).weight == weights[i],
    ensures
        weight_sum(shares) == sum_of(weights),
    decreases shares.len(),
{
    if shares.len() > 0 {
        assert(shares.last() == shares[shares.len() - 1]);
        lemma_weights_of(shares.drop_last(), weights.drop_last());
    }
}

/// Once an opened stream has run for `ledgers` ledgers that its deposit pays for,
/// each recipient can claim, of the rate for those ledgers, the part that its weight
/// is of all the weights that were passed, rounded down.
pub proof fn law_opened_stream_pays_by_weight(
    s: Storage,
    token: Address,
    payer: Address,
    recipients: soroban_sdk::Vec<Address>,
    weights: soroban_sdk::Vec<u32>,
    rate_per_ledger: i128,
    deposit: i128,
    now: u32,
    id: u32,
    ledgers: u32,
    i: int,
)
    requires
        open_stream_step(
            s,
            token,
            payer,
            recipients,
            weights,
            rate_per_ledger,
            deposit,
            now,
        ).outcome == Ok::<u32, Failure>(id),
        now + ledgers <= u32::MAX,
        rate_per_ledger * ledgers <= deposit,
        0 <= i < address_items(recipients)->0.len(),
        rate_per_ledger * ledgers * number_items(weights)->0[i] <= i128::MAX,
    ensures
        ({
            let parts = number_items(weights)->0;
            let t = open_stream_step(
                s,
                token,
                payer,
                recipients,
                weights,
                rate_per_ledger,
                deposit,
                now,
            ).storage;
            let amount = claimable_at(
                t,
                id,
                address_items(recipients)->0[i],
                (now + ledgers) as u32,
            );
            amount is Ok && amount->Ok_0 == (rate_per_ledger * ledgers * parts[i]) / sum_of(parts)
        }),
{
    law_open_records_what_was_passed(
        s,
        token,
        payer,
        recipients,
        weights,
        rate_per_ledger,
        deposit,
        now,
        id,
    );
    let tos = address_items(recipients)->0;
    let parts = number_items(weights)->0;
    let t = open_stream_step(
        s,
        token,
        payer,
        recipients,
        weights,
        rate_per_ledger,
        deposit,
        now,
    ).storage;
    let stream = t.stream(DataKey::Stream(id), Trap::StreamNotFound)->Ok_0;
    let then = (now + ledgers) as u32;
    assert(stream.recipients[i].recipient == tos[i]);
    lemma_weights_of(stream.recipients, parts);
    lemma_weight_in_sum(stream.recipients, i);
    law_accrual_is_paid_for(stream, then);
    assert(parts[i] != 0);
    assert forall|j: int| 0 <= j < i implies (#[trigger] stream.recipients[j]).recipient
        != stream.recipients[i].recipient by {
        assert(tos[j] != tos[i]);
    }
    law_claimable_is_the_weighted_rest(stream, i, then);
    let total = rate_per_ledger * ledgers;
    assert(0 <= (total * parts[i]) / sum_of(parts)) by (nonlinear_arith)
        requires
            0 <= total,
            0 < sum_of(parts),
            0 <= parts[i],
    ;
}

pub proof fn lemma_all_shares(items: Seq<Datum>, shares: Seq<StreamRecipient>)
    requires
        items.len() == shares.len(),
        forall|i: int|
            0 <= i < items.len() ==> StreamRecipient::decoded(#[trigger] items[i]) == Some(
                shares[i],
            ),
    ensures
        leading_shares(items) == shares,
    decreases items.len(),
{
    if items.len() > 0 {
        assert(items.last() == items[items.len() - 1]);
        lemma_all_shares(items.drop_last(), shares.drop_last());
        assert(shares.drop_last().push(shares.last()) =~= shares);
    }
}

/// A claim by a recipient pays what it can claim, and the recipient has to sign for
/// it: exactly one transfer is asked for, of that amount of the stream's token, from
/// the contract to the one that claims. That much more is then on record as claimed
/// by it, and nothing else changes. Where nothing can be claimed, nothing at all
/// changes, and a closed stream pays nothing.
pub proof fn law_claim_pays_the_claimer(
    s: Storage,
    id: u32,
    who: Address,
    now: u32,
    stream: StreamView,
    i: int,
)
    requires
        s.stream(DataKey::Stream(id), Trap::StreamNotFound) == Ok::<StreamView, Trap>(stream),
        0 <= i < stream.recipients.len(),
        stream.recipients[i].recipient == who,
        forall|j: int| 0 <= j < i ==> (#[trigger] stream.recipients[j]).recipient != who,
    ensures
        ({
            let step = claim_stream_step(s, id, who, now);
            let t = step.storage;
            &&& step.signer == Some(who)
            &&& step.outcome is Err || step.outcome == Ok::<i128, Failure>(0) ==> t == s
                && step.actions.len() == 0
            &&& stream.closed ==> step.outcome == Err::<i128, Failure>(
                Failure::Trap(Trap::StreamClosed),
            )
            &&& !stream.closed ==> match claimable(stream, who, now) {
                Err(trap) => step.outcome == Err::<i128, Failure>(Failure::Trap(trap)),
                Ok(amount) => step.outcome == Ok::<i128, Failure>(amount),
            }
            &&& step.outcome matches Ok(amount) ==> {
                &&& amount >= 0
                &&& amount > 0 ==> {
                    &&& step.actions.len() == 2
                    &&& step.actions[0] == Action::Transfer {
                        token: stream.token,
                        from: Party::Contract,
                        to: Party::Account(who),
                        amount,
                    }
                    &&& step.actions[1] == Action::Publish {
                        version: EVENT_SCHEMA_VERSION,
                        event: Event::StreamClaim { id, recipient: who, amount },
                    }
                    &&& t.stream(DataKey::Stream(id), Trap::StreamNotFound) is Ok
                    &&& ({
                        let after = t.stream(DataKey::Stream(id), Trap::StreamNotFound)->Ok_0;
                        &&& after.payer == stream.payer
                        &&& after.token == stream.token
                        &&& after.rate_per_ledger == stream.rate_per_ledger
                        &&& after.deposited == stream.deposited
                        &&& after.start_ledger == stream.start_ledger
                        &&& after.paused == stream.paused
                        &&& after.paused_at_ledger == stream.paused_at_ledger
                        &&& after.paused_ledgers == stream.paused_ledgers
                        &&& !after.closed
                        &&& after.recipients.len() == stream.recipients.len()
                        &&& after.recipients[i].recipient == who
                        &&& after.recipients[i].weight == stream.recipients[i].weight
                        &&& after.recipients[i].claimed == stream.recipients[i].claimed + amount
                        &&& forall|j: int|
                            0 <= j < stream.recipients.len() && j != i
                                ==> #[trigger] after.recipients[j] == stream.recipients[j]
                        &&& stream.odd is None ==> after.odd is None
                    })
                    &&& forall|key: DataKey|
                        key != DataKey::Stream(id) ==> #[trigger] same_entry(s, t, key)
                }
            }
        }),
{
    law_recipients_are_found(stream.recipients, who, i);
    StreamView::lemma_read_coherent(s.value(DataKey::Stream(id)));
    let step = claim_stream_step(s, id, who, now);
    if step.outcome is Ok && step.outcome->Ok_0 != 0 {
        let amount = step.outcome->Ok_0;
        let after = claimed_by(stream, i, amount);
        let share = stream.recipients[i];
        let paid = StreamRecipient { claimed: (share.claimed + amount) as i128, ..share };
        if let Some(items) = stream.odd {
            law_leading_shares_are_those_before_the_first_other_item(items);
            paid.lemma_round_trip();
            let new_items = items.update(i, paid.encoded());
            assert forall|j: int| 0 <= j < new_items.len() implies StreamRecipient::decoded(
                #[trigger] new_items[j],
            ) == Some(after.recipients[j]) by {
                if j != i {
                    assert(StreamRecipient::decoded(items[j]) == Some(stream.recipients[j]));
                }
            }
            lemma_all_shares(new_items, after.recipients);
        }
        after.lemma_round_trip();
    }
}

/// Nobody but its recipients claims from a stream.
pub proof fn law_others_claim_nothing(
    s: Storage,
    id: u32,
    who: Address,
    now: u32,
    stream: StreamView,
)
    requires
        s.stream(DataKey::Stream(id), Trap::StreamNotFound) == Ok::<StreamView, Trap>(stream),
        forall|i: int|
            0 <= i < stream.recipients.len() ==> (#[trigger] stream.recipients[i]).recipient != who,
    ensures
        ({
            let step = claim_stream_step(s, id, who, now);
            &&& step.signer == Some(who)
            &&& step.storage == s
            &&& step.actions.len() == 0
            &&& step.outcome == Err::<i128, Failure>(
                Failure::Trap(
                    if stream.is_whole() {
                        Trap::NotStreamParty
                    } else {
                        Trap::MalformedEntry
                    },
                ),
            )
        }),
{
    law_recipients_are_found(stream.recipients, who, 0);
    assert(place(stream.recipients, who) is None);
}

/// The payer of an open stream adds a positive amount to its deposit, as long as
/// that stays in range, and has to sign for it. It moves exactly that amount of the
/// stream's token from the payer to the contract, and the deposit is larger by it.
/// The ledgers that the stream ran unfunded count as paused, and nothing else
/// changes.
pub proof fn law_top_up_adds_its_amount(
    s: Storage,
    id: u32,
    payer: Address,
    amount: i128,
    now: u32,
    stream: StreamView,
)
    requires
        s.stream(DataKey::Stream(id), Trap::StreamNotFound) == Ok::<StreamView, Trap>(stream),
    ensures
        ({
            let step = top_up_stream_step(s, id, payer, amount, now);
            let t = step.storage;
            let wrong = if payer != stream.payer {
                Some(Trap::NotStreamParty)
            } else if stream.closed {
                Some(Trap::StreamClosed)
            } else if amount <= 0 {
                Some(Trap::AmountNotPositive)
            } else if stream.deposited + amount > i128::MAX {
                Some(Trap::AddOverflow)
            } else {
                None
            };
            &&& step.signer == Some(payer)
            &&& wrong matches Some(trap) ==> {
                &&& step.outcome == Err::<(), Failure>(Failure::Trap(trap))
                &&& t == s
                &&& step.actions.len() == 0
            }
            &&& wrong is None ==> {
                &&& step.outcome is Ok
                &&& step.actions.len() == 2
                &&& step.actions[0] == Action::Transfer {
                    token: stream.token,
                    from: Party::Account(payer),
                    to: Party::Contract,
                    amount,
                }
                &&& step.actions[1] == Action::Publish {
                    version: EVENT_SCHEMA_VERSION,
                    event: Event::StreamTopUp {
                        id,
                        payer,
                        amount,
                        deposited: (stream.deposited + amount) as i128,
                    },
                }
                &&& t.stream(DataKey::Stream(id), Trap::StreamNotFound) is Ok
                &&& ({
                    let after = t.stream(DataKey::Stream(id), Trap::StreamNotFound)->Ok_0;
                    &&& after.deposited == stream.deposited + amount
                    &&& after.paused_ledgers == stream.paused_ledgers + dry_for(stream, now)
                    &&& after.payer == stream.payer
                    &&& after.token == stream.token
                    &&& after.rate_per_ledger == stream.rate_per_ledger
                    &&& after.start_ledger == stream.start_ledger
                    &&& after.paused == stream.paused
                    &&& after.paused_at_ledger == stream.paused_at_ledger
                    &&& !after.closed
                    &&& after.recipients == stream.recipients
                    &&& after.odd == stream.odd
                })
                &&& forall|key: DataKey|
                    key != DataKey::Stream(id) ==> #[trigger] same_entry(s, t, key)
            }
        }),
{
    StreamView::lemma_read_coherent(s.value(DataKey::Stream(id)));
    topped_up(stream, (stream.deposited + amount) as i128, now).lemma_round_trip();
    if stream.rate_per_ledger > 0 && stream.deposited >= 0 {
        assert(0 <= stream.deposited as int / stream.rate_per_ledger as int) by (nonlinear_arith)
            requires
                stream.deposited >= 0,
                stream.rate_per_ledger > 0,
        ;
    }
}

/// The payer of an open stream pauses it, unless it is paused, and has to sign for
/// it. The pause begins at this ledger, no funds move, and nothing else changes.
pub proof fn law_pause_begins_now(
    s: Storage,
    id: u32,
    payer: Address,
    now: u32,
    stream: StreamView,
)
    requires
        s.stream(DataKey::Stream(id), Trap::StreamNotFound) == Ok::<StreamView, Trap>(stream),
    ensures
        ({
            let step = pause_stream_step(s, id, payer, now);
            let t = step.storage;
            let wrong = if payer != stream.payer {
                Some(Trap::NotStreamParty)
            } else if stream.closed {
                Some(Trap::StreamClosed)
            } else if stream.paused {
                Some(Trap::StreamAlreadyPaused)
            } else {
                None
            };
            &&& step.signer == Some(payer)
            &&& wrong matches Some(trap) ==> {
                &&& step.outcome == Err::<(), Failure>(Failure::Trap(trap))
                &&& t == s
                &&& step.actions.len() == 0
            }
            &&& wrong is None ==> {
                &&& step.outcome is Ok
                &&& step.actions.len() == 1
                &&& step.actions[0] == Action::Publish {
                    version: EVENT_SCHEMA_VERSION,
                    event: Event::StreamPause { id, payer, paused_at_ledger: now },
                }
                &&& t.stream(DataKey::Stream(id), Trap::StreamNotFound) is Ok
                &&& ({
                    let after = t.stream(DataKey::Stream(id), Trap::StreamNotFound)->Ok_0;
                    &&& after.paused
                    &&& after.paused_at_ledger == now
                    &&& after.paused_ledgers == stream.paused_ledgers
                    &&& after.payer == stream.payer
                    &&& after.token == stream.token
                    &&& after.rate_per_ledger == stream.rate_per_ledger
                    &&& after.deposited == stream.deposited
                    &&& after.start_ledger == stream.start_ledger
                    &&& !after.closed
                    &&& after.recipients == stream.recipients
                    &&& after.odd == stream.odd
                })
                &&& forall|key: DataKey|
                    key != DataKey::Stream(id) ==> #[trigger] same_entry(s, t, key)
            }
        }),
{
    StreamView::lemma_read_coherent(s.value(DataKey::Stream(id)));
    suspended(stream, now).lemma_round_trip();
}

/// The payer of an open stream resumes it, if it is paused, and has to sign for it.
/// The ledgers since the pause began are then on record as paused, no funds move,
/// and nothing else changes.
pub proof fn law_resume_counts_the_pause(
    s: Storage,
    id: u32,
    payer: Address,
    now: u32,
    stream: StreamView,
)
    requires
        s.stream(DataKey::Stream(id), Trap::StreamNotFound) == Ok::<StreamView, Trap>(stream),
    ensures
        ({
            let step = resume_stream_step(s, id, payer, now);
            let t = step.storage;
            let length: int = if now >= stream.paused_at_ledger {
                now - stream.paused_at_ledger
            } else {
                0
            };
            let wrong = if payer != stream.payer {
                Some(Trap::NotStreamParty)
            } else if stream.closed {
                Some(Trap::StreamClosed)
            } else if !stream.paused {
                Some(Trap::StreamNotPaused)
            } else {
                None
            };
            &&& step.signer == Some(payer)
            &&& wrong matches Some(trap) ==> {
                &&& step.outcome == Err::<(), Failure>(Failure::Trap(trap))
                &&& t == s
                &&& step.actions.len() == 0
            }
            &&& wrong is None ==> {
                &&& step.outcome is Ok
                &&& step.actions.len() == 1
                &&& step.actions[0] == Action::Publish {
                    version: EVENT_SCHEMA_VERSION,
                    event: Event::StreamResume { id, payer, pause_length: length as u32 },
                }
                &&& t.stream(DataKey::Stream(id), Trap::StreamNotFound) is Ok
                &&& ({
                    let after = t.stream(DataKey::Stream(id), Trap::StreamNotFound)->Ok_0;
                    &&& !after.paused
                    &&& after.paused_at_ledger == 0
                    &&& stream.paused_ledgers + length <= u32::MAX ==> after.paused_ledgers
                        == stream.paused_ledgers + length
                    &&& stream.paused_ledgers + length > u32::MAX ==> after.paused_ledgers
                        == u32::MAX
                    &&& after.payer == stream.payer
                    &&& after.token == stream.token
                    &&& after.rate_per_ledger == stream.rate_per_ledger
                    &&& after.deposited == stream.deposited
                    &&& after.start_ledger == stream.start_ledger
                    &&& !after.closed
                    &&& after.recipients == stream.recipients
                    &&& after.odd == stream.odd
                })
                &&& forall|key: DataKey|
                    key != DataKey::Stream(id) ==> #[trigger] same_entry(s, t, key)
            }
        }),
{
    StreamView::lemma_read_coherent(s.value(DataKey::Stream(id)));
    resumed(stream, now).lemma_round_trip();
}

/// What is no stream can be neither claimed from nor changed nor closed.
pub proof fn law_missing_stream_takes_no_calls(
    s: Storage,
    id: u32,
    who: Address,
    amount: i128,
    now: u32,
)
    ensures
        s.stream(DataKey::Stream(id), Trap::StreamNotFound) matches Err(trap) ==> {
            let claim = claim_stream_step(s, id, who, now);
            let top_up = top_up_stream_step(s, id, who, amount, now);
            let pause = pause_stream_step(s, id, who, now);
            let resume = resume_stream_step(s, id, who, now);
            let close = close_stream_step(s, id, who, now);
            &&& claim.outcome == Err::<i128, Failure>(Failure::Trap(trap))
            &&& top_up.outcome == Err::<(), Failure>(Failure::Trap(trap))
            &&& pause.outcome == Err::<(), Failure>(Failure::Trap(trap))
            &&& resume.outcome == Err::<(), Failure>(Failure::Trap(trap))
            &&& close.outcome == Err::<(), Failure>(Failure::Trap(trap))
            &&& claim.actions.len() == 0
            &&& top_up.actions.len() == 0
            &&& pause.actions.len() == 0
            &&& resume.actions.len() == 0
            &&& close.actions.len() == 0
            &&& claimable_at(s, id, who, now) == Err::<i128, Trap>(trap)
            &&& !s.slots.contains_key(DataKey::Stream(id)) ==> trap == Trap::StreamNotFound
        },
{
}

/// What can be claimed from a stream is what the stream that is read gives.
pub proof fn law_claimable_is_read_from_the_stream(
    s: Storage,
    id: u32,
    who: Address,
    now: u32,
    stream: StreamView,
)
    requires
        s.stream(DataKey::Stream(id), Trap::StreamNotFound) == Ok::<StreamView, Trap>(stream),
    ensures
        claimable_at(s, id, who, now) == claimable(stream, who, now),
{
}

} // verus!
