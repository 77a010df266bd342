//! What holds of all streams of the contract, whatever calls were made.
use soroban_sdk::Address;
use vstd::prelude::*;

use crate::accrual::{claimable, claimed_sum, is_first_place, place, streamed, weight_sum};
use crate::laws::accrual::{full_accrual, law_claim_keeps_stream_sound,
    law_claimable_unless_out_of_range, law_claimable_within_remaining_deposit,
    law_claimed_never_exceeds_deposited, law_claims_are_independent,
    law_pausing_keeps_stream_sound, law_second_claim_pays_nothing,
    law_top_up_does_not_pay_at_once, law_top_up_keeps_stream_sound,
    lemma_accrual, lemma_full_accrual, lemma_share_of, lemma_sound_weights, lemma_weight_in_sum,
    sound_share, sound_stream, timely};
use crate::laws::calls::{law_calls_keep_to_their_records, same_family, unchanged, Call, Family,
    StreamCall};
use crate::laws::claims::{earned, law_changes_pay_nobody_ahead, law_close_settles_each_to_its_part,
    law_time_keeps_stream_earned, part_at, resting};
use crate::laws::closing::{law_close_unless_out_of_range, law_close_pays_out_the_deposit};
use crate::outcome::{Failure, Trap};
use crate::records::StreamView;
use crate::sdk::{address_items, number_items, Datum};
use crate::storage::Storage;
use crate::streams::{claim_stream_step, claimable_at, claimed_by, close_stream_step, closing,
    fresh_stream, open_stream_step, pause_stream_step, refusal, resume_stream_step, resumed,
    suspended, top_up_stream_step, topped_up};
use crate::types::{DataKey, StreamRecipient, MIN_STREAM_DURATION_LEDGERS};

verus! {

/// The number of streams.
pub open spec fn stream_count(s: Storage) -> u32 {
    s.number_or_zero(DataKey::StreamCount)->Ok_0
}

/// A stream.
pub open spec fn stream_at(s: Storage, id: u32) -> StreamView {
    s.stream(DataKey::Stream(id), Trap::StreamNotFound)->Ok_0
}

/// There is a stream with this id, and it is sound.
pub open spec fn has_sound_stream(s: Storage, id: u32) -> bool {
    &&& s.stream(DataKey::Stream(id), Trap::StreamNotFound) is Ok
    &&& sound_stream(stream_at(s, id))
}

/// The streams are those below the count, and every one of them is sound.
pub open spec fn streams_sound(s: Storage) -> bool {
    &&& s.number_or_zero(DataKey::StreamCount) is Ok
    &&& forall|id: u32| #[trigger]
        s.has(DataKey::Stream(id)) <==> id < stream_count(s)
    &&& forall|id: u32| id < stream_count(s) ==> #[trigger] has_sound_stream(s, id)
}

/// The pauses of every stream fit between its start and now.
pub open spec fn streams_timely(s: Storage, now: u32) -> bool {
    forall|id: u32| id < stream_count(s) ==> timely(#[trigger] stream_at(s, id), now)
}

/// No stream has paid a share more than its part of what has accrued up to ledger
/// `now`.
pub open spec fn streams_earned(s: Storage, now: u32) -> bool {
    forall|id: u32| id < stream_count(s) ==> earned(#[trigger] stream_at(s, id), now)
}

/// No stream that is not paused stores a ledger at which a pause began.
pub open spec fn streams_resting(s: Storage) -> bool {
    forall|id: u32| id < stream_count(s) ==> resting(#[trigger] stream_at(s, id))
}

/// Reading a stream back after it was written.
pub proof fn lemma_stream_written(s: Storage, id: u32, stream: StreamView)
    requires
        streams_sound(s),
        id < stream_count(s),
        stream.odd is None,
    ensures
        ({
            let after = s.put(DataKey::Stream(id), stream.encoded());
            &&& stream_count(after) == stream_count(s)
            &&& after.number_or_zero(DataKey::StreamCount) is Ok
            &&& after.stream(DataKey::Stream(id), Trap::StreamNotFound) == Ok::<StreamView, Trap>(
                stream,
            )
            &&& forall|other: u32|
                other != id ==> #[trigger] stream_at(after, other) == stream_at(s, other)
            &&& sound_stream(stream) ==> streams_sound(after)
        }),
{
    let after = s.put(DataKey::Stream(id), stream.encoded());
    stream.lemma_round_trip();
    assert(s.has(DataKey::Stream(id)));
    assert forall|other: u32| #[trigger]
        after.has(DataKey::Stream(other)) <==> other < stream_count(after) by {
        assert(s.has(DataKey::Stream(other)) <==> other < stream_count(s));
    }
    assert forall|other: u32| other != id implies #[trigger] stream_at(after, other) == stream_at(
        s,
        other,
    ) by {
        assert(after.has(DataKey::Stream(other)) == s.has(DataKey::Stream(other)));
        assert(after.value(DataKey::Stream(other)) == s.value(DataKey::Stream(other)));
    }
    if sound_stream(stream) {
        assert forall|other: u32| other < stream_count(after) implies #[trigger] has_sound_stream(
            after,
            other,
        ) by {
            if other != id {
                assert(has_sound_stream(s, other));
                assert(stream_at(after, other) == stream_at(s, other));
            }
        }
    }
}

/// Reading the streams back after one was added.
pub proof fn lemma_stream_added(s: Storage, stream: StreamView)
    requires
        streams_sound(s),
        stream_count(s) < u32::MAX,
        stream.odd is None,
    ensures
        ({
            let id = stream_count(s);
            let after = s.put(DataKey::Stream(id), stream.encoded()).put(
                DataKey::StreamCount,
                Datum::Number((id + 1) as u32),
            );
            &&& stream_count(after) == id + 1
            &&& after.number_or_zero(DataKey::StreamCount) is Ok
            &&& after.stream(DataKey::Stream(id), Trap::StreamNotFound) == Ok::<StreamView, Trap>(
                stream,
            )
            &&& forall|other: u32|
                other != id ==> #[trigger] stream_at(after, other) == stream_at(s, other)
            &&& sound_stream(stream) ==> streams_sound(after)
        }),
{
    let id = stream_count(s);
    let after = s.put(DataKey::Stream(id), stream.encoded()).put(
        DataKey::StreamCount,
        Datum::Number((id + 1) as u32),
    );
    stream.lemma_round_trip();
    assert forall|other: u32| #[trigger]
        after.has(DataKey::Stream(other)) <==> other < stream_count(after) by {
        assert(s.has(DataKey::Stream(other)) <==> other < stream_count(s));
    }
    assert forall|other: u32| other != id implies #[trigger] stream_at(after, other) == stream_at(
        s,
        other,
    ) by {
        assert(after.has(DataKey::Stream(other)) == s.has(DataKey::Stream(other)));
        assert(after.value(DataKey::Stream(other)) == s.value(DataKey::Stream(other)));
    }
    if sound_stream(stream) {
        assert forall|other: u32| other < stream_count(after) implies #[trigger] has_sound_stream(
            after,
            other,
        ) by {
            if other != id {
                assert(has_sound_stream(s, other));
                assert(stream_at(after, other) == stream_at(s, other));
            }
        }
    }
}

/// A stream that is opened is sound.
pub proof fn law_opened_stream_is_sound(
    token: Address,
    payer: Address,
    recipients: Seq<Address>,
    weights: Seq<u32>,
    rate_per_ledger: i128,
    deposit: i128,
    now: u32,
)
    requires
        refusal(recipients, weights, rate_per_ledger, deposit) is None,
    ensures
        ({
            let stream = fresh_stream(
                token,
                payer,
                recipients,
                weights,
                rate_per_ledger,
                deposit,
                now,
            );
            &&& sound_stream(stream)
            &&& timely(stream, now)
            &&& claimed_sum(stream.recipients) == 0
        }),
{
    let stream = fresh_stream(token, payer, recipients, weights, rate_per_ledger, deposit, now);
    let shares = stream.recipients;
    lemma_full_accrual(stream);
    assert forall|i: int| 0 <= i < shares.len() implies sound_share(
        #[trigger] shares[i],
        full_accrual(stream),
        weight_sum(shares),
    ) by {
        assert(weights.contains(weights[i]));
        lemma_weight_in_sum(shares, i);
        lemma_share_of(0, full_accrual(stream), shares[i].weight, weight_sum(shares));
    }
    lemma_nothing_claimed(shares);
}

proof fn lemma_nothing_claimed(shares: Seq<StreamRecipient>)
    requires
        forall|i: int| 0 <= i < shares.len() ==> (#[trigger] shares[i]).claimed == 0,
    ensures
        claimed_sum(shares) == 0,
    decreases shares.len(),
{
    if shares.len() > 0 {
        assert forall|i: int| 0 <= i < shares.drop_last().len() implies (
        #[trigger] shares.drop_last()[i]).claimed == 0 by {
            assert(shares[i].claimed == 0);
        }
        lemma_nothing_claimed(shares.drop_last());
        assert(shares[shares.len() - 1].claimed == 0);
    }
}

/// The stream that a call other than opening one leaves behind.
pub open spec fn changed_stream(s: Storage, call: StreamCall, id: u32, now: u32) -> StreamView {
    let stream = stream_at(s, id);
    match call {
        StreamCall::Claim { recipient, .. } => claimed_by(
            stream,
            place(stream.recipients, recipient)->0,
            claimable(stream, recipient, now)->Ok_0,
        ),
        StreamCall::TopUp { amount, .. } => topped_up(
            stream,
            (stream.deposited + amount) as i128,
            now,
        ),
        StreamCall::Pause { .. } => suspended(stream, now),
        StreamCall::Resume { .. } => resumed(stream, now),
        StreamCall::Close { .. } => closing(stream, now)->Ok_0.stream,
        StreamCall::Open { .. } => stream,
    }
}

/// The stream that a call is about: the next one, if it opens a stream.
pub open spec fn subject(s: Storage, call: StreamCall) -> u32 {
    match call {
        StreamCall::Open { .. } => stream_count(s),
        StreamCall::Claim { id, .. }
        | StreamCall::TopUp { id, .. }
        | StreamCall::Pause { id, .. }
        | StreamCall::Resume { id, .. }
        | StreamCall::Close { id, .. } => id,
    }
}

/// A successful call writes the stream that it leaves behind, which is sound;
/// a claim of nothing writes nothing.
pub proof fn lemma_changed_stream(s: Storage, call: StreamCall, id: u32, now: u32)
    requires
        streams_sound(s),
        !(call is Open),
        id == subject(s, call),
        call.effect(s, now).failure is None,
    ensures
        id < stream_count(s),
        !stream_at(s, id).closed,
        sound_stream(changed_stream(s, call, id, now)),
        timely(stream_at(s, id), now) ==> timely(changed_stream(s, call, id, now), now),
        call.effect(s, now).storage == s || call.effect(s, now).storage == s.put(
            DataKey::Stream(id),
            changed_stream(s, call, id, now).encoded(),
        ),
        call.effect(s, now).storage == s ==> changed_stream(s, call, id, now) =~= stream_at(s, id),
{
    reveal(StreamCall::effect);
    assert(s.has(DataKey::Stream(id)));
    let stream = stream_at(s, id);
    assert(has_sound_stream(s, id));
    changed_stream(s, call, id, now).lemma_round_trip();
    match call {
        StreamCall::Claim { recipient, .. } => {
            law_claim_keeps_stream_sound(stream, recipient, now);
            let index = place(stream.recipients, recipient)->0;
            let amount = claimable(stream, recipient, now)->Ok_0;
            if amount == 0 {
                assert(claimed_by(stream, index, 0).recipients =~= stream.recipients);
            }
        },
        StreamCall::TopUp { amount, .. } => {
            law_top_up_keeps_stream_sound(stream, (stream.deposited + amount) as i128, now);
        },
        StreamCall::Pause { .. } | StreamCall::Resume { .. } => {
            law_pausing_keeps_stream_sound(stream, now);
        },
        StreamCall::Close { .. } => {
            law_close_pays_out_the_deposit(stream, now);
        },
        StreamCall::Open { .. } => {},
    }
}

/// The stream that opening one leaves behind.
pub open spec fn opened_stream(call: StreamCall, now: u32) -> StreamView {
    fresh_stream(
        call->Open_token,
        call->Open_payer,
        address_items(call->Open_recipients)->0,
        number_items(call->Open_weights)->0,
        call->Open_rate_per_ledger,
        call->Open_deposit,
        now,
    )
}

/// A successful call that opens a stream adds it to the storage, under the
/// next id.
pub proof fn lemma_opened_stream(s: Storage, call: StreamCall, now: u32)
    requires
        call is Open,
        call.effect(s, now).failure is None,
        streams_sound(s),
    ensures
        stream_count(s) < u32::MAX,
        call.effect(s, now).storage == s.put(
            DataKey::Stream(stream_count(s)),
            opened_stream(call, now).encoded(),
        ).put(DataKey::StreamCount, Datum::Number((stream_count(s) + 1) as u32)),
        sound_stream(opened_stream(call, now)),
        timely(opened_stream(call, now), now),
        claimed_sum(opened_stream(call, now).recipients) == 0,
{
    reveal(StreamCall::effect);
    if let StreamCall::Open { token, payer, recipients, weights, rate_per_ledger, deposit } = call {
        law_opened_stream_is_sound(
            token,
            payer,
            address_items(recipients)->0,
            number_items(weights)->0,
            rate_per_ledger,
            deposit,
            now,
        );
    }
}

proof fn lemma_stream_call(s: Storage, call: StreamCall, now: u32)
    requires
        streams_sound(s),
    ensures
        streams_sound(call.effect(s, now).storage),
        streams_timely(s, now) ==> streams_timely(call.effect(s, now).storage, now),
{
    let after = call.effect(s, now).storage;
    if call.effect(s, now).failure is Some {
        reveal(StreamCall::effect);
    } else if call is Open {
        let stream = opened_stream(call, now);
        lemma_opened_stream(s, call, now);
        lemma_stream_added(s, stream);
        if streams_timely(s, now) {
            assert forall|id: u32| id < stream_count(after) implies timely(
                #[trigger] stream_at(after, id),
                now,
            ) by {
                if id < stream_count(s) {
                    assert(timely(stream_at(s, id), now));
                }
            }
        }
    } else {
        let id = subject(s, call);
        lemma_changed_stream(s, call, id, now);
        lemma_stream_written(s, id, changed_stream(s, call, id, now));
        if streams_timely(s, now) {
            assert(timely(stream_at(s, id), now));
            assert forall|other: u32| other < stream_count(after) implies timely(
                #[trigger] stream_at(after, other),
                now,
            ) by {
                assert(timely(stream_at(s, other), now));
            }
        }
    }
}

/// Storages with the same stream records have the same streams.
pub proof fn lemma_same_streams(s: Storage, t: Storage)
    requires
        same_family(s, t, Family::Streams),
    ensures
        t.number_or_zero(DataKey::StreamCount) == s.number_or_zero(DataKey::StreamCount),
        forall|id: u32|
            #![trigger stream_at(t, id)]
            #![trigger t.stream(DataKey::Stream(id), Trap::StreamNotFound)]
            t.stream(DataKey::Stream(id), Trap::StreamNotFound) == s.stream(
                DataKey::Stream(id),
                Trap::StreamNotFound,
            ) && stream_at(t, id) == stream_at(s, id),
        streams_sound(s) ==> streams_sound(t),
        forall|now: u32| streams_timely(s, now) ==> #[trigger] streams_timely(t, now),
{
    assert(unchanged(s, t, DataKey::StreamCount));
    assert forall|id: u32|
        #![trigger stream_at(t, id)]
        #![trigger t.stream(DataKey::Stream(id), Trap::StreamNotFound)]
        t.stream(DataKey::Stream(id), Trap::StreamNotFound) == s.stream(
            DataKey::Stream(id),
            Trap::StreamNotFound,
        ) && stream_at(t, id) == stream_at(s, id) by {
        assert(unchanged(s, t, DataKey::Stream(id)));
    }
    if streams_sound(s) {
        assert forall|id: u32| #[trigger] t.has(DataKey::Stream(id)) <==> id < stream_count(t) by {
            assert(unchanged(s, t, DataKey::Stream(id)));
            assert(s.has(DataKey::Stream(id)) <==> id < stream_count(s));
        }
        assert forall|id: u32| id < stream_count(t) implies #[trigger] has_sound_stream(t, id) by {
            assert(has_sound_stream(s, id));
            assert(stream_at(t, id) == stream_at(s, id));
        }
    }
    assert forall|now: u32| streams_timely(s, now) implies #[trigger] streams_timely(t, now) by {
        assert forall|id: u32| id < stream_count(t) implies timely(
            #[trigger] stream_at(t, id),
            now,
        ) by {
            assert(timely(stream_at(s, id), now));
        }
    }
}

/// Whatever call is made, all streams stay sound: none of them ever pays out
/// more than was deposited.
pub proof fn law_streams_stay_sound(s: Storage, call: Call, now: u32)
    requires
        streams_sound(s),
    ensures
        streams_sound(call.effect(s, now).storage),
        streams_timely(s, now) ==> streams_timely(call.effect(s, now).storage, now),
        forall|id: u32|
            id < stream_count(call.effect(s, now).storage) ==> 0 <= claimed_sum(
                (#[trigger] stream_at(call.effect(s, now).storage, id)).recipients,
            ) <= stream_at(call.effect(s, now).storage, id).deposited,
{
    let after = call.effect(s, now).storage;
    match call {
        Call::Stream(call) => {
            lemma_stream_call(s, call, now);
        },
        _ => {
            law_calls_keep_to_their_records(s, call, now, Family::Streams);
            lemma_same_streams(s, after);
        },
    }
    assert forall|id: u32| id < stream_count(after) implies 0 <= claimed_sum(
        (#[trigger] stream_at(after, id)).recipients,
    ) <= stream_at(after, id).deposited by {
        assert(has_sound_stream(after, id));
        law_claimed_never_exceeds_deposited(stream_at(after, id));
    }
}

/// The pauses of the streams still fit when time has passed.
pub proof fn law_time_keeps_streams_timely(s: Storage, now: u32, later: u32)
    requires
        streams_timely(s, now),
        now <= later,
    ensures
        streams_timely(s, later),
{
    assert forall|id: u32| id < stream_count(s) implies timely(
        #[trigger] stream_at(s, id),
        later,
    ) by {
        assert(timely(stream_at(s, id), now));
    }
}

/// A stream after a call: it is as it was, or the call succeeded and is about it.
proof fn lemma_stream_after(s: Storage, call: Call, now: u32, id: u32)
    requires
        streams_sound(s),
        id < stream_count(call.effect(s, now).storage),
    ensures
        ({
            let now_at = stream_at(call.effect(s, now).storage, id);
            ||| id < stream_count(s) && now_at == stream_at(s, id)
            ||| {
                &&& call is Stream
                &&& call->Stream_0.effect(s, now).failure is None
                &&& id == subject(s, call->Stream_0)
                &&& call->Stream_0 is Open ==> now_at == opened_stream(call->Stream_0, now)
                &&& !(call->Stream_0 is Open) ==> id < stream_count(s) && now_at == changed_stream(
                    s,
                    call->Stream_0,
                    id,
                    now,
                )
            }
        }),
{
    match call {
        Call::Stream(call) => {
            if call.effect(s, now).failure is Some {
                reveal(StreamCall::effect);
            } else if call is Open {
                lemma_opened_stream(s, call, now);
                lemma_stream_added(s, opened_stream(call, now));
            } else {
                let at = subject(s, call);
                lemma_changed_stream(s, call, at, now);
                lemma_stream_written(s, at, changed_stream(s, call, at, now));
            }
        },
        _ => {
            law_calls_keep_to_their_records(s, call, now, Family::Streams);
            lemma_same_streams(s, call.effect(s, now).storage);
        },
    }
}

/// A successful call pays nobody ahead, and leaves no pause behind on a stream
/// that runs.
proof fn lemma_changed_shares(s: Storage, call: StreamCall, id: u32, now: u32)
    requires
        streams_sound(s),
        !(call is Open),
        id == subject(s, call),
        call.effect(s, now).failure is None,
    ensures
        earned(stream_at(s, id), now) ==> earned(changed_stream(s, call, id, now), now),
        resting(stream_at(s, id)) ==> resting(changed_stream(s, call, id, now)),
{
    reveal(StreamCall::effect);
    assert(s.has(DataKey::Stream(id)));
    let stream = stream_at(s, id);
    assert(has_sound_stream(s, id));
    if earned(stream, now) {
        match call {
            StreamCall::Claim { recipient, .. } => {
                law_changes_pay_nobody_ahead(stream, recipient, stream.deposited, now);
            },
            StreamCall::TopUp { payer, amount, .. } => {
                let deposited = (stream.deposited + amount) as i128;
                law_changes_pay_nobody_ahead(stream, payer, deposited, now);
            },
            StreamCall::Pause { payer, .. } | StreamCall::Resume { payer, .. } => {
                law_changes_pay_nobody_ahead(stream, payer, stream.deposited, now);
            },
            StreamCall::Close { .. } => {
                law_close_settles_each_to_its_part(stream, now);
            },
            StreamCall::Open { .. } => {},
        }
    }
}

/// Whatever call is made, no share is paid more than its part of what has accrued.
pub proof fn law_calls_pay_nobody_ahead(s: Storage, call: Call, now: u32)
    requires
        streams_sound(s),
        streams_earned(s, now),
    ensures
        streams_earned(call.effect(s, now).storage, now),
{
    let after = call.effect(s, now).storage;
    assert forall|id: u32| id < stream_count(after) implies earned(
        #[trigger] stream_at(after, id),
        now,
    ) by {
        lemma_stream_after(s, call, now, id);
        if id < stream_count(s) {
            assert(earned(stream_at(s, id), now));
        }
        if call is Stream && call->Stream_0.effect(s, now).failure is None {
            if call->Stream_0 is Open {
                lemma_opened_stream(s, call->Stream_0, now);
                lemma_opened_shares(call->Stream_0, now);
            } else if id == subject(s, call->Stream_0) {
                lemma_changed_shares(s, call->Stream_0, id, now);
            }
        }
    }
}

/// The shares of a sound stream to which nothing was paid are not paid ahead.
proof fn lemma_opened_shares(call: StreamCall, now: u32)
    requires
        call is Open,
        sound_stream(opened_stream(call, now)),
    ensures
        earned(opened_stream(call, now), now),
{
    let stream = opened_stream(call, now);
    lemma_accrual(stream, now);
    lemma_sound_weights(stream);
    assert forall|i: int| 0 <= i < stream.recipients.len() implies (
    #[trigger] stream.recipients[i]).claimed <= part_at(stream, i, now) by {
        let total = streamed(stream, now)->Ok_0 as int;
        let weight = stream.recipients[i].weight;
        lemma_share_of(total, total, weight, weight_sum(stream.recipients));
    }
}

/// Whatever call is made, a stream that is not paused stores no ledger at which a
/// pause began.
pub proof fn law_calls_leave_no_pause_behind(s: Storage, call: Call, now: u32)
    requires
        streams_sound(s),
        streams_resting(s),
    ensures
        streams_resting(call.effect(s, now).storage),
{
    let after = call.effect(s, now).storage;
    assert forall|id: u32| id < stream_count(after) implies resting(
        #[trigger] stream_at(after, id),
    ) by {
        lemma_stream_after(s, call, now, id);
        if id < stream_count(s) {
            assert(resting(stream_at(s, id)));
        }
        if call is Stream && call->Stream_0.effect(s, now).failure is None {
            if !(call->Stream_0 is Open) && id == subject(s, call->Stream_0) {
                lemma_changed_shares(s, call->Stream_0, id, now);
            }
        }
    }
}

/// Shares that were not paid ahead are not when time has passed.
pub proof fn law_time_keeps_streams_earned(s: Storage, now: u32, later: u32)
    requires
        streams_sound(s),
        streams_earned(s, now),
        now <= later,
    ensures
        streams_earned(s, later),
{
    assert forall|id: u32| id < stream_count(s) implies earned(
        #[trigger] stream_at(s, id),
        later,
    ) by {
        assert(has_sound_stream(s, id));
        assert(earned(stream_at(s, id), now));
        law_time_keeps_stream_earned(stream_at(s, id), now, later);
    }
}

/// What a recipient can claim from any of the streams is never more than what is
/// left of its deposit.
pub proof fn law_claimable_within_every_deposit(s: Storage, id: u32, who: Address, now: u32)
    requires
        streams_sound(s),
        id < stream_count(s),
    ensures
        claimable_at(s, id, who, now) matches Ok(amount) ==> 0 <= amount <= stream_at(
            s,
            id,
        ).deposited - claimed_sum(stream_at(s, id).recipients),
{
    assert(has_sound_stream(s, id));
    let stream = stream_at(s, id);
    if claimable(stream, who, now) is Ok {
        law_claimable_within_remaining_deposit(stream, who, now);
    }
}

/// The terms of a stream never change, and its deposit and what its recipients
/// were paid never shrink.
pub proof fn law_terms_never_change(s: Storage, call: Call, now: u32, id: u32)
    requires
        streams_sound(s),
        id < stream_count(s),
    ensures
        ({
            let before = stream_at(s, id);
            let after = stream_at(call.effect(s, now).storage, id);
            &&& after.payer == before.payer
            &&& after.token == before.token
            &&& after.rate_per_ledger == before.rate_per_ledger
            &&& after.start_ledger == before.start_ledger
            &&& after.recipients.len() == before.recipients.len()
            &&& forall|i: int|
                0 <= i < before.recipients.len() ==> (#[trigger] after.recipients[i]).recipient
                    == before.recipients[i].recipient && after.recipients[i].weight
                    == before.recipients[i].weight && after.recipients[i].claimed
                    >= before.recipients[i].claimed
            &&& after.deposited >= before.deposited
            &&& before.closed ==> after == before
        }),
{
    let after = call.effect(s, now).storage;
    assert(has_sound_stream(s, id));
    match call {
        Call::Stream(call) => {
            if call.effect(s, now).failure is Some {
                reveal(StreamCall::effect);
            } else if call is Open {
                lemma_opened_stream(s, call, now);
                lemma_stream_added(s, opened_stream(call, now));
            } else if subject(s, call) == id {
                lemma_changed_stream(s, call, id, now);
                lemma_stream_written(s, id, changed_stream(s, call, id, now));
                let stream = stream_at(s, id);
                match call {
                    StreamCall::Claim { recipient, .. } => {
                        reveal(StreamCall::effect);
                        law_claim_keeps_stream_sound(stream, recipient, now);
                    },
                    StreamCall::TopUp { .. } => {
                        reveal(StreamCall::effect);
                    },
                    StreamCall::Close { .. } => {
                        reveal(StreamCall::effect);
                        law_close_pays_out_the_deposit(stream, now);
                        let paid = stream_at(after, id).recipients;
                        assert forall|i: int| 0 <= i < stream.recipients.len() implies (
                        #[trigger] paid[i]).recipient == stream.recipients[i].recipient
                            && paid[i].weight == stream.recipients[i].weight && paid[i].claimed
                            >= stream.recipients[i].claimed by {
                            let share = stream.recipients[i];
                            law_claimable_within_remaining_deposit(stream, share.recipient, now);
                        }
                    },
                    _ => {},
                }
            } else {
                let at = subject(s, call);
                lemma_changed_stream(s, call, at, now);
                lemma_stream_written(s, at, changed_stream(s, call, at, now));
            }
        },
        _ => {
            law_calls_keep_to_their_records(s, call, now, Family::Streams);
            lemma_same_streams(s, after);
        },
    }
}

/// A closed stream takes no more calls, and nothing can be claimed from it.
pub proof fn law_closed_stream_takes_no_calls(
    s: Storage,
    call: StreamCall,
    id: u32,
    who: Address,
    now: u32,
)
    requires
        streams_sound(s),
        id < stream_count(s),
        stream_at(s, id).closed,
        subject(s, call) == id,
    ensures
        call.effect(s, now).failure == Some(Failure::Trap(Trap::StreamClosed)) || call.effect(
            s,
            now,
        ).failure == Some(Failure::Trap(Trap::NotStreamParty)),
        claimable_at(s, id, who, now) == Ok::<i128, Trap>(0),
{
    reveal(StreamCall::effect);
    assert(has_sound_stream(s, id));
}

/// A stream is opened exactly if its terms are accepted and there is a number
/// left for it. It then has the next id and the given terms, and no other
/// stream has changed.
pub proof fn law_open_adds_the_stream(
    s: Storage,
    token: Address,
    payer: Address,
    recipients: soroban_sdk::Vec<Address>,
    weights: soroban_sdk::Vec<u32>,
    rate_per_ledger: i128,
    deposit: i128,
    now: u32,
)
    requires
        streams_sound(s),
    ensures
        ({
            let id = stream_count(s);
            let tos = address_items(recipients);
            let parts = number_items(weights);
            let step = open_stream_step(
                s,
                token,
                payer,
                recipients,
                weights,
                rate_per_ledger,
                deposit,
                now,
            );
            &&& step.outcome is Ok <==> {
                &&& tos is Some
                &&& parts is Some
                &&& refusal(tos->0, parts->0, rate_per_ledger, deposit) is None
                &&& id < u32::MAX
            }
            &&& step.outcome is Ok ==> {
                &&& step.outcome->Ok_0 == id
                &&& stream_count(step.storage) == id + 1
                &&& step.storage.stream(DataKey::Stream(id), Trap::StreamNotFound) == Ok::<
                    StreamView,
                    Trap,
                >(fresh_stream(token, payer, tos->0, parts->0, rate_per_ledger, deposit, now))
                &&& forall|other: u32|
                    other < id ==> #[trigger] stream_at(step.storage, other) == stream_at(s, other)
            }
        }),
{
    let call = StreamCall::Open { token, payer, recipients, weights, rate_per_ledger, deposit };
    reveal(StreamCall::effect);
    if call.effect(s, now).failure is None {
        lemma_opened_stream(s, call, now);
        lemma_stream_added(s, opened_stream(call, now));
    }
}

/// A claim pays what could be claimed. After it nothing can be claimed at the
/// same ledger, and what the other recipients can claim is as before.
pub proof fn law_claim_pays_what_is_claimable(
    s: Storage,
    id: u32,
    who: Address,
    other: Address,
    now: u32,
    later: u32,
)
    requires
        streams_sound(s),
        claim_stream_step(s, id, who, now).outcome is Ok,
        other != who,
    ensures
        ({
            let step = claim_stream_step(s, id, who, now);
            &&& claimable_at(s, id, who, now) == Ok::<i128, Trap>(step.outcome->Ok_0)
            &&& claimable_at(step.storage, id, who, now) == Ok::<i128, Trap>(0)
            &&& claimable_at(step.storage, id, other, later) == claimable_at(s, id, other, later)
        }),
{
    let call = StreamCall::Claim { id, recipient: who };
    reveal(StreamCall::effect);
    lemma_changed_stream(s, call, id, now);
    lemma_stream_written(s, id, changed_stream(s, call, id, now));
    let stream = stream_at(s, id);
    assert(has_sound_stream(s, id));
    law_second_claim_pays_nothing(stream, who, now);
    law_claims_are_independent(stream, who, other, now, later);
}

/// Adding to the deposit of a stream changes for nobody what can be claimed at the
/// same ledger, whether or not the stream was still funded.
pub proof fn law_top_up_changes_no_claim(
    s: Storage,
    id: u32,
    payer: Address,
    amount: i128,
    who: Address,
    now: u32,
)
    requires
        streams_sound(s),
        top_up_stream_step(s, id, payer, amount, now).outcome is Ok,
    ensures
        ({
            let after = top_up_stream_step(s, id, payer, amount, now).storage;
            &&& claimable_at(after, id, who, now) == claimable_at(s, id, who, now)
            &&& stream_at(after, id).deposited == stream_at(s, id).deposited + amount
        }),
{
    let call = StreamCall::TopUp { id, payer, amount };
    reveal(StreamCall::effect);
    lemma_changed_stream(s, call, id, now);
    lemma_stream_written(s, id, changed_stream(s, call, id, now));
    let stream = stream_at(s, id);
    assert(has_sound_stream(s, id));
    law_top_up_does_not_pay_at_once(stream, (stream.deposited + amount) as i128, now, who);
}

/// A claim works exactly for the recipients of an open stream, unless what has
/// accrued times the recipient's weight leaves the range of amounts.
pub proof fn law_claim_works(s: Storage, id: u32, who: Address, now: u32)
    requires
        streams_sound(s),
    ensures
        claim_stream_step(s, id, who, now).outcome is Ok <==> {
            let stream = stream_at(s, id);
            let index = place(stream.recipients, who);
            &&& id < stream_count(s)
            &&& index is Some
            &&& !stream.closed
            &&& streamed(stream, now)->Ok_0 * stream.recipients[index->0].weight <= i128::MAX
        },
{
    assert(s.has(DataKey::Stream(id)) <==> id < stream_count(s));
    if id < stream_count(s) {
        assert(has_sound_stream(s, id));
        law_claimable_unless_out_of_range(stream_at(s, id), who, now);
    }
}

/// Closing works exactly for the payer of an open stream, unless what has
/// accrued times a weight leaves the range of amounts.
pub proof fn law_close_works(s: Storage, id: u32, who: Address, now: u32)
    requires
        streams_sound(s),
    ensures
        close_stream_step(s, id, who, now).outcome is Ok <==> {
            let stream = stream_at(s, id);
            &&& id < stream_count(s)
            &&& stream.payer == who
            &&& !stream.closed
            &&& forall|i: int|
                0 <= i < stream.recipients.len() ==> streamed(stream, now)->Ok_0 * (
                #[trigger] stream.recipients[i]).weight <= i128::MAX
        },
{
    assert(s.has(DataKey::Stream(id)) <==> id < stream_count(s));
    if id < stream_count(s) {
        assert(has_sound_stream(s, id));
        if !stream_at(s, id).closed {
            law_close_unless_out_of_range(stream_at(s, id), now);
        }
    }
}

/// A stream that is opened accrues its full rate for at least the smallest
/// number of ledgers that a stream must be funded for.
pub proof fn law_opened_stream_runs_for_the_minimum(
    token: Address,
    payer: Address,
    recipients: Seq<Address>,
    weights: Seq<u32>,
    rate_per_ledger: i128,
    deposit: i128,
    start: u32,
    ledgers: u32,
)
    requires
        refusal(recipients, weights, rate_per_ledger, deposit) is None,
        ledgers <= MIN_STREAM_DURATION_LEDGERS,
        start + ledgers <= u32::MAX,
    ensures
        streamed(
            fresh_stream(token, payer, recipients, weights, rate_per_ledger, deposit, start),
            (start + ledgers) as u32,
        ) == Ok::<i128, Trap>((rate_per_ledger * ledgers) as i128),
{
    let stream = fresh_stream(token, payer, recipients, weights, rate_per_ledger, deposit, start);
    lemma_accrual(stream, (start + ledgers) as u32);
}

/// Pausing, resuming and adding to the deposit work without the list of
/// recipients: whatever a stored stream has in it, they leave it as it is, and
/// the stream is read back as they change it.
pub proof fn law_list_is_kept_unread(s: Storage, id: u32, payer: Address, amount: i128, now: u32)
    requires
        s.stream(DataKey::Stream(id), Trap::StreamNotFound) is Ok,
    ensures
        ({
            let stream = stream_at(s, id);
            let deposited = stream.deposited + amount;
            let allowed = stream.payer == payer && !stream.closed;
            let pause = pause_stream_step(s, id, payer, now);
            let resume = resume_stream_step(s, id, payer, now);
            let top_up = top_up_stream_step(s, id, payer, amount, now);
            let more = topped_up(stream, deposited as i128, now);
            &&& pause.outcome is Ok <==> allowed && !stream.paused
            &&& pause.outcome is Ok ==> reads(pause.storage, id, suspended(stream, now))
            &&& resume.outcome is Ok <==> allowed && stream.paused
            &&& resume.outcome is Ok ==> reads(resume.storage, id, resumed(stream, now))
            &&& top_up.outcome is Ok <==> allowed && amount > 0 && deposited <= i128::MAX
            &&& top_up.outcome is Ok ==> reads(top_up.storage, id, more)
            &&& suspended(stream, now).items() == stream.items()
            &&& resumed(stream, now).items() == stream.items()
            &&& more.items() == stream.items()
        }),
{
    let stream = stream_at(s, id);
    StreamView::lemma_read_coherent(s.value(DataKey::Stream(id)));
    suspended(stream, now).lemma_round_trip();
    resumed(stream, now).lemma_round_trip();
    topped_up(stream, (stream.deposited + amount) as i128, now).lemma_round_trip();
}

/// The stream with this id is read as `stream`.
pub open spec fn reads(s: Storage, id: u32, stream: StreamView) -> bool {
    s.stream(DataKey::Stream(id), Trap::StreamNotFound) == Ok::<StreamView, Trap>(stream)
}

/// Nothing but a call that the payer or a recipient of a stream signs changes
/// the stream.
pub proof fn law_only_parties_change_a_stream(s: Storage, call: Call, now: u32, id: u32)
    requires
        streams_sound(s),
        id < stream_count(s),
        stream_at(call.effect(s, now).storage, id) != stream_at(s, id),
    ensures
        ({
            let stream = stream_at(s, id);
            let signer = call.effect(s, now).signer;
            ||| signer == Some(stream.payer)
            ||| exists|i: int|
                0 <= i < stream.recipients.len() && signer == Some(
                    (#[trigger] stream.recipients[i]).recipient,
                )
        }),
{
    match call {
        Call::Stream(call) => {
            if call.effect(s, now).failure is Some {
                reveal(StreamCall::effect);
            } else if call is Open {
                lemma_opened_stream(s, call, now);
                lemma_stream_added(s, opened_stream(call, now));
            } else {
                let at = subject(s, call);
                lemma_changed_stream(s, call, at, now);
                lemma_stream_written(s, at, changed_stream(s, call, at, now));
                reveal(StreamCall::effect);
                if let StreamCall::Claim { recipient, .. } = call {
                    let stream = stream_at(s, at);
                    let index = place(stream.recipients, recipient)->0;
                    assert(is_first_place(stream.recipients, recipient, index));
                }
            }
        },
        _ => {
            law_calls_keep_to_their_records(s, call, now, Family::Streams);
            lemma_same_streams(s, call.effect(s, now).storage);
        },
    }
}

} // verus!
