//! The contract holds what it owes: every call moves as much in or out of the
//! contract as it changes of what the contract holds for others.
use soroban_sdk::Address;
use vstd::prelude::*;

use crate::accrual::{claimable, claimed_sum};
use crate::laws::accrual::{law_claim_keeps_stream_sound, law_claimed_never_exceeds_deposited};
use crate::laws::calls::{law_calls_keep_to_their_records, lemma_indexed_frame, AdminCall, Call,
    EscrowCall, Family, PaymentCall, Read, StreamCall};
use crate::laws::closing::law_close_pays_out_the_deposit;
use crate::laws::escrows::{escrow_at, escrow_count, escrows_sound, has_sound_escrow,
    law_settling_pays_the_amount, lemma_escrow_added, lemma_same_escrows, with_escrow};
use crate::laws::money::{lemma_net_few, lemma_net_push, net};
use crate::laws::streams::{changed_stream, has_sound_stream, lemma_changed_stream,
    lemma_opened_stream, lemma_same_streams, lemma_stream_added, lemma_stream_written,
    opened_stream, stream_at, stream_count, streams_sound, subject};
use crate::records::StreamView;
use crate::storage::Storage;
use crate::streams::closing;
use crate::tips::batch;
use crate::types::{Escrow, EscrowStatus};

verus! {

/// What an escrow holds of `token`.
pub open spec fn held_by_escrow(escrow: Escrow, token: Address) -> int {
    if escrow.status == EscrowStatus::Pending && escrow.token == token {
        escrow.amount as int
    } else {
        0
    }
}

/// What a stream holds of `token`: what was deposited and not yet paid out.
pub open spec fn held_by_stream(stream: StreamView, token: Address) -> int {
    if !stream.closed && stream.token == token {
        stream.deposited - claimed_sum(stream.recipients)
    } else {
        0
    }
}

/// What the first `n` escrows hold of `token`.
pub open spec fn held_by_escrows(s: Storage, token: Address, n: nat) -> int
    decreases n,
{
    if n == 0 {
        0
    } else {
        held_by_escrows(s, token, (n - 1) as nat) + held_by_escrow(
            escrow_at(s, (n - 1) as u32),
            token,
        )
    }
}

/// What the first `n` streams hold of `token`.
pub open spec fn held_by_streams(s: Storage, token: Address, n: nat) -> int
    decreases n,
{
    if n == 0 {
        0
    } else {
        held_by_streams(s, token, (n - 1) as nat) + held_by_stream(
            stream_at(s, (n - 1) as u32),
            token,
        )
    }
}

/// What the contract holds of `token` for others.
pub open spec fn held(s: Storage, token: Address) -> int {
    held_by_escrows(s, token, escrow_count(s) as nat) + held_by_streams(
        s,
        token,
        stream_count(s) as nat,
    )
}

proof fn lemma_escrows_differ_at(s: Storage, t: Storage, token: Address, id: u32, n: nat)
    requires
        n <= u32::MAX,
        forall|other: u32| other != id ==> #[trigger] escrow_at(t, other) == escrow_at(s, other),
    ensures
        held_by_escrows(t, token, n) - held_by_escrows(s, token, n) == if id < n {
            held_by_escrow(escrow_at(t, id), token) - held_by_escrow(escrow_at(s, id), token)
        } else {
            0
        },
    decreases n,
{
    if n > 0 {
        lemma_escrows_differ_at(s, t, token, id, (n - 1) as nat);
        let last = (n - 1) as u32;
        if last != id {
            assert(escrow_at(t, last) == escrow_at(s, last));
        }
    }
}

proof fn lemma_streams_differ_at(s: Storage, t: Storage, token: Address, id: u32, n: nat)
    requires
        n <= u32::MAX,
        forall|other: u32| other != id ==> #[trigger] stream_at(t, other) == stream_at(s, other),
    ensures
        held_by_streams(t, token, n) - held_by_streams(s, token, n) == if id < n {
            held_by_stream(stream_at(t, id), token) - held_by_stream(stream_at(s, id), token)
        } else {
            0
        },
    decreases n,
{
    if n > 0 {
        lemma_streams_differ_at(s, t, token, id, (n - 1) as nat);
        let last = (n - 1) as u32;
        if last != id {
            assert(stream_at(t, last) == stream_at(s, last));
        }
    }
}

/// Nothing that is held is negative.
proof fn lemma_held_not_negative(s: Storage, token: Address, m: nat, n: nat)
    requires
        escrows_sound(s),
        streams_sound(s),
        m <= escrow_count(s),
        n <= stream_count(s),
    ensures
        0 <= held_by_escrows(s, token, m),
        0 <= held_by_streams(s, token, n),
    decreases m + n,
{
    if m > 0 {
        lemma_held_not_negative(s, token, (m - 1) as nat, n);
        assert(has_sound_escrow(s, (m - 1) as u32));
    }
    if n > 0 {
        lemma_held_not_negative(s, token, m, (n - 1) as nat);
        let id = (n - 1) as u32;
        assert(has_sound_stream(s, id));
        law_claimed_never_exceeds_deposited(stream_at(s, id));
    }
}

proof fn lemma_escrow_call_balances(s: Storage, call: EscrowCall, now: u32, token: Address)
    requires
        escrows_sound(s),
        streams_sound(s),
    ensures
        held(call.effect(s, now).storage, token) - held(s, token) == net(
            call.effect(s, now).actions,
            token,
        ),
{
    let effect = call.effect(s, now);
    let after = effect.storage;
    law_calls_keep_to_their_records(s, Call::Escrow(call), now, Family::Streams);
    lemma_same_streams(s, after);
    lemma_streams_differ_at(s, after, token, u32::MAX, stream_count(s) as nat);
    reveal(EscrowCall::effect);
    if effect.failure is None {
        lemma_net_few(effect.actions[0], effect.actions[1], token);
        assert(effect.actions =~= seq![effect.actions[0], effect.actions[1]]);
        match call {
            EscrowCall::Create { token: locked, from, to, amount, release_ledger } => {
                let id = escrow_count(s);
                let escrow = Escrow {
                    id,
                    from,
                    to,
                    token: locked,
                    amount,
                    release_ledger,
                    status: EscrowStatus::Pending,
                };
                let written = with_escrow(s, escrow);
                lemma_escrow_added(s, escrow);
                lemma_indexed_frame(written, from, to, id, Family::Escrows);
                lemma_same_escrows(written, after);
                assert forall|other: u32| other != id implies #[trigger] escrow_at(after, other)
                    == escrow_at(s, other) by {
                    assert(escrow_at(written, other) == escrow_at(s, other));
                }
                lemma_escrows_differ_at(s, after, token, id, id as nat);
                assert(escrow_at(after, id) == escrow);
            },
            EscrowCall::Claim { id } | EscrowCall::Cancel { id } => {
                law_settling_pays_the_amount(s, id, now);
                lemma_escrows_differ_at(s, after, token, id, escrow_count(s) as nat);
            },
        }
    }
}

proof fn lemma_open_balances(s: Storage, call: StreamCall, now: u32, token: Address)
    requires
        streams_sound(s),
        call is Open,
        call.effect(s, now).failure is None,
    ensures
        ({
            let after = call.effect(s, now).storage;
            held_by_streams(after, token, stream_count(after) as nat) - held_by_streams(
                s,
                token,
                stream_count(s) as nat,
            ) == net(call.effect(s, now).actions, token)
        }),
{
    let effect = call.effect(s, now);
    let after = effect.storage;
    let id = stream_count(s);
    lemma_opened_stream(s, call, now);
    lemma_stream_added(s, opened_stream(call, now));
    lemma_streams_differ_at(s, after, token, id, id as nat);
    reveal(StreamCall::effect);
    lemma_net_few(effect.actions[0], effect.actions[1], token);
    assert(effect.actions =~= seq![effect.actions[0], effect.actions[1]]);
}

proof fn lemma_change_balances(s: Storage, call: StreamCall, now: u32, token: Address)
    requires
        streams_sound(s),
        !(call is Open),
        call.effect(s, now).failure is None,
    ensures
        ({
            let after = call.effect(s, now).storage;
            held_by_streams(after, token, stream_count(after) as nat) - held_by_streams(
                s,
                token,
                stream_count(s) as nat,
            ) == net(call.effect(s, now).actions, token)
        }),
{
    let effect = call.effect(s, now);
    let after = effect.storage;
    let id = subject(s, call);
    lemma_changed_stream(s, call, id, now);
    let stream = stream_at(s, id);
    let changed = changed_stream(s, call, id, now);
    lemma_stream_written(s, id, changed);
    assert(stream_at(after, id) == changed);
    lemma_streams_differ_at(s, after, token, id, stream_count(s) as nat);
    assert(has_sound_stream(s, id));
    reveal(StreamCall::effect);
    match call {
        StreamCall::Claim { recipient, .. } => {
            law_claim_keeps_stream_sound(stream, recipient, now);
            if claimable(stream, recipient, now)->Ok_0 == 0 {
                assert(effect.actions =~= Seq::empty());
            } else {
                lemma_net_few(effect.actions[0], effect.actions[1], token);
                assert(effect.actions =~= seq![effect.actions[0], effect.actions[1]]);
            }
        },
        StreamCall::TopUp { .. } => {
            lemma_net_few(effect.actions[0], effect.actions[1], token);
            assert(effect.actions =~= seq![effect.actions[0], effect.actions[1]]);
        },
        StreamCall::Pause { .. } | StreamCall::Resume { .. } => {
            lemma_net_few(effect.actions[0], effect.actions[0], token);
            assert(effect.actions =~= seq![effect.actions[0]]);
        },
        StreamCall::Close { .. } => {
            law_close_pays_out_the_deposit(stream, now);
            let transfers = closing(stream, now)->Ok_0.transfers;
            lemma_net_push(transfers, effect.actions.last(), token);
            assert(effect.actions =~= transfers.push(effect.actions.last()));
        },
        StreamCall::Open { .. } => {},
    }
}

proof fn lemma_stream_call_balances(s: Storage, call: StreamCall, now: u32, token: Address)
    requires
        escrows_sound(s),
        streams_sound(s),
    ensures
        held(call.effect(s, now).storage, token) - held(s, token) == net(
            call.effect(s, now).actions,
            token,
        ),
{
    let effect = call.effect(s, now);
    let after = effect.storage;
    law_calls_keep_to_their_records(s, Call::Stream(call), now, Family::Escrows);
    lemma_same_escrows(s, after);
    lemma_escrows_differ_at(s, after, token, u32::MAX, escrow_count(s) as nat);
    if effect.failure is Some {
        reveal(StreamCall::effect);
    } else if call is Open {
        lemma_open_balances(s, call, now, token);
    } else {
        lemma_change_balances(s, call, now, token);
    }
}

/// A batch moves nothing in or out of the contract.
proof fn lemma_batch_balances(
    s: Storage,
    token: Address,
    from: Address,
    recipients: Seq<Address>,
    amounts: Seq<i128>,
    now: u32,
    n: nat,
    any_token: Address,
)
    ensures
        net(batch(s, token, from, recipients, amounts, now, n).actions, any_token) == 0,
    decreases n,
{
    if n > 0 {
        let before = batch(s, token, from, recipients, amounts, now, (n - 1) as nat);
        let after = batch(s, token, from, recipients, amounts, now, n);
        lemma_batch_balances(
            s,
            token,
            from,
            recipients,
            amounts,
            now,
            (n - 1) as nat,
            any_token,
        );
        if after.actions != before.actions {
            lemma_net_push(before.actions, after.actions.last(), any_token);
            assert(after.actions =~= before.actions.push(after.actions.last()));
        }
    }
}

/// Other calls move nothing in or out of the contract.
proof fn lemma_other_call_balances(s: Storage, call: Call, now: u32, token: Address)
    requires
        !(call is Escrow),
        !(call is Stream),
    ensures
        net(call.effect(s, now).actions, token) == 0,
{
    let effect = call.effect(s, now);
    match call {
        Call::Payment(call) => {
            reveal(PaymentCall::effect);
            match call {
                PaymentCall::SendTip { .. } => {
                    lemma_net_few(effect.actions[0], effect.actions[1], token);
                    if effect.failure is None {
                        assert(effect.actions =~= seq![effect.actions[0], effect.actions[1]]);
                    }
                },
                PaymentCall::BatchSend { token: moved, from, recipients, amounts } => {
                    if let (Some(recipients), Some(amounts)) = (recipients, amounts) {
                        lemma_batch_balances(
                            s,
                            moved,
                            from,
                            recipients,
                            amounts,
                            now,
                            recipients.len(),
                            token,
                        );
                    }
                },
                PaymentCall::MintReceipt { .. } => {
                    lemma_net_few(effect.actions[0], effect.actions[0], token);
                    if effect.failure is None {
                        assert(effect.actions =~= seq![effect.actions[0]]);
                    }
                },
            }
        },
        Call::Admin(call) => {
            reveal(AdminCall::effect);
            lemma_net_few(effect.actions[0], effect.actions[0], token);
            if effect.actions.len() == 1 {
                assert(effect.actions =~= seq![effect.actions[0]]);
            }
        },
        Call::Read(read) => {
            reveal(Read::effect);
        },
        _ => {},
    }
}

/// Every call changes what the contract holds of a token for others by exactly
/// what its transfers move in or out of the contract.
pub proof fn law_transfers_match_what_is_held(s: Storage, call: Call, now: u32, token: Address)
    requires
        escrows_sound(s),
        streams_sound(s),
    ensures
        held(call.effect(s, now).storage, token) - held(s, token) == net(
            call.effect(s, now).actions,
            token,
        ),
{
    let after = call.effect(s, now).storage;
    match call {
        Call::Escrow(call) => {
            lemma_escrow_call_balances(s, call, now, token);
        },
        Call::Stream(call) => {
            lemma_stream_call_balances(s, call, now, token);
        },
        _ => {
            law_calls_keep_to_their_records(s, call, now, Family::Streams);
            law_calls_keep_to_their_records(s, call, now, Family::Escrows);
            lemma_same_streams(s, after);
            lemma_same_escrows(s, after);
            lemma_streams_differ_at(s, after, token, u32::MAX, stream_count(s) as nat);
            lemma_escrows_differ_at(s, after, token, u32::MAX, escrow_count(s) as nat);
            lemma_other_call_balances(s, call, now, token);
        },
    }
}

/// What the contract holds for others is never negative.
pub proof fn law_held_is_not_negative(s: Storage, token: Address)
    requires
        escrows_sound(s),
        streams_sound(s),
    ensures
        0 <= held(s, token),
{
    lemma_held_not_negative(s, token, escrow_count(s) as nat, stream_count(s) as nat);
}

} // verus!
