//! What holds of the transfers and events that calls ask for.
use soroban_sdk::Address;
use vstd::prelude::*;

use crate::accrual::streamed;
use crate::laws::accrual::law_claimable_within_remaining_deposit;
use crate::laws::calls::{AdminCall, Call, EscrowCall, PaymentCall, Read, StreamCall};
use crate::laws::closing::law_close_pays_out_the_deposit;
use crate::laws::escrows::{escrows_sound, has_sound_escrow};
use crate::laws::streams::{has_sound_stream, lemma_changed_stream, stream_at, streams_sound,
    subject};
use crate::outcome::{Action, Party};
use crate::records::StreamView;
use crate::storage::Storage;
use crate::streams::{closing, resumed, settled};
use crate::tips::batch;
use crate::types::{DataKey, EVENT_SCHEMA_VERSION};

verus! {

/// Every event among the actions carries the current version, and its lists
/// are made of items of their types.
pub open spec fn events_well_formed(actions: Seq<Action>) -> bool {
    forall|i: int|
        0 <= i < actions.len() ==> match #[trigger] actions[i] {
            Action::Publish { version, event } => version == EVENT_SCHEMA_VERSION
                && event.well_typed(),
            Action::Transfer { .. } => true,
        }
}

/// Every transfer among the actions is of a positive amount, and what leaves
/// an account leaves that of the signer.
pub open spec fn transfers_signed(actions: Seq<Action>, signer: Option<Address>) -> bool {
    forall|i: int|
        0 <= i < actions.len() ==> match #[trigger] actions[i] {
            Action::Transfer { from, amount, .. } => {
                &&& 0 < amount
                &&& from matches Party::Account(owner) ==> signer == Some(owner)
            },
            Action::Publish { .. } => true,
        }
}

proof fn lemma_batch_transfers(
    s: Storage,
    token: Address,
    from: Address,
    recipients: Seq<Address>,
    amounts: Seq<i128>,
    now: u32,
    n: nat,
)
    ensures
        events_well_formed(batch(s, token, from, recipients, amounts, now, n).actions),
        transfers_signed(
            batch(s, token, from, recipients, amounts, now, n).actions,
            Some(from),
        ),
    decreases n,
{
    if n > 0 {
        lemma_batch_transfers(s, token, from, recipients, amounts, now, (n - 1) as nat);
    }
}

/// A settlement asks for transfers alone.
proof fn lemma_settled_transfers(stream: StreamView, total: i128, n: nat)
    requires
        settled(stream, total, n) is Ok,
    ensures
        events_well_formed(settled(stream, total, n)->Ok_0.transfers),
    decreases n,
{
    if n > 0 {
        lemma_settled_transfers(stream, total, (n - 1) as nat);
    }
}

/// Every event that a call publishes carries the current version and is well
/// formed, whatever the storage holds.
#[verifier::spinoff_prover]
pub proof fn law_events_are_well_formed(s: Storage, call: Call, now: u32)
    ensures
        events_well_formed(call.effect(s, now).actions),
{
    match call {
        Call::Admin(call) => {
            reveal(AdminCall::effect);
        },
        Call::Payment(call) => {
            reveal(PaymentCall::effect);
            if let PaymentCall::BatchSend { token, from, recipients, amounts } = call {
                if let (Some(recipients), Some(amounts)) = (recipients, amounts) {
                    lemma_batch_transfers(
                        s,
                        token,
                        from,
                        recipients,
                        amounts,
                        now,
                        recipients.len(),
                    );
                }
            }
        },
        Call::Escrow(call) => {
            reveal(EscrowCall::effect);
        },
        Call::Stream(call) => {
            reveal(StreamCall::effect);
            if let StreamCall::Close { id, .. } = call {
                if call.effect(s, now).failure is None {
                    let stream = stream_at(s, id);
                    let live = if stream.paused {
                        resumed(stream, now)
                    } else {
                        stream
                    };
                    let total = streamed(live, now)->Ok_0;
                    lemma_settled_transfers(live, total, live.recipients.len());
                }
            }
        },
        Call::Read(read) => {
            reveal(Read::effect);
        },
    }
}

proof fn lemma_stream_transfers(s: Storage, call: StreamCall, now: u32)
    requires
        streams_sound(s),
    ensures
        transfers_signed(call.effect(s, now).actions, call.effect(s, now).signer),
{
    let effect = call.effect(s, now);
    if call is Open || effect.failure is Some {
        reveal(StreamCall::effect);
    } else {
        let id = subject(s, call);
        lemma_changed_stream(s, call, id, now);
        assert(has_sound_stream(s, id));
        let stream = stream_at(s, id);
        match call {
            StreamCall::Claim { recipient, .. } => {
                reveal(StreamCall::effect);
                law_claimable_within_remaining_deposit(stream, recipient, now);
            },
            StreamCall::Close { .. } => {
                reveal(StreamCall::effect);
                law_close_pays_out_the_deposit(stream, now);
                let transfers = closing(stream, now)->Ok_0.transfers;
                assert(effect.actions =~= transfers.push(effect.actions.last()));
                assert forall|i: int| 0 <= i < transfers.len() implies (
                #[trigger] effect.actions[i]) is Transfer && effect.actions[i]->from is Contract
                    && effect.actions[i]->Transfer_amount > 0 by {
                    assert(effect.actions[i] == transfers[i]);
                }
            },
            _ => {
                reveal(StreamCall::effect);
            },
        }
    }
}

/// Every transfer that a call asks for is of a positive amount, and what leaves
/// an account leaves that of the one who signs the call.
pub proof fn law_transfers_are_signed(s: Storage, call: Call, now: u32)
    requires
        escrows_sound(s),
        streams_sound(s),
    ensures
        transfers_signed(call.effect(s, now).actions, call.effect(s, now).signer),
{
    match call {
        Call::Admin(call) => {
            reveal(AdminCall::effect);
        },
        Call::Payment(call) => {
            reveal(PaymentCall::effect);
            if let PaymentCall::BatchSend { token, from, recipients, amounts } = call {
                if let (Some(recipients), Some(amounts)) = (recipients, amounts) {
                    lemma_batch_transfers(
                        s,
                        token,
                        from,
                        recipients,
                        amounts,
                        now,
                        recipients.len(),
                    );
                }
            }
        },
        Call::Escrow(call) => {
            reveal(EscrowCall::effect);
            match call {
                EscrowCall::Claim { id } | EscrowCall::Cancel { id } => {
                    if s.has(DataKey::Escrow(id)) {
                        assert(has_sound_escrow(s, id));
                    }
                },
                EscrowCall::Create { .. } => {},
            }
        },
        Call::Stream(call) => {
            lemma_stream_transfers(s, call, now);
        },
        Call::Read(read) => {
            reveal(Read::effect);
        },
    }
}

} // verus!
