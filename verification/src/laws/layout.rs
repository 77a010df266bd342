//! How keys, records and events are laid out for the host, and the words that traps
//! end with.
use soroban_sdk::Address;
use vstd::prelude::*;

use crate::outcome::{Event, Trap};
use crate::records::{contents, leading_shares, share_items, LegacyReceiptView, ReceiptView,
    StreamView};
use crate::schema::ESCROW_LISTS_VERSION;
use crate::sdk::{address_items, datum, number_items, string_bytes, symbol_text, Datum};
use crate::types::{ContractError, DataKey, Escrow, EscrowStatus, LegacyReceiptMetadata,
    ReceiptMetadata, Stream, StreamRecipient, TipRecord, EVENT_SCHEMA_VERSION, MAX_ESCROW_PAGE_SIZE,
    MAX_RECEIPT_MEMO_BYTES, MIN_STREAM_DEPOSIT, MIN_STREAM_DURATION_LEDGERS, PERSISTENT_BUMP_AMOUNT,
    PERSISTENT_LIFETIME_THRESHOLD, SCHEMA_VERSION};

verus! {

/// A field of a record is there, and is `value`.
pub open spec fn has_field(fields: Map<Seq<char>, Datum>, name: Seq<char>, value: Datum) -> bool {
    fields.contains_key(name) && fields[name] == value
}

/// A key is laid out as a list of its name, the account it is for and its number.
pub proof fn law_keys_are_laid_out(account: Address, index: u32)
    ensures
        DataKey::Admin.encoded() == Datum::List(
            seq![Datum::Name("Admin"@)],
        ),
        DataKey::TipTotal(account).encoded() == Datum::List(
            seq![Datum::Name("TipTotal"@), Datum::Account(account)],
        ),
        DataKey::TipCount(account).encoded() == Datum::List(
            seq![Datum::Name("TipCount"@), Datum::Account(account)],
        ),
        DataKey::TipRecord(account, index).encoded() == Datum::List(
            seq![Datum::Name("TipRecord"@), Datum::Account(account), Datum::Number(index)],
        ),
        DataKey::ReceiptCount(account).encoded() == Datum::List(
            seq![Datum::Name("ReceiptCount"@), Datum::Account(account)],
        ),
        DataKey::ReceiptRecord(account, index).encoded() == Datum::List(
            seq![Datum::Name("ReceiptRecord"@), Datum::Account(account), Datum::Number(index)],
        ),
        DataKey::EscrowCount.encoded() == Datum::List(
            seq![Datum::Name("EscrowCount"@)],
        ),
        DataKey::Escrow(index).encoded() == Datum::List(
            seq![Datum::Name("Escrow"@), Datum::Number(index)],
        ),
        DataKey::StreamCount.encoded() == Datum::List(
            seq![Datum::Name("StreamCount"@)],
        ),
        DataKey::Stream(index).encoded() == Datum::List(
            seq![Datum::Name("Stream"@), Datum::Number(index)],
        ),
        DataKey::SchemaVersion.encoded() == Datum::List(
            seq![Datum::Name("SchemaVersion"@)],
        ),
        DataKey::EscrowSenderCount(account).encoded() == Datum::List(
            seq![Datum::Name("EscrowSenderCount"@), Datum::Account(account)],
        ),
        DataKey::EscrowSenderIndex(account, index).encoded() == Datum::List(
            seq![Datum::Name("EscrowSenderIndex"@), Datum::Account(account), Datum::Number(index)],
        ),
        DataKey::EscrowRecipientCount(account).encoded() == Datum::List(
            seq![Datum::Name("EscrowRecipientCount"@), Datum::Account(account)],
        ),
        DataKey::EscrowRecipientIndex(account, index).encoded() == Datum::List(
            seq![
                Datum::Name("EscrowRecipientIndex"@),
                Datum::Account(account),
                Datum::Number(index),
            ],
        ),
        DataKey::ReceiptRecordV2(account, index).encoded() == Datum::List(
            seq![Datum::Name("ReceiptRecordV2"@), Datum::Account(account), Datum::Number(index)],
        ),
{
}

/// Tips are laid out as a map from the names of their fields to what these hold, and
/// read from any map that has them.
pub proof fn law_tips_are_laid_out(tip: TipRecord, fields: Map<Seq<char>, Datum>, value: Datum)
    ensures
        tip.encoded() == Datum::Record(
            Map::<Seq<char>, Datum>::empty()
                .insert("amount"@, Datum::Amount(tip.amount))
                .insert("from"@, Datum::Account(tip.from))
                .insert("ledger"@, Datum::Number(tip.ledger))
                .insert("to"@, Datum::Account(tip.to))
        ),
        TipRecord::decoded(Datum::Record(fields)) == Some(tip) <==> {
            &&& has_field(fields, "amount"@, Datum::Amount(tip.amount))
            &&& has_field(fields, "from"@, Datum::Account(tip.from))
            &&& has_field(fields, "ledger"@, Datum::Number(tip.ledger))
            &&& has_field(fields, "to"@, Datum::Account(tip.to))
        },
        !(value is Record) ==> TipRecord::decoded(value) is None,
        TipRecord::decoded(tip.encoded()) == Some(tip),
{
    reveal(TipRecord::encoded);
    reveal(TipRecord::decoded);
    tip.lemma_round_trip();
}

/// Receipts are laid out as a map from the names of their fields to what these hold, and
/// read from any map that has them.
pub proof fn law_receipts_are_laid_out(
    receipt: ReceiptView,
    fields: Map<Seq<char>, Datum>,
    value: Datum,
)
    ensures
        receipt.encoded() == Datum::Record(
            Map::<Seq<char>, Datum>::empty()
                .insert("amount"@, Datum::Amount(receipt.amount))
                .insert("from"@, Datum::Account(receipt.from))
                .insert("ledger"@, Datum::Number(receipt.ledger))
                .insert("memo"@, Datum::Text(receipt.memo))
                .insert("timestamp"@, Datum::Long(receipt.timestamp))
                .insert("to"@, Datum::Account(receipt.to))
        ),
        ReceiptView::decoded(Datum::Record(fields)) == Some(receipt) <==> {
            &&& has_field(fields, "amount"@, Datum::Amount(receipt.amount))
            &&& has_field(fields, "from"@, Datum::Account(receipt.from))
            &&& has_field(fields, "ledger"@, Datum::Number(receipt.ledger))
            &&& has_field(fields, "memo"@, Datum::Text(receipt.memo))
            &&& has_field(fields, "timestamp"@, Datum::Long(receipt.timestamp))
            &&& has_field(fields, "to"@, Datum::Account(receipt.to))
        },
        !(value is Record) ==> ReceiptView::decoded(value) is None,
        ReceiptView::decoded(receipt.encoded()) == Some(receipt),
{
    reveal(ReceiptView::encoded);
    reveal(ReceiptView::decoded);
    receipt.lemma_round_trip();
}

/// Legacy receipts are laid out as a map from the names of their fields to what these hold, and
/// read from any map that has them.
pub proof fn law_legacy_receipts_are_laid_out(
    receipt: LegacyReceiptView,
    fields: Map<Seq<char>, Datum>,
    value: Datum,
)
    ensures
        receipt.encoded() == Datum::Record(
            Map::<Seq<char>, Datum>::empty()
                .insert("amount"@, Datum::Amount(receipt.amount))
                .insert("from"@, Datum::Account(receipt.from))
                .insert("ledger"@, Datum::Number(receipt.ledger))
                .insert("memo"@, Datum::Name(receipt.memo))
                .insert("timestamp"@, Datum::Long(receipt.timestamp))
                .insert("to"@, Datum::Account(receipt.to))
        ),
        LegacyReceiptView::decoded(Datum::Record(fields)) == Some(receipt) <==> {
            &&& has_field(fields, "amount"@, Datum::Amount(receipt.amount))
            &&& has_field(fields, "from"@, Datum::Account(receipt.from))
            &&& has_field(fields, "ledger"@, Datum::Number(receipt.ledger))
            &&& has_field(fields, "memo"@, Datum::Name(receipt.memo))
            &&& has_field(fields, "timestamp"@, Datum::Long(receipt.timestamp))
            &&& has_field(fields, "to"@, Datum::Account(receipt.to))
        },
        !(value is Record) ==> LegacyReceiptView::decoded(value) is None,
        LegacyReceiptView::decoded(receipt.encoded()) == Some(receipt),
{
    reveal(LegacyReceiptView::encoded);
    reveal(LegacyReceiptView::decoded);
    receipt.lemma_round_trip();
}

/// Escrows are laid out as a map from the names of their fields to what these hold, and
/// read from any map that has them.
pub proof fn law_escrows_are_laid_out(escrow: Escrow, fields: Map<Seq<char>, Datum>, value: Datum)
    ensures
        escrow.encoded() == Datum::Record(
            Map::<Seq<char>, Datum>::empty()
                .insert("amount"@, Datum::Amount(escrow.amount))
                .insert("from"@, Datum::Account(escrow.from))
                .insert("id"@, Datum::Number(escrow.id))
                .insert("release_ledger"@, Datum::Number(escrow.release_ledger))
                .insert("status"@, Datum::List(seq![Datum::Name(escrow.status.tag())]))
                .insert("to"@, Datum::Account(escrow.to))
                .insert("token"@, Datum::Account(escrow.token))
        ),
        Escrow::decoded(Datum::Record(fields)) == Some(escrow) <==> {
            &&& has_field(fields, "amount"@, Datum::Amount(escrow.amount))
            &&& has_field(fields, "from"@, Datum::Account(escrow.from))
            &&& has_field(fields, "id"@, Datum::Number(escrow.id))
            &&& has_field(fields, "release_ledger"@, Datum::Number(escrow.release_ledger))
            &&& fields.contains_key("status"@)
            &&& EscrowStatus::decoded(fields["status"@]) == Some(escrow.status)
            &&& has_field(fields, "to"@, Datum::Account(escrow.to))
            &&& has_field(fields, "token"@, Datum::Account(escrow.token))
        },
        !(value is Record) ==> Escrow::decoded(value) is None,
        Escrow::decoded(escrow.encoded()) == Some(escrow),
{
    reveal(Escrow::encoded);
    reveal(Escrow::decoded);
    escrow.lemma_round_trip();
}

/// Shares are laid out as a map from the names of their fields to what these hold, and
/// read from any map that has them.
pub proof fn law_shares_are_laid_out(
    share: StreamRecipient,
    fields: Map<Seq<char>, Datum>,
    value: Datum,
)
    ensures
        share.encoded() == Datum::Record(
            Map::<Seq<char>, Datum>::empty()
                .insert("claimed"@, Datum::Amount(share.claimed))
                .insert("recipient"@, Datum::Account(share.recipient))
                .insert("weight"@, Datum::Number(share.weight))
        ),
        StreamRecipient::decoded(Datum::Record(fields)) == Some(share) <==> {
            &&& has_field(fields, "claimed"@, Datum::Amount(share.claimed))
            &&& has_field(fields, "recipient"@, Datum::Account(share.recipient))
            &&& has_field(fields, "weight"@, Datum::Number(share.weight))
        },
        !(value is Record) ==> StreamRecipient::decoded(value) is None,
        StreamRecipient::decoded(share.encoded()) == Some(share),
{
    reveal(StreamRecipient::encoded);
    reveal(StreamRecipient::decoded);
    share.lemma_round_trip();
}

/// A status is laid out as a list of its name, and read from that list alone.
pub proof fn law_statuses_are_laid_out(status: EscrowStatus, value: Datum)
    ensures
        EscrowStatus::Pending.encoded() == Datum::List(seq![Datum::Name("Pending"@)]),
        EscrowStatus::Released.encoded() == Datum::List(seq![Datum::Name("Released"@)]),
        EscrowStatus::Cancelled.encoded() == Datum::List(seq![Datum::Name("Cancelled"@)]),
        EscrowStatus::Pending.tag() == "Pending"@,
        EscrowStatus::Released.tag() == "Released"@,
        EscrowStatus::Cancelled.tag() == "Cancelled"@,
        EscrowStatus::decoded(value) == Some(status) <==> value == status.encoded(),
{
    reveal_strlit("Pending");
    reveal_strlit("Released");
    reveal_strlit("Cancelled");
    assert("Pending"@.len() == 7);
    assert("Released"@.len() == 8);
    assert("Cancelled"@.len() == 9);
    if EscrowStatus::decoded(value) == Some(status) {
        assert(value->List_0 =~= seq![Datum::Name(status.tag())]);
    }
}

/// Streams are laid out as a map from the names of their fields to what these hold,
/// with the recipients in a list, and read from any map that has them.
pub proof fn law_streams_are_laid_out(
    stream: StreamView,
    fields: Map<Seq<char>, Datum>,
    value: Datum,
    items: Seq<Datum>,
)
    ensures
        stream.encoded() == Datum::Record(
            Map::<Seq<char>, Datum>::empty()
                .insert("closed"@, Datum::Flag(stream.closed))
                .insert("deposited"@, Datum::Amount(stream.deposited))
                .insert("paused"@, Datum::Flag(stream.paused))
                .insert("paused_at_ledger"@, Datum::Number(stream.paused_at_ledger))
                .insert("paused_ledgers"@, Datum::Number(stream.paused_ledgers))
                .insert("payer"@, Datum::Account(stream.payer))
                .insert("rate_per_ledger"@, Datum::Amount(stream.rate_per_ledger))
                .insert("recipients"@, Datum::List(stream.items()))
                .insert("start_ledger"@, Datum::Number(stream.start_ledger))
                .insert("token"@, Datum::Account(stream.token))
        ),
        stream.odd is None ==> stream.items().len() == stream.recipients.len() && forall|i: int|
            0 <= i < stream.recipients.len() ==> #[trigger] stream.items()[i]
                == stream.recipients[i].encoded(),
        stream.odd is Some ==> stream.items() == stream.odd->0,
        has_field(fields, "recipients"@, Datum::List(items)) && stream.items() == items
            && stream.is_coherent() ==> (StreamView::decoded(Datum::Record(fields)) == Some(stream)
            <==> {
            &&& has_field(fields, "closed"@, Datum::Flag(stream.closed))
            &&& has_field(fields, "deposited"@, Datum::Amount(stream.deposited))
            &&& has_field(fields, "paused"@, Datum::Flag(stream.paused))
            &&& has_field(fields, "paused_at_ledger"@, Datum::Number(stream.paused_at_ledger))
            &&& has_field(fields, "paused_ledgers"@, Datum::Number(stream.paused_ledgers))
            &&& has_field(fields, "payer"@, Datum::Account(stream.payer))
            &&& has_field(fields, "rate_per_ledger"@, Datum::Amount(stream.rate_per_ledger))
            &&& has_field(fields, "start_ledger"@, Datum::Number(stream.start_ledger))
            &&& has_field(fields, "token"@, Datum::Account(stream.token))
        }),
        StreamView::decoded(Datum::Record(fields)) is Some ==> fields.contains_key("recipients"@)
            && fields["recipients"@] is List,
        !(value is Record) ==> StreamView::decoded(value) is None,
        StreamView::decoded(value) matches Some(read) ==> read.is_coherent(),
        stream.odd is None ==> StreamView::decoded(stream.encoded()) == Some(stream),
{
    reveal(StreamView::encoded);
    reveal(StreamView::decoded);
    StreamView::lemma_read_coherent(value);
    if stream.odd is None {
        stream.lemma_round_trip();
    }
    law_leading_shares_are_those_before_the_first_other_item(items);
    lemma_items_of_shares(stream.recipients);
}

/// A list of shares begins with all of them.
proof fn lemma_items_of_shares(shares: Seq<StreamRecipient>)
    ensures
        leading_shares(share_items(shares)) == shares,
    decreases shares.len(),
{
    if shares.len() > 0 {
        lemma_items_of_shares(shares.drop_last());
        assert(share_items(shares).drop_last() =~= share_items(shares.drop_last()));
        shares.last().lemma_round_trip();
    }
}

/// Of a list of recipients the shares up to the first item that is none are read,
/// each as it is laid out.
pub proof fn law_leading_shares_are_those_before_the_first_other_item(items: Seq<Datum>)
    ensures
        ({
            let shares = leading_shares(items);
            &&& shares.len() <= items.len()
            &&& forall|i: int|
                0 <= i < shares.len() ==> StreamRecipient::decoded(items[i]) == Some(
                    #[trigger] shares[i],
                )
            &&& shares.len() < items.len() ==> StreamRecipient::decoded(
                items[shares.len() as int],
            ) is None
        }),
    decreases items.len(),
{
    if items.len() > 0 {
        let rest = items.drop_last();
        law_leading_shares_are_those_before_the_first_other_item(rest);
        let before = leading_shares(rest);
        assert forall|i: int| 0 <= i < before.len() implies StreamRecipient::decoded(items[i])
            == Some(#[trigger] before[i]) by {
            assert(rest[i] == items[i]);
        }
        if before.len() < rest.len() {
            assert(rest[before.len() as int] == items[before.len() as int]);
        }
    }
}

/// An event is published under its name and what it can be found by, and tells what
/// happened in full.
pub proof fn law_events_tell_all(event: Event)
    ensures
        match event {
            Event::Init { admin } => {
                &&& event.name_text() == "init"@
                &&& event.topic_data() == seq![Datum::Name("init"@)]
                &&& event.details() == seq![Datum::Account(admin)]
                &&& event.well_typed()
            },
            Event::Tip { from, to, amount } => {
                &&& event.name_text() == "tip"@
                &&& event.topic_data() == seq![
                    Datum::Name("tip"@),
                    Datum::Account(from),
                    Datum::Account(to),
                ]
                &&& event.details() == seq![Datum::Amount(amount)]
                &&& event.well_typed()
            },
            Event::Receipt { from, index } => {
                &&& event.name_text() == "receipt"@
                &&& event.topic_data() == seq![Datum::Name("receipt"@), Datum::Account(from)]
                &&& event.details() == seq![Datum::Number(index)]
                &&& event.well_typed()
            },
            Event::EscrowCreate { id, from, to, amount, release_ledger } => {
                &&& event.name_text() == "escrow_create"@
                &&& event.topic_data() == seq![Datum::Name("escrow_create"@), Datum::Number(id)]
                &&& event.details() == seq![
                    Datum::Account(from),
                    Datum::Account(to),
                    Datum::Amount(amount),
                    Datum::Number(release_ledger),
                ]
                &&& event.well_typed()
            },
            Event::EscrowClaim { id, to, amount } => {
                &&& event.name_text() == "escrow_claim"@
                &&& event.topic_data() == seq![Datum::Name("escrow_claim"@), Datum::Number(id)]
                &&& event.details() == seq![Datum::Account(to), Datum::Amount(amount)]
                &&& event.well_typed()
            },
            Event::EscrowCancel { id, from, amount } => {
                &&& event.name_text() == "escrow_cancel"@
                &&& event.topic_data() == seq![Datum::Name("escrow_cancel"@), Datum::Number(id)]
                &&& event.details() == seq![Datum::Account(from), Datum::Amount(amount)]
                &&& event.well_typed()
            },
            Event::StreamClaim { id, recipient, amount } => {
                &&& event.name_text() == "stream_claim"@
                &&& event.topic_data() == seq![Datum::Name("stream_claim"@), Datum::Number(id)]
                &&& event.details() == seq![Datum::Account(recipient), Datum::Amount(amount)]
                &&& event.well_typed()
            },
            Event::StreamTopUp { id, payer, amount, deposited } => {
                &&& event.name_text() == "stream_topup"@
                &&& event.topic_data() == seq![Datum::Name("stream_topup"@), Datum::Number(id)]
                &&& event.details() == seq![
                    Datum::Account(payer),
                    Datum::Amount(amount),
                    Datum::Amount(deposited),
                ]
                &&& event.well_typed()
            },
            Event::StreamPause { id, payer, paused_at_ledger } => {
                &&& event.name_text() == "stream_pause"@
                &&& event.topic_data() == seq![Datum::Name("stream_pause"@), Datum::Number(id)]
                &&& event.details() == seq![Datum::Account(payer), Datum::Number(paused_at_ledger)]
                &&& event.well_typed()
            },
            Event::StreamResume { id, payer, pause_length } => {
                &&& event.name_text() == "stream_resume"@
                &&& event.topic_data() == seq![Datum::Name("stream_resume"@), Datum::Number(id)]
                &&& event.details() == seq![Datum::Account(payer), Datum::Number(pause_length)]
                &&& event.well_typed()
            },
            Event::StreamClose { id, owed, refund } => {
                &&& event.name_text() == "stream_close"@
                &&& event.topic_data() == seq![Datum::Name("stream_close"@), Datum::Number(id)]
                &&& event.details() == seq![Datum::Amount(owed), Datum::Amount(refund)]
                &&& event.well_typed()
            },
            Event::Migrate { from_version, to_version } => {
                &&& event.name_text() == "migrate"@
                &&& event.topic_data() == seq![Datum::Name("migrate"@)]
                &&& event.details() == seq![Datum::Number(from_version), Datum::Number(to_version)]
                &&& event.well_typed()
            },
            Event::StreamOpen { id, payer, recipients, weights, rate_per_ledger, deposit } => {
                let tos = address_items(recipients);
                let parts = number_items(weights);
                &&& event.name_text() == "stream_open"@
                &&& event.topic_data() == seq![Datum::Name("stream_open"@), Datum::Number(id)]
                &&& event.well_typed() <==> tos is Some && parts is Some
                &&& event.details().len() == 5
                &&& event.details()[0] == Datum::Account(payer)
                &&& event.details()[1] is List
                &&& event.details()[1]->List_0.len() == tos->0.len()
                &&& forall|i: int|
                    0 <= i < tos->0.len() ==> #[trigger] event.details()[1]->List_0[i]
                        == Datum::Account(tos->0[i])
                &&& event.details()[2] is List
                &&& event.details()[2]->List_0.len() == parts->0.len()
                &&& forall|i: int|
                    0 <= i < parts->0.len() ==> #[trigger] event.details()[2]->List_0[i]
                        == Datum::Number(parts->0[i])
                &&& event.details()[3] == Datum::Amount(rate_per_ledger)
                &&& event.details()[4] == Datum::Amount(deposit)
            },
        },
{
}

/// Every trap ends the invocation with its own words.
pub proof fn law_traps_have_their_words()
    ensures
        Trap::NotInitialized.text() == "Contract not initialized"@,
        Trap::NotAdmin.text() == "Unauthorized"@,
        Trap::TipAmountNotPositive.text() == "Tip amount must be positive"@,
        Trap::TipRecordNotFound.text() == "Tip record not found"@,
        Trap::ReceiptAmountNotPositive.text() == "Receipt amount must be positive"@,
        Trap::ReceiptNotFound.text() == "Receipt not found"@,
        Trap::LegacyReceiptNotFound.text() == "Legacy receipt not found"@,
        Trap::AmountNotPositive.text() == "amount must be positive"@,
        Trap::ReleaseNotInFuture.text() == "release_ledger must be in the future"@,
        Trap::EscrowNotFound.text() == "escrow not found"@,
        Trap::EscrowNotPending.text() == "escrow is not pending"@,
        Trap::EscrowIndexMissing.text() == "escrow index entry missing"@,
        Trap::EscrowMissingInBackfill.text() == "escrow missing during index backfill"@,
        Trap::UnequalArrays.text() == "arrays must have equal length"@,
        Trap::UnequalRecipientsAndWeights.text()
            == "recipients and weights must have equal length"@,
        Trap::NoRecipients.text() == "at least one recipient is required"@,
        Trap::WeightNotPositive.text() == "weight must be positive"@,
        Trap::DuplicateRecipient.text() == "recipients must not contain duplicate addresses"@,
        Trap::RateNotPositive.text() == "rate_per_ledger must be positive"@,
        Trap::DepositNotPositive.text() == "deposit must be positive"@,
        Trap::DepositBelowMinimum.text() == "deposit below minimum"@,
        Trap::DurationBelowMinimum.text() == "stream duration below minimum"@,
        Trap::StreamNotFound.text() == "stream not found"@,
        Trap::NotStreamParty.text() == "unauthorized"@,
        Trap::StreamClosed.text() == "stream is closed"@,
        Trap::StreamAlreadyPaused.text() == "stream already paused"@,
        Trap::StreamNotPaused.text() == "stream is not paused"@,
        Trap::MalformedEntry.text() == "stored value has another type"@,
        Trap::MalformedArgument.text() == "list item has another type"@,
        Trap::AddOverflow.text() == "attempt to add with overflow"@,
        Trap::SubtractOverflow.text() == "attempt to subtract with overflow"@,
        Trap::MultiplyOverflow.text() == "attempt to multiply with overflow"@,
        Trap::DivideByZero.text() == "attempt to divide by zero"@,
        Trap::DivideOverflow.text() == "attempt to divide with overflow"@,
{
}

/// What a record shows is what is in its fields.
pub proof fn law_views_show_every_field(
    stream: Stream,
    receipt: ReceiptMetadata,
    legacy: LegacyReceiptMetadata,
)
    ensures
        stream@.payer == stream.payer,
        stream@.recipients.len() == stream.recipients@.len(),
        forall|i: int|
            0 <= i < stream.recipients@.len() ==> #[trigger] stream@.recipients[i]
                == stream.recipients@[i],
        stream@.rate_per_ledger == stream.rate_per_ledger,
        stream@.deposited == stream.deposited,
        stream@.start_ledger == stream.start_ledger,
        stream@.token == stream.token,
        stream@.paused == stream.paused,
        stream@.paused_at_ledger == stream.paused_at_ledger,
        stream@.paused_ledgers == stream.paused_ledgers,
        stream@.closed == stream.closed,
        stream.stored is None ==> stream@.odd is None,
        stream.stored matches Some(items) ==> stream@.odd is None ==> {
            &&& items@.len() == stream.recipients@.len()
            &&& forall|i: int|
                0 <= i < items@.len() ==> datum(#[trigger] items@[i])
                    == stream.recipients@[i].encoded()
        },
        stream.stored matches Some(items) ==> stream@.odd is Some ==> {
            &&& stream@.odd->0.len() == items@.len()
            &&& forall|i: int|
                0 <= i < items@.len() ==> #[trigger] stream@.odd->0[i] == datum(items@[i])
        },
        receipt@.from == receipt.from,
        receipt@.to == receipt.to,
        receipt@.amount == receipt.amount,
        receipt@.timestamp == receipt.timestamp,
        receipt@.memo == string_bytes(receipt.memo),
        receipt@.ledger == receipt.ledger,
        legacy@.from == legacy.from,
        legacy@.to == legacy.to,
        legacy@.amount == legacy.amount,
        legacy@.timestamp == legacy.timestamp,
        legacy@.memo == symbol_text(legacy.memo),
        legacy@.ledger == legacy.ledger,
{
    if let Some(items) = stream.stored {
        if stream@.odd is None {
            let held = contents(items@);
            assert(held == share_items(stream.recipients@));
            assert(held.len() == items@.len());
            assert forall|i: int| 0 <= i < items@.len() implies datum(#[trigger] items@[i])
                == stream.recipients@[i].encoded() by {
                assert(held[i] == datum(items@[i]));
            }
        }
    }
}

/// The numbers that those who use the contract count on.
pub proof fn law_limits_are_fixed()
    ensures
        PERSISTENT_LIFETIME_THRESHOLD == 100_000,
        PERSISTENT_BUMP_AMOUNT == 500_000,
        SCHEMA_VERSION == 4,
        ESCROW_LISTS_VERSION == 3,
        EVENT_SCHEMA_VERSION == 1,
        MAX_RECEIPT_MEMO_BYTES == 256,
        MIN_STREAM_DEPOSIT == 10_000,
        MIN_STREAM_DURATION_LEDGERS == 60,
        MAX_ESCROW_PAGE_SIZE == 50,
        ContractError::AlreadyInitialized.number() == 1,
        ContractError::SchemaAlreadyCurrent.number() == 2,
        ContractError::SchemaDowngrade.number() == 3,
        ContractError::EscrowClaimTooEarly.number() == 4,
        ContractError::EscrowCancelTooLate.number() == 5,
        ContractError::ReceiptMemoTooLong.number() == 6,
{
}

} // verus!
