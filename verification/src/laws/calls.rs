//! The calls of the contract as steps of one machine: what each of them leaves
//! in the storage, and which records it can change.
use soroban_sdk::Address;
use vstd::prelude::*;

use crate::admin::{initialize_step, transfer_admin_step};
use crate::escrows::{appended, cancel_escrow_step, claim_escrow_step, create_escrow_step, indexed,
    listed, page, page_end, page_start, Role};
use crate::outcome::{Action, Failure, Step, Trap};
use crate::receipts::mint_receipt_step;
use crate::records::ReceiptView;
use crate::sdk::Datum;
use crate::schema::{backfilled, migrate_step};
use crate::storage::Storage;
use crate::streams::{claim_stream_step, close_stream_step, open_stream_step, pause_stream_step,
    resume_stream_step, top_up_stream_step};
use crate::tips::{batch, batch_send_step, send_tip_step};
use crate::types::{DataKey, Escrow, EscrowStatus};

verus! {

/// A call that reads and extends lifetimes.
pub enum Read {
    Admin,
    TipTotal(Address),
    TipCount(Address),
    TipRecord(Address, u32),
    ReceiptCount(Address),
    Receipt(Address, u32),
    LegacyReceipt(Address, u32),
    Escrow(u32),
    EscrowCount(Role, Address),
    EscrowPage(Role, Address, u32, u32),
    Stream(u32),
}

/// A call that is about the contract itself.
pub enum AdminCall {
    Initialize { admin: Address },
    TransferAdmin { current_admin: Address, new_admin: Address },
    Migrate { admin: Address },
}

/// A call that makes payments, or receipts for them.
pub enum PaymentCall {
    SendTip { token: Address, from: Address, to: Address, amount: i128 },
    BatchSend {
        token: Address,
        from: Address,
        recipients: Option<Seq<Address>>,
        amounts: Option<Seq<i128>>,
    },
    MintReceipt { from: Address, to: Address, amount: i128, timestamp: u64, memo: Seq<u8> },
}

/// A call that creates or settles an escrow.
pub enum EscrowCall {
    Create { token: Address, from: Address, to: Address, amount: i128, release_ledger: u32 },
    Claim { id: u32 },
    Cancel { id: u32 },
}

/// A call that opens or changes a stream.
pub enum StreamCall {
    Open {
        token: Address,
        payer: Address,
        recipients: soroban_sdk::Vec<Address>,
        weights: soroban_sdk::Vec<u32>,
        rate_per_ledger: i128,
        deposit: i128,
    },
    Claim { id: u32, recipient: Address },
    TopUp { id: u32, payer: Address, amount: i128 },
    Pause { id: u32, payer: Address },
    Resume { id: u32, payer: Address },
    Close { id: u32, payer: Address },
}

/// A call of the contract.
pub enum Call {
    Admin(AdminCall),
    Payment(PaymentCall),
    Escrow(EscrowCall),
    Stream(StreamCall),
    Read(Read),
}

/// What a call leaves behind once the host is done with it.
pub struct Effect {
    pub storage: Storage,
    pub signer: Option<Address>,
    pub actions: Seq<Action>,
    pub failure: Option<Failure>,
}

/// The effect of a step on storage `s`. The host discards what a failed call
/// has written.
pub open spec fn effect_of<T>(s: Storage, step: Step<T>) -> Effect {
    match step.outcome {
        Ok(_) => Effect {
            storage: step.storage,
            signer: step.signer,
            actions: step.actions,
            failure: None,
        },
        Err(failure) => Effect {
            storage: s,
            signer: step.signer,
            actions: Seq::empty(),
            failure: Some(failure),
        },
    }
}

impl Read {
    /// Why the read fails, if it does.
    pub open spec fn trap(self, s: Storage) -> Option<Trap> {
        match self {
            Read::Admin => s.account(DataKey::Admin, Trap::NotInitialized).err(),
            Read::TipTotal(account) => s.amount_or_zero(DataKey::TipTotal(account)).err(),
            Read::TipCount(account) => s.number_or_zero(DataKey::TipCount(account)).err(),
            Read::TipRecord(account, index) => s.tip(
                DataKey::TipRecord(account, index),
                Trap::TipRecordNotFound,
            ).err(),
            Read::ReceiptCount(account) => s.number_or_zero(DataKey::ReceiptCount(account)).err(),
            Read::Receipt(account, index) => s.receipt(
                DataKey::ReceiptRecordV2(account, index),
                Trap::ReceiptNotFound,
            ).err(),
            Read::LegacyReceipt(account, index) => s.legacy_receipt(
                DataKey::ReceiptRecord(account, index),
                Trap::LegacyReceiptNotFound,
            ).err(),
            Read::Escrow(id) => s.escrow(DataKey::Escrow(id), Trap::EscrowNotFound).err(),
            Read::EscrowCount(role, account) => s.number_or_zero(role.count_key(account)).err(),
            Read::EscrowPage(role, account, offset, limit) => page(
                s,
                role,
                account,
                offset,
                limit,
            ).trap,
            Read::Stream(id) => s.stream(DataKey::Stream(id), Trap::StreamNotFound).err(),
        }
    }

    /// The storage after the read.
    pub open spec fn renewed(self, s: Storage) -> Storage {
        match self {
            Read::Admin => s.renew_present(DataKey::Admin),
            Read::TipTotal(account) => s.renew_present(DataKey::TipTotal(account)),
            Read::TipCount(account) => s.renew_present(DataKey::TipCount(account)),
            Read::TipRecord(account, index) => s.renew_present(DataKey::TipRecord(account, index)),
            Read::ReceiptCount(account) => s.renew_present(DataKey::ReceiptCount(account)),
            Read::Receipt(account, index) => s.renew_present(
                DataKey::ReceiptRecordV2(account, index),
            ),
            Read::LegacyReceipt(account, index) => s.renew_present(
                DataKey::ReceiptRecord(account, index),
            ),
            Read::Escrow(id) => s.renew_present(DataKey::Escrow(id)),
            Read::EscrowCount(role, account) => s.renew_present(role.count_key(account)),
            Read::EscrowPage(role, account, offset, limit) => page(
                s,
                role,
                account,
                offset,
                limit,
            ).storage,
            Read::Stream(id) => s.renew_present(DataKey::Stream(id)),
        }
    }

    /// The effect of the read on storage `s`.
    #[verifier::opaque]
    pub open spec fn effect(self, s: Storage) -> Effect {
        match self.trap(s) {
            Some(trap) => Effect {
                storage: s,
                signer: None,
                actions: Seq::empty(),
                failure: Some(Failure::Trap(trap)),
            },
            None => Effect {
                storage: self.renewed(s),
                signer: None,
                actions: Seq::empty(),
                failure: None,
            },
        }
    }
}

impl AdminCall {
    /// The effect of the call on storage `s`.
    #[verifier::opaque]
    pub open spec fn effect(self, s: Storage) -> Effect {
        match self {
            AdminCall::Initialize { admin } => effect_of(s, initialize_step(s, admin)),
            AdminCall::TransferAdmin { current_admin, new_admin } => effect_of(
                s,
                transfer_admin_step(s, current_admin, new_admin),
            ),
            AdminCall::Migrate { admin } => effect_of(s, migrate_step(s, admin)),
        }
    }
}

impl PaymentCall {
    /// The effect of the call on storage `s`, at ledger `now`.
    #[verifier::opaque]
    pub open spec fn effect(self, s: Storage, now: u32) -> Effect {
        match self {
            PaymentCall::SendTip { token, from, to, amount } => effect_of(
                s,
                send_tip_step(s, token, from, to, amount, now),
            ),
            PaymentCall::BatchSend { token, from, recipients, amounts } => effect_of(
                s,
                batch_send_step(s, token, from, recipients, amounts, now),
            ),
            PaymentCall::MintReceipt { from, to, amount, timestamp, memo } => effect_of(
                s,
                mint_receipt_step(
                    s,
                    ReceiptView { from, to, amount, timestamp, memo, ledger: now },
                ),
            ),
        }
    }
}

impl EscrowCall {
    /// The effect of the call on storage `s`, at ledger `now`.
    #[verifier::opaque]
    pub open spec fn effect(self, s: Storage, now: u32) -> Effect {
        match self {
            EscrowCall::Create { token, from, to, amount, release_ledger } => effect_of(
                s,
                create_escrow_step(s, token, from, to, amount, release_ledger, now),
            ),
            EscrowCall::Claim { id } => effect_of(s, claim_escrow_step(s, id, now)),
            EscrowCall::Cancel { id } => effect_of(s, cancel_escrow_step(s, id, now)),
        }
    }
}

impl StreamCall {
    /// The effect of the call on storage `s`, at ledger `now`.
    #[verifier::opaque]
    pub open spec fn effect(self, s: Storage, now: u32) -> Effect {
        match self {
            StreamCall::Open { token, payer, recipients, weights, rate_per_ledger, deposit } =>
                effect_of(
                s,
                open_stream_step(
                    s,
                    token,
                    payer,
                    recipients,
                    weights,
                    rate_per_ledger,
                    deposit,
                    now,
                ),
            ),
            StreamCall::Claim { id, recipient } => effect_of(
                s,
                claim_stream_step(s, id, recipient, now),
            ),
            StreamCall::TopUp { id, payer, amount } => effect_of(
                s,
                top_up_stream_step(s, id, payer, amount, now),
            ),
            StreamCall::Pause { id, payer } => effect_of(s, pause_stream_step(s, id, payer, now)),
            StreamCall::Resume { id, payer } => effect_of(s, resume_stream_step(s, id, payer, now)),
            StreamCall::Close { id, payer } => effect_of(s, close_stream_step(s, id, payer, now)),
        }
    }
}

impl Call {
    /// The effect of the call on storage `s`, at ledger `now`.
    pub open spec fn effect(self, s: Storage, now: u32) -> Effect {
        match self {
            Call::Admin(call) => call.effect(s),
            Call::Payment(call) => call.effect(s, now),
            Call::Escrow(call) => call.effect(s, now),
            Call::Stream(call) => call.effect(s, now),
            Call::Read(read) => read.effect(s),
        }
    }
}

/// The kinds of records that the storage holds.
pub enum Family {
    Admin,
    Schema,
    Tips,
    Receipts,
    Escrows,
    Lists,
    Streams,
}

/// The kind of record that a key is for.
pub open spec fn family(key: DataKey) -> Family {
    match key {
        DataKey::Admin => Family::Admin,
        DataKey::SchemaVersion => Family::Schema,
        DataKey::TipTotal(_) | DataKey::TipCount(_) | DataKey::TipRecord(_, _) => Family::Tips,
        DataKey::ReceiptCount(_) | DataKey::ReceiptRecord(_, _) | DataKey::ReceiptRecordV2(
            _,
            _,
        ) => Family::Receipts,
        DataKey::EscrowCount | DataKey::Escrow(_) => Family::Escrows,
        DataKey::EscrowSenderCount(_) | DataKey::EscrowSenderIndex(_, _)
        | DataKey::EscrowRecipientCount(_) | DataKey::EscrowRecipientIndex(_, _) => Family::Lists,
        DataKey::StreamCount | DataKey::Stream(_) => Family::Streams,
    }
}

/// The same entry, or none, is under `key` in both storages.
pub open spec fn unchanged(s: Storage, t: Storage, key: DataKey) -> bool {
    &&& s.has(key) == t.has(key)
    &&& s.has(key) ==> s.value(key) == t.value(key)
}

/// The records of one kind are the same in both storages.
pub open spec fn same_family(s: Storage, t: Storage, f: Family) -> bool {
    forall|key: DataKey| family(key) == f ==> #[trigger] unchanged(s, t, key)
}

/// Whether a call can change records of this kind.
pub open spec fn can_change(call: Call, f: Family) -> bool {
    match call {
        Call::Admin(AdminCall::Initialize { .. }) => f is Admin || f is Schema,
        Call::Admin(AdminCall::TransferAdmin { .. }) => f is Admin,
        Call::Admin(AdminCall::Migrate { .. }) => f is Schema || f is Lists,
        Call::Payment(PaymentCall::MintReceipt { .. }) => f is Receipts,
        Call::Payment(_) => f is Tips,
        Call::Escrow(EscrowCall::Create { .. }) => f is Escrows || f is Lists,
        Call::Escrow(_) => f is Escrows,
        Call::Stream(_) => f is Streams,
        Call::Read(_) => false,
    }
}

proof fn lemma_batch_frame(
    s: Storage,
    token: Address,
    from: Address,
    recipients: Seq<Address>,
    amounts: Seq<i128>,
    now: u32,
    n: nat,
    f: Family,
)
    requires
        !(f is Tips),
    ensures
        same_family(s, batch(s, token, from, recipients, amounts, now, n).storage, f),
    decreases n,
{
    if n > 0 {
        let m = (n - 1) as nat;
        let before = batch(s, token, from, recipients, amounts, now, m).storage;
        let after = batch(s, token, from, recipients, amounts, now, n).storage;
        lemma_batch_frame(s, token, from, recipients, amounts, now, m, f);
        assert forall|key: DataKey| family(key) == f implies #[trigger] unchanged(
            s,
            after,
            key,
        ) by {
            assert(unchanged(s, before, key));
        }
    }
}

/// Putting an escrow into the lists changes nothing but the lists.
pub proof fn lemma_indexed_frame(s: Storage, from: Address, to: Address, id: u32, f: Family)
    requires
        !(f is Lists),
    ensures
        same_family(s, indexed(s, from, to, id).storage, f),
{
    if let Ok(sent) = appended(s, Role::Sender, from, id) {
        assert(same_family(s, sent, f));
        assert forall|key: DataKey| family(key) == f implies #[trigger] unchanged(
            s,
            indexed(s, from, to, id).storage,
            key,
        ) by {
            assert(unchanged(s, sent, key));
        }
    }
}

/// Backfilling the lists changes nothing but the lists.
pub proof fn lemma_backfilled_frame(s: Storage, n: nat, f: Family)
    requires
        !(f is Lists),
    ensures
        same_family(s, backfilled(s, n).storage, f),
    decreases n,
{
    if n > 0 {
        let before = backfilled(s, (n - 1) as nat).storage;
        let id = (n - 1) as u32;
        lemma_backfilled_frame(s, (n - 1) as nat, f);
        if let Ok(escrow) = before.escrow(DataKey::Escrow(id), Trap::EscrowMissingInBackfill) {
            lemma_indexed_frame(before, escrow.from, escrow.to, id, f);
        }
        assert forall|key: DataKey| family(key) == f implies #[trigger] unchanged(
            s,
            backfilled(s, n).storage,
            key,
        ) by {
            assert(unchanged(s, before, key));
            assert(unchanged(before, backfilled(s, n).storage, key));
        }
    }
}

/// Listing escrows changes no record.
pub proof fn lemma_listed_frame(
    s: Storage,
    role: Role,
    account: Address,
    start: u32,
    n: nat,
    key: DataKey,
)
    ensures
        unchanged(s, listed(s, role, account, start, n).storage, key),
    decreases n,
{
    if n > 0 {
        lemma_listed_frame(s, role, account, start, (n - 1) as nat, key);
    }
}

/// A read changes no record: it only extends lifetimes.
pub proof fn law_reads_change_no_record(s: Storage, read: Read, key: DataKey)
    ensures
        unchanged(s, read.renewed(s), key),
{
    if let Read::EscrowPage(role, account, offset, limit) = read {
        if let Ok(total) = s.number_or_zero(role.count_key(account)) {
            let start = page_start(total, offset);
            let n = (page_end(total, offset, limit) - start) as nat;
            lemma_listed_frame(s.renew_present(role.count_key(account)), role, account, start, n, key);
        }
    }
}

proof fn lemma_create_escrow_frame(
    s: Storage,
    token: Address,
    from: Address,
    to: Address,
    amount: i128,
    release_ledger: u32,
    now: u32,
    f: Family,
)
    requires
        !(f is Escrows || f is Lists),
    ensures
        same_family(
            s,
            create_escrow_step(s, token, from, to, amount, release_ledger, now).storage,
            f,
        ),
{
    let after = create_escrow_step(s, token, from, to, amount, release_ledger, now).storage;
    if let Ok(id) = s.number_or_zero(DataKey::EscrowCount) {
        let escrow = Escrow {
            id,
            from,
            to,
            token,
            amount,
            release_ledger,
            status: EscrowStatus::Pending,
        };
        let written = s.put(DataKey::Escrow(id), escrow.encoded()).put(
            DataKey::EscrowCount,
            Datum::Number((id + 1) as u32),
        );
        lemma_indexed_frame(written, from, to, id, f);
        assert forall|key: DataKey| family(key) == f implies #[trigger] unchanged(
            s,
            after,
            key,
        ) by {
            assert(unchanged(s, written, key));
            assert(unchanged(written, indexed(written, from, to, id).storage, key));
        }
    }
}

proof fn lemma_migrate_frame(s: Storage, admin: Address, f: Family)
    requires
        !(f is Schema || f is Lists),
    ensures
        same_family(s, migrate_step(s, admin).storage, f),
{
    let after = migrate_step(s, admin).storage;
    if let Ok(count) = s.number_or_zero(DataKey::EscrowCount) {
        lemma_backfilled_frame(s, count as nat, f);
        assert forall|key: DataKey| family(key) == f implies #[trigger] unchanged(
            s,
            after,
            key,
        ) by {
            assert(unchanged(s, backfilled(s, count as nat).storage, key));
        }
    }
}

proof fn lemma_admin_call_frame(s: Storage, call: AdminCall, f: Family)
    requires
        !can_change(Call::Admin(call), f),
    ensures
        same_family(s, call.effect(s).storage, f),
{
    reveal(AdminCall::effect);
    if let AdminCall::Migrate { admin } = call {
        lemma_migrate_frame(s, admin, f);
    }
}

proof fn lemma_payment_call_frame(s: Storage, call: PaymentCall, now: u32, f: Family)
    requires
        !can_change(Call::Payment(call), f),
    ensures
        same_family(s, call.effect(s, now).storage, f),
{
    reveal(PaymentCall::effect);
    if let PaymentCall::BatchSend { token, from, recipients, amounts } = call {
        if let (Some(recipients), Some(amounts)) = (recipients, amounts) {
            lemma_batch_frame(s, token, from, recipients, amounts, now, recipients.len(), f);
        }
    }
}

proof fn lemma_escrow_call_frame(s: Storage, call: EscrowCall, now: u32, f: Family)
    requires
        !can_change(Call::Escrow(call), f),
    ensures
        same_family(s, call.effect(s, now).storage, f),
{
    reveal(EscrowCall::effect);
    if let EscrowCall::Create { token, from, to, amount, release_ledger } = call {
        lemma_create_escrow_frame(s, token, from, to, amount, release_ledger, now, f);
    }
}

proof fn lemma_stream_call_frame(s: Storage, call: StreamCall, now: u32, f: Family)
    requires
        !(f is Streams),
    ensures
        same_family(s, call.effect(s, now).storage, f),
{
    reveal(StreamCall::effect);
}

/// Every call leaves the records of other kinds than its own as they are.
pub proof fn law_calls_keep_to_their_records(s: Storage, call: Call, now: u32, f: Family)
    requires
        !can_change(call, f),
    ensures
        same_family(s, call.effect(s, now).storage, f),
{
    match call {
        Call::Admin(call) => {
            lemma_admin_call_frame(s, call, f);
        },
        Call::Payment(call) => {
            lemma_payment_call_frame(s, call, now, f);
        },
        Call::Escrow(call) => {
            lemma_escrow_call_frame(s, call, now, f);
        },
        Call::Stream(call) => {
            lemma_stream_call_frame(s, call, now, f);
        },
        Call::Read(read) => {
            reveal(Read::effect);
            assert forall|key: DataKey| family(key) == f implies #[trigger] unchanged(
                s,
                read.effect(s).storage,
                key,
            ) by {
                law_reads_change_no_record(s, read, key);
            }
        },
    }
}

/// A call that answers with an error has written nothing and asks for nothing.
pub proof fn law_errors_change_nothing(
    s: Storage,
    admin: Address,
    receipt: ReceiptView,
    id: u32,
    now: u32,
)
    ensures
        initialize_step(s, admin).outcome matches Err(Failure::Error(_)) ==> initialize_step(
            s,
            admin,
        ).storage == s && initialize_step(s, admin).actions.len() == 0,
        mint_receipt_step(s, receipt).outcome matches Err(Failure::Error(_)) ==> mint_receipt_step(
            s,
            receipt,
        ).storage == s && mint_receipt_step(s, receipt).actions.len() == 0,
        claim_escrow_step(s, id, now).outcome matches Err(Failure::Error(_)) ==> claim_escrow_step(
            s,
            id,
            now,
        ).storage == s && claim_escrow_step(s, id, now).actions.len() == 0,
        cancel_escrow_step(s, id, now).outcome matches Err(Failure::Error(_))
            ==> cancel_escrow_step(s, id, now).storage == s && cancel_escrow_step(
            s,
            id,
            now,
        ).actions.len() == 0,
        migrate_step(s, admin).outcome matches Err(Failure::Error(_)) ==> migrate_step(
            s,
            admin,
        ).storage == s && migrate_step(s, admin).actions.len() == 0,
{
}

} // verus!
