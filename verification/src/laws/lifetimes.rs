//! What holds of the lifetimes of entries.
use soroban_sdk::Address;
use vstd::prelude::*;

use crate::arith::least;
use crate::escrows::{appended, indexed, listed, page_end, page_start, Role};
use crate::laws::calls::{AdminCall, Call, EscrowCall, PaymentCall, Read, StreamCall};
use crate::outcome::Trap;
use crate::schema::backfilled;
use crate::sdk::Datum;
use crate::storage::Storage;
use crate::tips::{batch, tipped};
use crate::types::{DataKey, Escrow, EscrowStatus, TipRecord, PERSISTENT_LIFETIME_THRESHOLD,
    SCHEMA_VERSION};

verus! {

/// No entry of `s` is missing in `t` or lives shorter there, and an entry of `t` that
/// is not just as it is in `s` lives for more ledgers than the threshold, or for as
/// many as the host allows.
pub open spec fn lives_on(s: Storage, t: Storage) -> bool {
    &&& t.fresh == s.fresh
    &&& t.longest == s.longest
    &&& forall|key: DataKey|
        s.has(key) ==> #[trigger] t.has(key) && s.slots[key].lifetime <= t.slots[key].lifetime
    &&& forall|key: DataKey| #[trigger]
        t.has(key) ==> (s.has(key) && t.slots[key] == s.slots[key])
            || t.slots[key].lifetime > PERSISTENT_LIFETIME_THRESHOLD || t.slots[key].lifetime
            >= s.longest
}

/// An entry that was written or renewed lives for more ledgers than the
/// threshold, or for as many as the host allows.
pub proof fn law_written_entries_live_long(s: Storage, key: DataKey, value: Datum)
    ensures
        least(PERSISTENT_LIFETIME_THRESHOLD + 1, s.longest as int) <= s.put(
            key,
            value,
        ).slots[key].lifetime,
        s.has(key) ==> least(PERSISTENT_LIFETIME_THRESHOLD + 1, s.longest as int) <= s.renew(
            key,
        ).slots[key].lifetime,
{
}

proof fn lemma_chain(s: Storage, t: Storage, u: Storage)
    requires
        lives_on(s, t),
        lives_on(t, u),
    ensures
        lives_on(s, u),
{
    assert forall|key: DataKey| s.has(key) implies #[trigger] u.has(key) && s.slots[key].lifetime
        <= u.slots[key].lifetime by {
        assert(t.has(key));
        assert(u.has(key));
    }
    assert forall|key: DataKey| #[trigger] u.has(key) implies (s.has(key) && u.slots[key]
        == s.slots[key]) || u.slots[key].lifetime > PERSISTENT_LIFETIME_THRESHOLD
        || u.slots[key].lifetime >= s.longest by {
        if t.has(key) && u.slots[key] == t.slots[key] {
            assert(t.has(key));
        }
    }
}

proof fn lemma_put(s: Storage, key: DataKey, value: Datum)
    ensures
        lives_on(s, s.put(key, value)),
{
}

proof fn lemma_renew(s: Storage, key: DataKey)
    ensures
        lives_on(s, s.renew_present(key)),
{
}

proof fn lemma_two_puts(s: Storage, one: DataKey, first: Datum, two: DataKey, second: Datum)
    ensures
        lives_on(s, s.put(one, first).put(two, second)),
{
    lemma_put(s, one, first);
    lemma_put(s.put(one, first), two, second);
    lemma_chain(s, s.put(one, first), s.put(one, first).put(two, second));
}

proof fn lemma_tipped(s: Storage, tip: TipRecord)
    requires
        tipped(s, tip) is Ok,
    ensures
        lives_on(s, tipped(s, tip)->Ok_0),
{
    let t = tipped(s, tip)->Ok_0;
    let total = s.amount_or_zero(DataKey::TipTotal(tip.to))->Ok_0;
    let count = s.number_or_zero(DataKey::TipCount(tip.to))->Ok_0;
    let total_value = Datum::Amount((total + tip.amount) as i128);
    let count_value = Datum::Number((count + 1) as u32);
    let counted = s.put(DataKey::TipTotal(tip.to), total_value).put(
        DataKey::TipCount(tip.to),
        count_value,
    );
    lemma_two_puts(s, DataKey::TipTotal(tip.to), total_value, DataKey::TipCount(tip.to), count_value);
    lemma_put(counted, DataKey::TipRecord(tip.to, count), tip.encoded());
    lemma_chain(s, counted, t);
}

proof fn lemma_batch(
    s: Storage,
    token: Address,
    from: Address,
    recipients: Seq<Address>,
    amounts: Seq<i128>,
    now: u32,
    n: nat,
)
    ensures
        lives_on(s, batch(s, token, from, recipients, amounts, now, n).storage),
    decreases n,
{
    if n > 0 {
        let before = batch(s, token, from, recipients, amounts, now, (n - 1) as nat);
        lemma_batch(s, token, from, recipients, amounts, now, (n - 1) as nat);
        let tip = TipRecord {
            from,
            to: recipients[n - 1],
            amount: amounts[n - 1],
            ledger: now,
        };
        if tipped(before.storage, tip) is Ok {
            lemma_tipped(before.storage, tip);
            lemma_chain(s, before.storage, tipped(before.storage, tip)->Ok_0);
        }
    }
}

proof fn lemma_appended(s: Storage, role: Role, account: Address, id: u32)
    requires
        appended(s, role, account, id) is Ok,
    ensures
        lives_on(s, appended(s, role, account, id)->Ok_0),
{
    let count = s.number_or_zero(role.count_key(account))->Ok_0;
    lemma_two_puts(
        s,
        role.index_key(account, count),
        Datum::Number(id),
        role.count_key(account),
        Datum::Number((count + 1) as u32),
    );
}

proof fn lemma_indexed(s: Storage, from: Address, to: Address, id: u32)
    ensures
        lives_on(s, indexed(s, from, to, id).storage),
{
    if let Ok(sent) = appended(s, Role::Sender, from, id) {
        lemma_appended(s, Role::Sender, from, id);
        if let Ok(both) = appended(sent, Role::Recipient, to, id) {
            lemma_appended(sent, Role::Recipient, to, id);
            lemma_chain(s, sent, both);
        }
    }
}

proof fn lemma_backfilled(s: Storage, n: nat)
    ensures
        lives_on(s, backfilled(s, n).storage),
    decreases n,
{
    if n > 0 {
        let before = backfilled(s, (n - 1) as nat).storage;
        let id = (n - 1) as u32;
        lemma_backfilled(s, (n - 1) as nat);
        if let Ok(escrow) = before.escrow(DataKey::Escrow(id), Trap::EscrowMissingInBackfill) {
            lemma_indexed(before, escrow.from, escrow.to, id);
            lemma_chain(s, before, indexed(before, escrow.from, escrow.to, id).storage);
        }
    }
}

proof fn lemma_listed(s: Storage, role: Role, account: Address, start: u32, n: nat)
    ensures
        lives_on(s, listed(s, role, account, start, n).storage),
    decreases n,
{
    if n > 0 {
        let before = listed(s, role, account, start, (n - 1) as nat).storage;
        let key = role.index_key(account, (start + n - 1) as u32);
        lemma_listed(s, role, account, start, (n - 1) as nat);
        lemma_renew(before, key);
        lemma_chain(s, before, before.renew_present(key));
    }
}

proof fn lemma_admin_call(s: Storage, call: AdminCall)
    ensures
        lives_on(s, call.effect(s).storage),
{
    reveal(AdminCall::effect);
    if let AdminCall::Migrate { admin } = call {
        if let Ok(count) = s.number_or_zero(DataKey::EscrowCount) {
            let filled = backfilled(s, count as nat).storage;
            lemma_backfilled(s, count as nat);
            let value = Datum::Number(SCHEMA_VERSION);
            lemma_put(filled, DataKey::SchemaVersion, value);
            lemma_chain(s, filled, filled.put(DataKey::SchemaVersion, value));
        }
    }
}

proof fn lemma_payment_call(s: Storage, call: PaymentCall, now: u32)
    ensures
        lives_on(s, call.effect(s, now).storage),
{
    reveal(PaymentCall::effect);
    match call {
        PaymentCall::SendTip { from, to, amount, .. } => {
            let tip = TipRecord { from, to, amount, ledger: now };
            if tipped(s, tip) is Ok {
                lemma_tipped(s, tip);
            }
        },
        PaymentCall::BatchSend { token, from, recipients, amounts } => {
            if let (Some(recipients), Some(amounts)) = (recipients, amounts) {
                lemma_batch(s, token, from, recipients, amounts, now, recipients.len());
            }
        },
        PaymentCall::MintReceipt { .. } => {},
    }
}

proof fn lemma_escrow_call(s: Storage, call: EscrowCall, now: u32)
    ensures
        lives_on(s, call.effect(s, now).storage),
{
    reveal(EscrowCall::effect);
    if let EscrowCall::Create { token, from, to, amount, release_ledger } = call {
        if let Ok(id) = s.number_or_zero(DataKey::EscrowCount) {
            let escrow = Escrow {
                id,
                from,
                to,
                token,
                amount,
                release_ledger,
                status: EscrowStatus::Pending,
            };
            let count_value = Datum::Number((id + 1) as u32);
            let written = s.put(DataKey::Escrow(id), escrow.encoded()).put(
                DataKey::EscrowCount,
                count_value,
            );
            lemma_two_puts(
                s,
                DataKey::Escrow(id),
                escrow.encoded(),
                DataKey::EscrowCount,
                count_value,
            );
            lemma_indexed(written, from, to, id);
            lemma_chain(s, written, indexed(written, from, to, id).storage);
        }
    }
}

proof fn lemma_stream_call(s: Storage, call: StreamCall, now: u32)
    ensures
        lives_on(s, call.effect(s, now).storage),
{
    reveal(StreamCall::effect);
}

proof fn lemma_read(s: Storage, read: Read)
    ensures
        lives_on(s, read.effect(s).storage),
{
    reveal(Read::effect);
    match read {
        Read::Admin => lemma_renew(s, DataKey::Admin),
        Read::TipTotal(to) => lemma_renew(s, DataKey::TipTotal(to)),
        Read::TipCount(to) => lemma_renew(s, DataKey::TipCount(to)),
        Read::TipRecord(to, index) => lemma_renew(s, DataKey::TipRecord(to, index)),
        Read::ReceiptCount(from) => lemma_renew(s, DataKey::ReceiptCount(from)),
        Read::Receipt(from, index) => lemma_renew(s, DataKey::ReceiptRecordV2(from, index)),
        Read::LegacyReceipt(from, index) => lemma_renew(s, DataKey::ReceiptRecord(from, index)),
        Read::Escrow(id) => lemma_renew(s, DataKey::Escrow(id)),
        Read::EscrowCount(role, account) => lemma_renew(s, role.count_key(account)),
        Read::EscrowPage(role, account, offset, limit) => {
            if let Ok(total) = s.number_or_zero(role.count_key(account)) {
                let start = page_start(total, offset);
                let n = (page_end(total, offset, limit) - start) as nat;
                let counted = s.renew_present(role.count_key(account));
                lemma_renew(s, role.count_key(account));
                lemma_listed(counted, role, account, start, n);
                lemma_chain(s, counted, listed(counted, role, account, start, n).storage);
            }
        },
        Read::Stream(id) => lemma_renew(s, DataKey::Stream(id)),
    }
}

/// No call removes an entry or shortens its life. Whatever entry a call writes lives
/// on for more ledgers than the threshold, or for as many as the host allows.
pub proof fn law_calls_keep_entries_alive(s: Storage, call: Call, now: u32)
    ensures
        lives_on(s, call.effect(s, now).storage),
{
    match call {
        Call::Admin(call) => {
            lemma_admin_call(s, call);
        },
        Call::Payment(call) => {
            lemma_payment_call(s, call, now);
        },
        Call::Escrow(call) => {
            lemma_escrow_call(s, call, now);
        },
        Call::Stream(call) => {
            lemma_stream_call(s, call, now);
        },
        Call::Read(read) => {
            lemma_read(s, read);
        },
    }
}

} // verus!
