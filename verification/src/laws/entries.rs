//! What the storage gives back of what was put into it.
use soroban_sdk::{Address, Env};
use vstd::prelude::*;

use crate::escrows::Role;
use crate::outcome::{Answer, Step, Trap};
use crate::records::{LegacyReceiptView, ReceiptView, StreamView};
use crate::sdk::{fresh_lifetime, longest_lifetime, slots, Datum};
use crate::storage::{storage, Storage};
use crate::types::{DataKey, Escrow, TipRecord, PERSISTENT_BUMP_AMOUNT,
    PERSISTENT_LIFETIME_THRESHOLD};

verus! {

/// The entry under `key` is the number `n`; where there is none, `n` is zero.
pub open spec fn holds_number(s: Storage, key: DataKey, n: u32) -> bool {
    if s.slots.contains_key(key) {
        s.slots[key].value == Datum::Number(n)
    } else {
        n == 0
    }
}

/// The entry under `key` is the amount `n`; where there is none, `n` is zero.
pub open spec fn holds_amount(s: Storage, key: DataKey, n: i128) -> bool {
    if s.slots.contains_key(key) {
        s.slots[key].value == Datum::Amount(n)
    } else {
        n == 0
    }
}

/// There is an entry under `key`, and it is `value`.
pub open spec fn holds(s: Storage, key: DataKey, value: Datum) -> bool {
    s.slots.contains_key(key) && s.slots[key].value == value
}

/// Under `key` there is the same in both storages.
pub open spec fn same_entry(s: Storage, t: Storage, key: DataKey) -> bool {
    &&& s.slots.contains_key(key) == t.slots.contains_key(key)
    &&& s.slots.contains_key(key) ==> s.slots[key].value == t.slots[key].value
}

/// Putting a value under a key: the value is then there, no other entry has
/// changed, and the entry lives on for as long as the contract asks, or as the
/// host allows.
pub proof fn law_put_is_read_back(s: Storage, key: DataKey, value: Datum, other: DataKey)
    requires
        other != key,
    ensures
        ({
            let t = s.put(key, value);
            let before = if s.slots.contains_key(key) {
                s.slots[key].lifetime
            } else {
                s.fresh
            };
            let wanted = if PERSISTENT_BUMP_AMOUNT <= s.longest {
                PERSISTENT_BUMP_AMOUNT as nat
            } else {
                s.longest
            };
            &&& holds(t, key, value)
            &&& t.has(key)
            &&& t.value(key) == value
            &&& t.slots.contains_key(other) == s.slots.contains_key(other)
            &&& t.slots.contains_key(other) ==> t.slots[other] == s.slots[other]
            &&& before > PERSISTENT_LIFETIME_THRESHOLD ==> t.slots[key].lifetime == before
            &&& before <= PERSISTENT_LIFETIME_THRESHOLD ==> t.slots[key].lifetime == if before
                < wanted {
                wanted
            } else {
                before
            }
        }),
{
}

/// The storage is what the host keeps for the contract, under the keys as they are
/// laid out.
pub proof fn law_storage_is_what_the_host_keeps(env: Env, key: DataKey)
    ensures
        storage(env).slots.contains_key(key) <==> slots(env).contains_key(key.encoded()),
        storage(env).slots.contains_key(key) ==> storage(env).slots[key] == slots(
            env,
        )[key.encoded()],
        storage(env).fresh == fresh_lifetime(env),
        storage(env).longest == longest_lifetime(env),
{
    reveal(storage);
}

/// Extending the lifetime of an entry changes no value, and no other entry. The
/// entry lives on for as long as the contract asks, or as the host allows.
pub proof fn law_renewing_changes_no_value(s: Storage, key: DataKey, other: DataKey)
    ensures
        ({
            let t = s.renew_present(key);
            let before = s.slots[key].lifetime;
            let wanted = if PERSISTENT_BUMP_AMOUNT <= s.longest {
                PERSISTENT_BUMP_AMOUNT as nat
            } else {
                s.longest
            };
            &&& same_entry(s, t, other)
            &&& other != key && s.slots.contains_key(other) ==> t.slots[other] == s.slots[other]
            &&& s.slots.contains_key(key) ==> t == s.renew(key)
            &&& s.slots.contains_key(key) && before > PERSISTENT_LIFETIME_THRESHOLD
                ==> t.slots[key].lifetime == before
            &&& s.slots.contains_key(key) && before <= PERSISTENT_LIFETIME_THRESHOLD
                ==> t.slots[key].lifetime == if before < wanted {
                wanted
            } else {
                before
            }
            &&& !s.slots.contains_key(key) ==> t == s
        }),
{
}

/// Numbers, amounts and addresses are read as they are stored. An entry of another
/// kind is malformed.
pub proof fn law_plain_entries_are_read(s: Storage, key: DataKey, missing: Trap)
    ensures
        forall|n: u32| #[trigger]
            holds_number(s, key, n) <==> s.number_or_zero(key) == Ok::<u32, Trap>(n),
        forall|n: i128| #[trigger]
            holds_amount(s, key, n) <==> s.amount_or_zero(key) == Ok::<i128, Trap>(n),
        forall|n: u32|
            #[trigger] holds(s, key, Datum::Number(n)) <==> s.number(key, missing) == Ok::<
                u32,
                Trap,
            >(n),
        forall|a: Address|
            #[trigger] holds(s, key, Datum::Account(a)) <==> s.account(key, missing) == Ok::<
                Address,
                Trap,
            >(a),
        !s.slots.contains_key(key) ==> s.number(key, missing) == Err::<u32, Trap>(missing)
            && s.account(key, missing) == Err::<Address, Trap>(missing),
        s.slots.contains_key(key) && !(s.slots[key].value is Number) ==> {
            &&& s.number_or_zero(key) == Err::<u32, Trap>(Trap::MalformedEntry)
            &&& s.number(key, missing) == Err::<u32, Trap>(Trap::MalformedEntry)
        },
        s.slots.contains_key(key) && !(s.slots[key].value is Amount) ==> s.amount_or_zero(key)
            == Err::<i128, Trap>(Trap::MalformedEntry),
        s.slots.contains_key(key) && !(s.slots[key].value is Account) ==> s.account(key, missing)
            == Err::<Address, Trap>(Trap::MalformedEntry),
{
}

/// Records are read as their layout says. Where there is no entry, the given trap
/// says so, and an entry that is not laid out like the record is malformed.
pub proof fn law_records_are_read(s: Storage, key: DataKey, missing: Trap)
    ensures
        !s.slots.contains_key(key) ==> {
            &&& s.tip(key, missing) == Err::<TipRecord, Trap>(missing)
            &&& s.receipt(key, missing) == Err::<ReceiptView, Trap>(missing)
            &&& s.legacy_receipt(key, missing) == Err::<LegacyReceiptView, Trap>(missing)
            &&& s.escrow(key, missing) == Err::<Escrow, Trap>(missing)
            &&& s.stream(key, missing) == Err::<StreamView, Trap>(missing)
        },
        s.slots.contains_key(key) ==> {
            let value = s.slots[key].value;
            &&& s.tip(key, missing) == match TipRecord::decoded(value) {
                Some(record) => Ok(record),
                None => Err(Trap::MalformedEntry),
            }
            &&& s.receipt(key, missing) == match ReceiptView::decoded(value) {
                Some(record) => Ok(record),
                None => Err(Trap::MalformedEntry),
            }
            &&& s.legacy_receipt(key, missing) == match LegacyReceiptView::decoded(value) {
                Some(record) => Ok(record),
                None => Err(Trap::MalformedEntry),
            }
            &&& s.escrow(key, missing) == match Escrow::decoded(value) {
                Some(record) => Ok(record),
                None => Err(Trap::MalformedEntry),
            }
            &&& s.stream(key, missing) == match StreamView::decoded(value) {
                Some(record) => Ok(record),
                None => Err(Trap::MalformedEntry),
            }
        },
{
}

/// The two lists that an account is in are kept apart, under the keys for them.
pub proof fn law_lists_have_their_keys(account: Address, index: u32)
    ensures
        Role::Sender.count_key(account) == DataKey::EscrowSenderCount(account),
        Role::Recipient.count_key(account) == DataKey::EscrowRecipientCount(account),
        Role::Sender.index_key(account, index) == DataKey::EscrowSenderIndex(account, index),
        Role::Recipient.index_key(account, index) == DataKey::EscrowRecipientIndex(account, index),
{
}

/// An answer that fits a step has its signer, its outcome, and its actions one for
/// one, and leaves its storage.
pub proof fn law_answers_fit_their_steps<T>(step: Step<T>, left: Storage, answer: Answer<T>)
    ensures
        step.gives(left, answer) <==> {
            &&& left == step.storage
            &&& answer.signer == step.signer
            &&& answer.outcome == step.outcome
            &&& answer.actions@.len() == step.actions.len()
            &&& forall|i: int|
                0 <= i < step.actions.len() ==> #[trigger] answer.actions@[i] == step.actions[i]
        },
{
    if answer.actions@.len() == step.actions.len() && forall|i: int|
        0 <= i < step.actions.len() ==> #[trigger] answer.actions@[i] == step.actions[i] {
        assert(answer.actions@ =~= step.actions);
    }
}

} // verus!
