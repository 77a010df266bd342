//! The contract's storage: entries under keys, each with the lifetime that
//! the host has left for it.
use soroban_sdk::{Address, Env, Val};
use vstd::prelude::*;

use crate::keys::lemma_encoded_injective;
use crate::outcome::Trap;
use crate::sdk::{as_account, as_amount, as_number, datum, fresh_lifetime, is_storable,
    longest_lifetime, persistent_extend_ttl, persistent_get, persistent_has, persistent_set,
    prolonged, slots, Datum, Slot};
use crate::types::{DataKey, PERSISTENT_BUMP_AMOUNT, PERSISTENT_LIFETIME_THRESHOLD};

verus! {

/// The storage of the contract.
#[verifier::ext_equal]
pub struct Storage {
    /// The entries, by their keys.
    pub slots: Map<DataKey, Slot>,
    /// The lifetime of a new entry.
    pub fresh: nat,
    /// The longest lifetime of an entry.
    pub longest: nat,
}

/// A run of writes: the storage it leaves behind, and why it stopped short,
/// if it did.
pub struct Run {
    pub storage: Storage,
    pub trap: Option<Trap>,
}

/// The storage of the contract that runs behind `env`.
#[verifier::opaque]
pub open spec fn storage(env: Env) -> Storage {
    Storage {
        slots: Map::new(
            |key: DataKey| slots(env).contains_key(key.encoded()),
            |key: DataKey| slots(env)[key.encoded()],
        ),
        fresh: fresh_lifetime(env),
        longest: longest_lifetime(env),
    }
}

impl Storage {
    /// Whether there is an entry under `key`.
    pub open spec fn has(self, key: DataKey) -> bool {
        self.slots.contains_key(key)
    }

    /// The value under `key`.
    pub open spec fn value(self, key: DataKey) -> Datum {
        self.slots[key].value
    }

    /// The storage with `value` under `key`.
    pub open spec fn set(self, key: DataKey, value: Datum) -> Storage {
        let lifetime = if self.has(key) {
            self.slots[key].lifetime
        } else {
            self.fresh
        };
        Storage { slots: self.slots.insert(key, Slot { value, lifetime }), ..self }
    }

    /// The storage with the lifetime of the entry under `key` extended.
    pub open spec fn renew(self, key: DataKey) -> Storage {
        let lifetime = prolonged(
            self.slots[key].lifetime,
            self.longest,
            PERSISTENT_LIFETIME_THRESHOLD as nat,
            PERSISTENT_BUMP_AMOUNT as nat,
        );
        Storage { slots: self.slots.insert(key, Slot { value: self.value(key), lifetime }), ..self }
    }

    /// The storage with the lifetime of the entry under `key` extended, if
    /// there is one.
    pub open spec fn renew_present(self, key: DataKey) -> Storage {
        if self.has(key) {
            self.renew(key)
        } else {
            self
        }
    }

    /// The storage with `value` under `key` and the lifetime of that entry
    /// extended.
    pub open spec fn put(self, key: DataKey, value: Datum) -> Storage {
        self.set(key, value).renew(key)
    }

    /// The number under `key`, zero if there is no entry.
    pub open spec fn number_or_zero(self, key: DataKey) -> Result<u32, Trap> {
        if !self.has(key) {
            Ok(0)
        } else {
            match self.value(key) {
                Datum::Number(n) => Ok(n),
                _ => Err(Trap::MalformedEntry),
            }
        }
    }

    /// The amount under `key`, zero if there is no entry.
    pub open spec fn amount_or_zero(self, key: DataKey) -> Result<i128, Trap> {
        if !self.has(key) {
            Ok(0)
        } else {
            match self.value(key) {
                Datum::Amount(n) => Ok(n),
                _ => Err(Trap::MalformedEntry),
            }
        }
    }

    /// The number under `key`; `missing` if there is no entry.
    pub open spec fn number(self, key: DataKey, missing: Trap) -> Result<u32, Trap> {
        if !self.has(key) {
            Err(missing)
        } else {
            match self.value(key) {
                Datum::Number(n) => Ok(n),
                _ => Err(Trap::MalformedEntry),
            }
        }
    }

    /// The address under `key`; `missing` if there is no entry.
    pub open spec fn account(self, key: DataKey, missing: Trap) -> Result<Address, Trap> {
        if !self.has(key) {
            Err(missing)
        } else {
            match self.value(key) {
                Datum::Account(a) => Ok(a),
                _ => Err(Trap::MalformedEntry),
            }
        }
    }
}

/// Whether there is an entry under `key`.
pub(crate) fn has(env: &Env, key: &DataKey) -> (r: bool)
    ensures
        r == storage(*env).has(*key),
{
    reveal(storage);
    persistent_has(env, &key.value(env))
}

/// The value under `key`, if there is an entry.
pub(crate) fn read(env: &Env, key: &DataKey) -> (r: Option<Val>)
    ensures
        r is Some <==> storage(*env).has(*key),
        r is Some ==> datum(r->0) == storage(*env).value(*key),
        r is Some ==> is_storable(*env, datum(r->0)),
{
    reveal(storage);
    persistent_get(env, &key.value(env))
}

/// Puts `value` under `key`.
fn set(env: &mut Env, key: &DataKey, value: &Val)
    requires
        is_storable(*old(env), datum(*value)),
    ensures
        storage(*final(env)) == storage(*old(env)).set(*key, datum(*value)),
{
    let key_value = key.value(env);
    persistent_set(env, &key_value, value);
    proof {
        reveal(storage);
        let before = storage(*old(env)).set(*key, datum(*value));
        assert forall|other: DataKey|
            #![trigger storage(*env).slots.contains_key(other)]
            #![trigger before.slots.contains_key(other)]
            storage(*env).slots.contains_key(other) == before.slots.contains_key(other) && (
            before.slots.contains_key(other) ==> storage(*env).slots[other]
                == before.slots[other]) by {
            if other.encoded() == key.encoded() {
                lemma_encoded_injective(other, *key);
            }
        }
        assert(storage(*env).slots =~= before.slots);
    }
}

/// Extends the lifetime of the entry under `key`.
pub(crate) fn extend_persistent_ttl(env: &mut Env, key: &DataKey)
    requires
        storage(*old(env)).has(*key),
    ensures
        storage(*final(env)) == storage(*old(env)).renew(*key),
{
    reveal(storage);
    let key_value = key.value(env);
    persistent_extend_ttl(
        env,
        &key_value,
        PERSISTENT_LIFETIME_THRESHOLD,
        PERSISTENT_BUMP_AMOUNT,
    );
    proof {
        let before = storage(*old(env)).renew(*key);
        assert forall|other: DataKey|
            #![trigger storage(*env).slots.contains_key(other)]
            #![trigger before.slots.contains_key(other)]
            storage(*env).slots.contains_key(other) == before.slots.contains_key(other) && (
            before.slots.contains_key(other) ==> storage(*env).slots[other]
                == before.slots[other]) by {
            if other.encoded() == key.encoded() {
                lemma_encoded_injective(other, *key);
            }
        }
        assert(storage(*env).slots =~= before.slots);
    }
}

/// Extends the lifetime of the entry under `key`, if there is one.
pub(crate) fn extend_present_ttl(env: &mut Env, key: &DataKey)
    ensures
        storage(*final(env)) == storage(*old(env)).renew_present(*key),
{
    if has(env, key) {
        extend_persistent_ttl(env, key);
    }
}

/// Puts `value` under `key` and extends the lifetime of that entry.
pub(crate) fn put(env: &mut Env, key: &DataKey, value: &Val)
    requires
        is_storable(*old(env), datum(*value)),
    ensures
        storage(*final(env)) == storage(*old(env)).put(*key, datum(*value)),
{
    set(env, key, value);
    extend_persistent_ttl(env, key);
}

/// The number under `key`, zero if there is no entry.
pub(crate) fn number_or_zero(env: &Env, key: &DataKey) -> (r: Result<u32, Trap>)
    ensures
        r == storage(*env).number_or_zero(*key),
{
    match read(env, key) {
        None => Ok(0),
        Some(value) => match as_number(env, &value) {
            Some(n) => Ok(n),
            None => Err(Trap::MalformedEntry),
        },
    }
}

/// The amount under `key`, zero if there is no entry.
pub(crate) fn amount_or_zero(env: &Env, key: &DataKey) -> (r: Result<i128, Trap>)
    ensures
        r == storage(*env).amount_or_zero(*key),
{
    match read(env, key) {
        None => Ok(0),
        Some(value) => match as_amount(env, &value) {
            Some(n) => Ok(n),
            None => Err(Trap::MalformedEntry),
        },
    }
}

/// The number under `key`; `missing` if there is no entry.
pub(crate) fn number(env: &Env, key: &DataKey, missing: Trap) -> (r: Result<u32, Trap>)
    ensures
        r == storage(*env).number(*key, missing),
{
    match read(env, key) {
        None => Err(missing),
        Some(value) => match as_number(env, &value) {
            Some(n) => Ok(n),
            None => Err(Trap::MalformedEntry),
        },
    }
}

/// The address under `key`; `missing` if there is no entry.
pub(crate) fn account(env: &Env, key: &DataKey, missing: Trap) -> (r: Result<Address, Trap>)
    ensures
        r == storage(*env).account(*key, missing),
{
    match read(env, key) {
        None => Err(missing),
        Some(value) => match as_account(env, &value) {
            Some(a) => Ok(a),
            None => Err(Trap::MalformedEntry),
        },
    }
}

} // verus!
