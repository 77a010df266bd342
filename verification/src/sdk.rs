//! The part of the Soroban SDK that the contract stands on.
//!
//! Everything in this file is taken on trust: the declarations of the SDK's
//! types, names for what values of those types hold, and one small function
//! for each SDK call that the contract makes. Every other file is verified
//! against the contracts written here.
//!
//! An [`Env`] is the handle that the host gives to a contract function. The
//! functions below that touch storage work on the persistent storage of the
//! contract that is running, and take the handle as `&mut`, because the host
//! changes behind it. They stop the invocation, like any host call, when the
//! handle belongs to no running contract, when the network's resource limits
//! for the invocation are used up, or when an entry that they are asked for was
//! archived because its lifetime ran out and the host does not restore it. (A
//! host that records the footprint of an invocation restores such an entry when
//! it is asked for.) The host discards what a stopped invocation has done.
//!
//! A [`Val`] and the types made of it are handles into the host that made them.
//! Everything below is claimed of values that all belong to one host, as all
//! values of an invocation do: values of two hosts must not be mixed in one call.
use soroban_sdk::{Address, Env, IntoVal, Symbol, TryFromVal, Val};
use vstd::prelude::*;

verus! {

/// The handle to the host of a running contract.
#[verifier::external_type_specification]
#[verifier::external_body]
pub struct ExEnv(soroban_sdk::Env);

/// An account or contract address. Two addresses are equal exactly when they
/// name the same account or contract.
#[verifier::external_type_specification]
#[verifier::external_body]
pub struct ExAddress(soroban_sdk::Address);

/// A host value of any kind.
#[verifier::external_type_specification]
#[verifier::external_body]
pub struct ExVal(soroban_sdk::Val);

/// A short string of letters, digits and underscores.
#[verifier::external_type_specification]
#[verifier::external_body]
pub struct ExSymbol(soroban_sdk::Symbol);

/// A host string: any bytes, by convention UTF-8 text.
#[verifier::external_type_specification]
#[verifier::external_body]
pub struct ExString(soroban_sdk::String);

/// A host list.
#[verifier::external_type_specification]
#[verifier::external_body]
#[verifier::reject_recursive_types(T)]
pub struct ExList<T>(soroban_sdk::Vec<T>);

/// A host map.
#[verifier::external_type_specification]
#[verifier::external_body]
#[verifier::reject_recursive_types(K)]
#[verifier::reject_recursive_types(V)]
pub struct ExMap<K, V>(soroban_sdk::Map<K, V>);

/// What a host value holds.
///
/// A host map whose keys are all symbols is a `Record`. A value of a kind that
/// the contract neither writes nor reads is `Other`, and so is a host map with
/// another key; its number says how many lists and maps deep it nests.
pub enum Datum {
    Number(u32),
    Long(u64),
    Amount(i128),
    Flag(bool),
    Account(Address),
    Text(Seq<u8>),
    Name(Seq<char>),
    List(Seq<Datum>),
    Record(Map<Seq<char>, Datum>),
    Other(nat),
}

/// A storage entry: its value, and for how many ledgers after the current one
/// the host keeps it.
pub struct Slot {
    pub value: Datum,
    pub lifetime: nat,
}

/// What the persistent storage of the running contract holds.
pub uninterp spec fn slots(env: Env) -> Map<Datum, Slot>;

/// The lifetime that the network gives to a new persistent entry.
pub uninterp spec fn fresh_lifetime(env: Env) -> nat;

/// The longest lifetime that the network lets a persistent entry have.
pub uninterp spec fn longest_lifetime(env: Env) -> nat;

/// How many levels deeper than three the values that the host stores may nest
/// lists and maps.
pub uninterp spec fn further_levels(env: Env) -> nat;

/// What a host value holds.
pub uninterp spec fn datum(value: Val) -> Datum;

/// The characters of a symbol.
pub uninterp spec fn symbol_text(symbol: Symbol) -> Seq<char>;

/// The bytes of a host string.
pub uninterp spec fn string_bytes(text: soroban_sdk::String) -> Seq<u8>;

/// The entries that a host map has under symbol keys.
pub uninterp spec fn record_fields(record: soroban_sdk::Map<Symbol, Val>) -> Map<Seq<char>, Datum>;

/// Whether every key of a host map is a symbol.
pub uninterp spec fn has_only_names(record: soroban_sdk::Map<Symbol, Val>) -> bool;

/// The items of a host list of addresses; `None` if an item is no address.
pub uninterp spec fn address_items(list: soroban_sdk::Vec<Address>) -> Option<Seq<Address>>;

/// The items of a host list of `u32`; `None` if an item is of another kind.
pub uninterp spec fn number_items(list: soroban_sdk::Vec<u32>) -> Option<Seq<u32>>;

/// The items of a host list of `i128`; `None` if an item is of another kind.
pub uninterp spec fn amount_items(list: soroban_sdk::Vec<i128>) -> Option<Seq<i128>>;

/// A record without fields.
pub open spec fn no_fields() -> Map<Seq<char>, Datum> {
    Map::empty()
}

/// A character that a symbol may hold.
pub open spec fn is_symbol_char(c: char) -> bool {
    ||| 'a' <= c <= 'z'
    ||| 'A' <= c <= 'Z'
    ||| '0' <= c <= '9'
    ||| c == '_'
}

/// A text that can be a symbol.
pub open spec fn is_symbol_text(text: Seq<char>) -> bool {
    &&& text.len() <= 32
    &&& forall|i: int| 0 <= i < text.len() ==> is_symbol_char(#[trigger] text[i])
}

/// A value that can be part of a storage key of this contract.
pub open spec fn is_key_part(part: Datum) -> bool {
    part is Name || part is Account || part is Number
}

/// A storage key of the shape this contract uses: a list of names, addresses
/// and numbers. Two such keys are the same key exactly when they hold the
/// same.
pub open spec fn is_key(key: Datum) -> bool {
    key matches Datum::List(parts) && forall|i: int|
        0 <= i < parts.len() ==> is_key_part(#[trigger] parts[i])
}

/// A value that nests lists and records at most `levels` deep.
pub open spec fn nests(value: Datum, levels: nat) -> bool
    decreases levels,
{
    match value {
        Datum::List(items) => levels > 0 && forall|i: int|
            0 <= i < items.len() ==> nests(#[trigger] items[i], (levels - 1) as nat),
        Datum::Record(fields) => levels > 0 && forall|name: Seq<char>| #[trigger]
            fields.contains_key(name) ==> nests(fields[name], (levels - 1) as nat),
        Datum::Other(depth) => depth <= levels,
        _ => true,
    }
}

/// A value that the host stores: it nests no deeper than the host allows.
pub open spec fn is_storable(env: Env, value: Datum) -> bool {
    nests(value, 3 + further_levels(env))
}

/// The lifetime of an entry after its owner asked for at least `threshold`
/// ledgers and, where it has no more than that, for `extend_to` ledgers.
pub open spec fn prolonged(lifetime: nat, longest: nat, threshold: nat, extend_to: nat) -> nat {
    let wanted = if extend_to <= longest {
        extend_to
    } else {
        longest
    };
    if lifetime <= threshold && wanted > lifetime {
        wanted
    } else {
        lifetime
    }
}

/// `Persistent::has`: whether an entry is stored under `key`.
#[verifier::external_body]
pub(crate) fn persistent_has(env: &Env, key: &Val) -> (r: bool)
    requires
        is_key(datum(*key)),
    ensures
        r == slots(*env).contains_key(datum(*key)),
{
    env.storage().persistent().has(key)
}

/// `Persistent::get`, for a value of any kind: the value stored under `key`,
/// or `None` where there is no entry. The host converts a value that it reads
/// and a value that it writes with the same limit on how deep it nests, so a
/// value that was read can be stored.
#[verifier::external_body]
pub(crate) fn persistent_get(env: &Env, key: &Val) -> (r: Option<Val>)
    requires
        is_key(datum(*key)),
    ensures
        r is Some <==> slots(*env).contains_key(datum(*key)),
        r is Some ==> datum(r->0) == slots(*env)[datum(*key)].value,
        r is Some ==> is_storable(*env, datum(r->0)),
{
    env.storage().persistent().get(key)
}

/// `Persistent::set`: stores `value` under `key`. An entry that is there
/// keeps its lifetime, a new one gets the network's lifetime for new entries.
/// No other entry changes. The host refuses a value that nests too deep.
#[verifier::external_body]
pub(crate) fn persistent_set(env: &mut Env, key: &Val, value: &Val)
    requires
        is_key(datum(*key)),
        is_storable(*old(env), datum(*value)),
    ensures
        slots(*final(env)) == slots(*old(env)).insert(
            datum(*key),
            (Slot {
                value: datum(*value),
                lifetime: if slots(*old(env)).contains_key(datum(*key)) {
                    slots(*old(env))[datum(*key)].lifetime
                } else {
                    fresh_lifetime(*old(env))
                },
            }),
        ),
        fresh_lifetime(*final(env)) == fresh_lifetime(*old(env)),
        longest_lifetime(*final(env)) == longest_lifetime(*old(env)),
        further_levels(*final(env)) == further_levels(*old(env)),
{
    env.storage().persistent().set(key, value)
}

/// `Persistent::extend_ttl`: an entry with no more than `threshold` ledgers
/// left gets `extend_to` of them, or the network's longest lifetime if that
/// is less; it never loses any. No value changes, and no other entry. The
/// host refuses a key without an entry and a threshold above `extend_to`.
#[verifier::external_body]
pub(crate) fn persistent_extend_ttl(env: &mut Env, key: &Val, threshold: u32, extend_to: u32)
    requires
        is_key(datum(*key)),
        slots(*old(env)).contains_key(datum(*key)),
        threshold <= extend_to,
    ensures
        slots(*final(env)) == slots(*old(env)).insert(
            datum(*key),
            (Slot {
                value: slots(*old(env))[datum(*key)].value,
                lifetime: prolonged(
                    slots(*old(env))[datum(*key)].lifetime,
                    longest_lifetime(*old(env)),
                    threshold as nat,
                    extend_to as nat,
                ),
            }),
        ),
        fresh_lifetime(*final(env)) == fresh_lifetime(*old(env)),
        longest_lifetime(*final(env)) == longest_lifetime(*old(env)),
        further_levels(*final(env)) == further_levels(*old(env)),
{
    env.storage().persistent().extend_ttl(key, threshold, extend_to)
}

/// `Ledger::sequence`: the number of the current ledger. It moves on with
/// time, and nothing is claimed of it.
#[verifier::external_body]
pub(crate) fn ledger_sequence(env: &Env) -> (r: u32) {
    env.ledger().sequence()
}

/// `Ledger::timestamp`: the closing time of the current ledger. Nothing is
/// claimed of it.
#[verifier::external_body]
pub(crate) fn ledger_timestamp(env: &Env) -> (r: u64) {
    env.ledger().timestamp()
}

/// `Address::eq`: whether two addresses are the same.
#[verifier::external_body]
pub(crate) fn same_address(a: &Address, b: &Address) -> (r: bool)
    ensures
        r == (*a == *b),
{
    a == b
}

/// `Address::clone`: the same address.
pub assume_specification[ <Address as Clone>::clone ](a: &Address) -> (r: Address)
    ensures
        r == *a,
;

/// `String::clone`: a host string with the same bytes.
pub assume_specification[ <soroban_sdk::String as Clone>::clone ](text: &soroban_sdk::String) -> (r:
    soroban_sdk::String)
    ensures
        string_bytes(r) == string_bytes(*text),
;

/// `Symbol::clone`: a symbol with the same characters.
pub assume_specification[ <Symbol as Clone>::clone ](name: &Symbol) -> (r: Symbol)
    ensures
        symbol_text(r) == symbol_text(*name),
;

/// `Symbol::new`: the symbol with the characters of `text`. The SDK refuses a
/// text that is too long or holds another character.
#[verifier::external_body]
pub(crate) fn symbol(env: &Env, text: &str) -> (r: Symbol)
    requires
        is_symbol_text(text@),
    ensures
        symbol_text(r) == text@,
{
    Symbol::new(env, text)
}

/// `Symbol::eq`: whether two symbols have the same characters.
#[verifier::external_body]
pub(crate) fn same_symbol(a: &Symbol, b: &Symbol) -> (r: bool)
    ensures
        r == (symbol_text(*a) == symbol_text(*b)),
{
    a == b
}

/// `String::len`: the number of bytes of a host string.
#[verifier::external_body]
pub(crate) fn string_len(text: &soroban_sdk::String) -> (r: u32)
    ensures
        r == string_bytes(*text).len(),
{
    text.len()
}

/// `IntoVal::into_val` of `u32`: the number as a host value.
#[verifier::external_body]
pub(crate) fn number_value(env: &Env, n: u32) -> (r: Val)
    ensures
        datum(r) == Datum::Number(n),
{
    n.into_val(env)
}

/// `IntoVal::into_val` of `u64`: the number as a host value.
#[verifier::external_body]
pub(crate) fn long_value(env: &Env, n: u64) -> (r: Val)
    ensures
        datum(r) == Datum::Long(n),
{
    n.into_val(env)
}

/// `IntoVal::into_val` of `i128`: the number as a host value.
#[verifier::external_body]
pub(crate) fn amount_value(env: &Env, n: i128) -> (r: Val)
    ensures
        datum(r) == Datum::Amount(n),
{
    n.into_val(env)
}

/// `IntoVal::into_val` of `bool`: the flag as a host value.
#[verifier::external_body]
pub(crate) fn flag_value(env: &Env, b: bool) -> (r: Val)
    ensures
        datum(r) == Datum::Flag(b),
{
    b.into_val(env)
}

/// `Address::to_val`: an address as a host value.
#[verifier::external_body]
pub(crate) fn account_value(a: &Address) -> (r: Val)
    ensures
        datum(r) == Datum::Account(*a),
{
    a.to_val()
}

/// `String::to_val`: a host string as a host value.
#[verifier::external_body]
pub(crate) fn text_value(text: &soroban_sdk::String) -> (r: Val)
    ensures
        datum(r) == Datum::Text(string_bytes(*text)),
{
    text.to_val()
}

/// `Symbol::to_val`: a symbol as a host value.
#[verifier::external_body]
pub(crate) fn name_value(name: &Symbol) -> (r: Val)
    ensures
        datum(r) == Datum::Name(symbol_text(*name)),
{
    name.to_val()
}

/// `Vec::from_slice` and `Vec::to_val`: a host list of these values, as a
/// host value.
#[verifier::external_body]
pub(crate) fn list_value(env: &Env, items: &Vec<Val>) -> (r: Val)
    requires
        items@.len() <= u32::MAX,
    ensures
        datum(r) == Datum::List(items@.map_values(|item: Val| datum(item))),
{
    soroban_sdk::Vec::from_slice(env, items).to_val()
}

/// `Map::to_val`: a host map with symbol keys as a host value.
#[verifier::external_body]
pub(crate) fn record_value(record: &soroban_sdk::Map<Symbol, Val>) -> (r: Val)
    requires
        has_only_names(*record),
    ensures
        datum(r) == Datum::Record(record_fields(*record)),
{
    record.to_val()
}

/// `TryFromVal::try_from_val` of `u32`: the number that a host value holds, where
/// it holds one.
#[verifier::external_body]
pub(crate) fn as_number(env: &Env, value: &Val) -> (r: Option<u32>)
    ensures
        r == (match datum(*value) {
            Datum::Number(n) => Some(n),
            _ => None,
        }),
{
    u32::try_from_val(env, value).ok()
}

/// `TryFromVal::try_from_val` of `u64`: the number that a host value holds, where
/// it holds one.
#[verifier::external_body]
pub(crate) fn as_long(env: &Env, value: &Val) -> (r: Option<u64>)
    ensures
        r == (match datum(*value) {
            Datum::Long(n) => Some(n),
            _ => None,
        }),
{
    u64::try_from_val(env, value).ok()
}

/// `TryFromVal::try_from_val` of `i128`: the number that a host value holds, where
/// it holds one.
#[verifier::external_body]
pub(crate) fn as_amount(env: &Env, value: &Val) -> (r: Option<i128>)
    ensures
        r == (match datum(*value) {
            Datum::Amount(n) => Some(n),
            _ => None,
        }),
{
    i128::try_from_val(env, value).ok()
}

/// `TryFromVal::try_from_val` of `bool`: the flag that a host value holds, where it
/// holds one.
#[verifier::external_body]
pub(crate) fn as_flag(env: &Env, value: &Val) -> (r: Option<bool>)
    ensures
        r == (match datum(*value) {
            Datum::Flag(b) => Some(b),
            _ => None,
        }),
{
    bool::try_from_val(env, value).ok()
}

/// `TryFromVal::try_from_val` of `Address`: the address that a host value holds,
/// where it holds one.
#[verifier::external_body]
pub(crate) fn as_account(env: &Env, value: &Val) -> (r: Option<Address>)
    ensures
        r == (match datum(*value) {
            Datum::Account(a) => Some(a),
            _ => None,
        }),
{
    Address::try_from_val(env, value).ok()
}

/// `TryFromVal::try_from_val` of `String`: the host string that a host value is,
/// where it is one.
#[verifier::external_body]
pub(crate) fn as_text(env: &Env, value: &Val) -> (r: Option<soroban_sdk::String>)
    ensures
        r is Some <==> datum(*value) is Text,
        r is Some ==> datum(*value) == Datum::Text(string_bytes(r->0)),
{
    soroban_sdk::String::try_from_val(env, value).ok()
}

/// `TryFromVal::try_from_val` of `Symbol`: the symbol that a host value is, where
/// it is one.
#[verifier::external_body]
pub(crate) fn as_name(env: &Env, value: &Val) -> (r: Option<Symbol>)
    ensures
        r is Some <==> datum(*value) is Name,
        r is Some ==> datum(*value) == Datum::Name(symbol_text(r->0)),
{
    Symbol::try_from_val(env, value).ok()
}

/// `TryFromVal::try_from_val` of `Vec`: the items, in their order, of the host
/// list that a host value is, where it is one.
#[verifier::external_body]
pub(crate) fn as_list(env: &Env, value: &Val) -> (r: Option<Vec<Val>>)
    ensures
        r is Some <==> datum(*value) is List,
        r is Some ==> datum(*value) == Datum::List(r->0@.map_values(|item: Val| datum(item))),
        r is Some ==> r->0@.len() <= u32::MAX,
{
    match soroban_sdk::Vec::<Val>::try_from_val(env, value) {
        Ok(list) => Some(list.iter().collect()),
        Err(_) => None,
    }
}

/// `TryFromVal::try_from_val` of `Map`: the host map that a host value is, where
/// it is one. The conversion does not look at the keys.
#[verifier::external_body]
pub(crate) fn as_record(env: &Env, value: &Val) -> (r: Option<soroban_sdk::Map<Symbol, Val>>)
    ensures
        datum(*value) is Record <==> r is Some && has_only_names(r->0),
        datum(*value) is Record ==> datum(*value) == Datum::Record(record_fields(r->0)),
{
    soroban_sdk::Map::try_from_val(env, value).ok()
}

/// `Map::try_iter`: whether every key of a host map is a symbol. (Every value of a
/// host map is a host value, so that only a key can fail to convert.)
#[verifier::external_body]
pub(crate) fn only_names(record: &soroban_sdk::Map<Symbol, Val>) -> (r: bool)
    ensures
        r == has_only_names(*record),
{
    record.try_iter().collect::<Result<Vec<(Symbol, Val)>, _>>().is_ok()
}

/// `Map::new`: a host map without entries.
#[verifier::external_body]
pub(crate) fn record_new(env: &Env) -> (r: soroban_sdk::Map<Symbol, Val>)
    ensures
        record_fields(r) == no_fields(),
        has_only_names(r),
{
    soroban_sdk::Map::new(env)
}

/// `Map::set`: puts `value` under `name`. No other entry changes.
#[verifier::external_body]
pub(crate) fn record_set(record: &mut soroban_sdk::Map<Symbol, Val>, name: Symbol, value: Val)
    ensures
        record_fields(*final(record)) == record_fields(*old(record)).insert(
            symbol_text(name),
            datum(value),
        ),
        has_only_names(*final(record)) == has_only_names(*old(record)),
{
    record.set(name, value)
}

/// `Map::get`: the value under `name`, or `None` where there is no entry.
#[verifier::external_body]
pub(crate) fn record_get(record: &soroban_sdk::Map<Symbol, Val>, name: Symbol) -> (r: Option<Val>)
    ensures
        r is Some <==> record_fields(*record).contains_key(symbol_text(name)),
        r is Some ==> datum(r->0) == record_fields(*record)[symbol_text(name)],
{
    record.get(name)
}

/// `Vec::try_iter`, for addresses: the items of the list in their order, or
/// `None` if an item is no address.
#[verifier::external_body]
pub(crate) fn list_of_addresses(list: &soroban_sdk::Vec<Address>) -> (r: Option<Vec<Address>>)
    ensures
        r is Some <==> address_items(*list) is Some,
        r is Some ==> r->0@ == address_items(*list)->0,
        r is Some ==> r->0@.len() <= u32::MAX,
{
    list.try_iter().collect::<Result<Vec<Address>, _>>().ok()
}

/// `Vec::try_iter`, for `u32`: the items of the list in their order, or
/// `None` if an item is of another kind.
#[verifier::external_body]
pub(crate) fn list_of_numbers(list: &soroban_sdk::Vec<u32>) -> (r: Option<Vec<u32>>)
    ensures
        r is Some <==> number_items(*list) is Some,
        r is Some ==> r->0@ == number_items(*list)->0,
        r is Some ==> r->0@.len() <= u32::MAX,
{
    list.try_iter().collect::<Result<Vec<u32>, _>>().ok()
}

/// `Vec::try_iter`, for `i128`: the items of the list in their order, or
/// `None` if an item is of another kind.
#[verifier::external_body]
pub(crate) fn list_of_amounts(list: &soroban_sdk::Vec<i128>) -> (r: Option<Vec<i128>>)
    ensures
        r is Some <==> amount_items(*list) is Some,
        r is Some ==> r->0@ == amount_items(*list)->0,
        r is Some ==> r->0@.len() <= u32::MAX,
{
    list.try_iter().collect::<Result<Vec<i128>, _>>().ok()
}

/// `Vec::to_val`, for a host list of addresses: the same list as a host value.
#[verifier::external_body]
pub(crate) fn address_list_value(list: &soroban_sdk::Vec<Address>) -> (r: Val)
    ensures
        address_items(*list) is Some ==> datum(r) == Datum::List(
            address_items(*list)->0.map_values(|a: Address| Datum::Account(a)),
        ),
{
    list.to_val()
}

/// `Vec::to_val`, for a host list of `u32`: the same list as a host value.
#[verifier::external_body]
pub(crate) fn number_list_value(list: &soroban_sdk::Vec<u32>) -> (r: Val)
    ensures
        number_items(*list) is Some ==> datum(r) == Datum::List(
            number_items(*list)->0.map_values(|n: u32| Datum::Number(n)),
        ),
{
    list.to_val()
}

/// `Vec::from_slice`, for `u32`: the host list of these numbers.
#[verifier::external_body]
pub(crate) fn number_list(env: &Env, items: &Vec<u32>) -> (r: soroban_sdk::Vec<u32>)
    requires
        items@.len() <= u32::MAX,
    ensures
        number_items(r) == Some(items@),
{
    soroban_sdk::Vec::from_slice(env, items)
}

} // verus!
