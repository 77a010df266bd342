//! How records are laid out in storage: a map from the names of the fields to
//! their values.
//!
//! A record is read back from any map that has only names as keys and has all of
//! the record's fields, each with a value of the right kind; what other fields the
//! map has does not matter. Of the list of recipients in a stream, the items are
//! read one by one, and an item of another kind matters only to a call that needs
//! it.
use soroban_sdk::{Address, Env, Symbol, Val};
use vstd::prelude::*;

use crate::outcome::Trap;
use crate::sdk::{account_value, amount_value, as_account, as_amount, as_flag, as_list, as_long,
    as_name, as_number, as_record, as_text, datum, flag_value, further_levels, has_only_names,
    is_storable, is_symbol_text, list_value, long_value, name_value, nests, no_fields, number_value,
    only_names, record_fields, record_get, record_new, record_set, record_value, same_symbol,
    string_bytes, symbol, symbol_text, text_value, Datum};
use crate::storage::{read, storage, Storage};
use crate::types::{DataKey, Escrow, EscrowStatus, LegacyReceiptMetadata, ReceiptMetadata, Stream,
    StreamRecipient, TipRecord};

verus! {

/// A receipt, with the bytes of its memo.
pub struct ReceiptView {
    pub from: Address,
    pub to: Address,
    pub amount: i128,
    pub timestamp: u64,
    pub memo: Seq<u8>,
    pub ledger: u32,
}

impl View for ReceiptMetadata {
    type V = ReceiptView;

    open spec fn view(&self) -> ReceiptView {
        ReceiptView {
            from: self.from,
            to: self.to,
            amount: self.amount,
            timestamp: self.timestamp,
            memo: string_bytes(self.memo),
            ledger: self.ledger,
        }
    }
}

/// A legacy receipt, with the characters of its memo.
pub struct LegacyReceiptView {
    pub from: Address,
    pub to: Address,
    pub amount: i128,
    pub timestamp: u64,
    pub memo: Seq<char>,
    pub ledger: u32,
}

impl View for LegacyReceiptMetadata {
    type V = LegacyReceiptView;

    open spec fn view(&self) -> LegacyReceiptView {
        LegacyReceiptView {
            from: self.from,
            to: self.to,
            amount: self.amount,
            timestamp: self.timestamp,
            memo: symbol_text(self.memo),
            ledger: self.ledger,
        }
    }
}

impl Clone for ReceiptMetadata {
    fn clone(&self) -> (r: Self)
        ensures
            r@ == self@,
    {
        ReceiptMetadata {
            from: self.from.clone(),
            to: self.to.clone(),
            amount: self.amount,
            timestamp: self.timestamp,
            memo: self.memo.clone(),
            ledger: self.ledger,
        }
    }
}

impl Clone for LegacyReceiptMetadata {
    fn clone(&self) -> (r: Self)
        ensures
            r@ == self@,
    {
        LegacyReceiptMetadata {
            from: self.from.clone(),
            to: self.to.clone(),
            amount: self.amount,
            timestamp: self.timestamp,
            memo: self.memo.clone(),
            ledger: self.ledger,
        }
    }
}

/// A stream, with its recipients as a sequence.
#[verifier::ext_equal]
pub struct StreamView {
    pub payer: Address,
    pub recipients: Seq<StreamRecipient>,
    /// The items of the stored list of recipients, where that list does not hold
    /// just these recipients. No call of the contract begins such a list, but one
    /// that is there is kept, and as much of it is read as a call needs.
    pub odd: Option<Seq<Datum>>,
    pub rate_per_ledger: i128,
    pub deposited: i128,
    pub start_ledger: u32,
    pub token: Address,
    pub paused: bool,
    pub paused_at_ledger: u32,
    pub paused_ledgers: u32,
    pub closed: bool,
}

impl View for Stream {
    type V = StreamView;

    open spec fn view(&self) -> StreamView {
        StreamView {
            payer: self.payer,
            recipients: self.recipients@,
            odd: match self.stored {
                Some(items) => odd_items(self.recipients@, contents(items@)),
                None => None,
            },
            rate_per_ledger: self.rate_per_ledger,
            deposited: self.deposited,
            start_ledger: self.start_ledger,
            token: self.token,
            paused: self.paused,
            paused_at_ledger: self.paused_at_ledger,
            paused_ledgers: self.paused_ledgers,
            closed: self.closed,
        }
    }
}

/// The field `name` of a record, where it is an address.
pub open spec fn account_field(fields: Map<Seq<char>, Datum>, name: Seq<char>) -> Option<Address> {
    if fields.contains_key(name) {
        match fields[name] {
            Datum::Account(value) => Some(value),
            _ => None,
        }
    } else {
        None
    }
}

/// The field `name` of a record, where it is an `i128`.
pub open spec fn amount_field(fields: Map<Seq<char>, Datum>, name: Seq<char>) -> Option<i128> {
    if fields.contains_key(name) {
        match fields[name] {
            Datum::Amount(value) => Some(value),
            _ => None,
        }
    } else {
        None
    }
}

/// The field `name` of a record, where it is a `u32`.
pub open spec fn number_field(fields: Map<Seq<char>, Datum>, name: Seq<char>) -> Option<u32> {
    if fields.contains_key(name) {
        match fields[name] {
            Datum::Number(value) => Some(value),
            _ => None,
        }
    } else {
        None
    }
}

/// The field `name` of a record, where it is a `u64`.
pub open spec fn long_field(fields: Map<Seq<char>, Datum>, name: Seq<char>) -> Option<u64> {
    if fields.contains_key(name) {
        match fields[name] {
            Datum::Long(value) => Some(value),
            _ => None,
        }
    } else {
        None
    }
}

/// The field `name` of a record, where it is a `bool`.
pub open spec fn flag_field(fields: Map<Seq<char>, Datum>, name: Seq<char>) -> Option<bool> {
    if fields.contains_key(name) {
        match fields[name] {
            Datum::Flag(value) => Some(value),
            _ => None,
        }
    } else {
        None
    }
}

/// The field `name` of a record, where it is a text.
pub open spec fn text_field(fields: Map<Seq<char>, Datum>, name: Seq<char>) -> Option<Seq<u8>> {
    if fields.contains_key(name) {
        match fields[name] {
            Datum::Text(value) => Some(value),
            _ => None,
        }
    } else {
        None
    }
}

/// The field `name` of a record, where it is a symbol.
pub open spec fn name_field(fields: Map<Seq<char>, Datum>, name: Seq<char>) -> Option<Seq<char>> {
    if fields.contains_key(name) {
        match fields[name] {
            Datum::Name(value) => Some(value),
            _ => None,
        }
    } else {
        None
    }
}

fn get_account(env: &Env, record: &soroban_sdk::Map<Symbol, Val>, name: &str) -> (r: Option<Address>)
    requires
        is_symbol_text(name@),
    ensures
        r == account_field(record_fields(*record), name@),
{
    as_account(env, &record_get(record, symbol(env, name))?)
}

fn get_amount(env: &Env, record: &soroban_sdk::Map<Symbol, Val>, name: &str) -> (r: Option<i128>)
    requires
        is_symbol_text(name@),
    ensures
        r == amount_field(record_fields(*record), name@),
{
    as_amount(env, &record_get(record, symbol(env, name))?)
}

fn get_number(env: &Env, record: &soroban_sdk::Map<Symbol, Val>, name: &str) -> (r: Option<u32>)
    requires
        is_symbol_text(name@),
    ensures
        r == number_field(record_fields(*record), name@),
{
    as_number(env, &record_get(record, symbol(env, name))?)
}

fn get_long(env: &Env, record: &soroban_sdk::Map<Symbol, Val>, name: &str) -> (r: Option<u64>)
    requires
        is_symbol_text(name@),
    ensures
        r == long_field(record_fields(*record), name@),
{
    as_long(env, &record_get(record, symbol(env, name))?)
}

fn get_flag(env: &Env, record: &soroban_sdk::Map<Symbol, Val>, name: &str) -> (r: Option<bool>)
    requires
        is_symbol_text(name@),
    ensures
        r == flag_field(record_fields(*record), name@),
{
    as_flag(env, &record_get(record, symbol(env, name))?)
}

fn get_text(env: &Env, record: &soroban_sdk::Map<Symbol, Val>, name: &str) -> (r: Option<
    soroban_sdk::String,
>)
    requires
        is_symbol_text(name@),
    ensures
        r is Some <==> text_field(record_fields(*record), name@) is Some,
        r is Some ==> text_field(record_fields(*record), name@) == Some(string_bytes(r->0)),
{
    as_text(env, &record_get(record, symbol(env, name))?)
}

fn get_name(env: &Env, record: &soroban_sdk::Map<Symbol, Val>, name: &str) -> (r: Option<Symbol>)
    requires
        is_symbol_text(name@),
    ensures
        r is Some <==> name_field(record_fields(*record), name@) is Some,
        r is Some ==> name_field(record_fields(*record), name@) == Some(symbol_text(r->0)),
{
    as_name(env, &record_get(record, symbol(env, name))?)
}

/// The record that a host value is, where it is one.
fn read_record(env: &Env, value: &Val) -> (r: Option<soroban_sdk::Map<Symbol, Val>>)
    ensures
        r is Some <==> datum(*value) is Record,
        r is Some ==> datum(*value) == Datum::Record(record_fields(r->0)),
{
    let record = as_record(env, value)?;
    if only_names(&record) {
        Some(record)
    } else {
        None
    }
}

/// Fields of which each nests at most `levels` deep.
pub open spec fn fields_nest(fields: Map<Seq<char>, Datum>, levels: nat) -> bool {
    forall|name: Seq<char>| #[trigger] fields.contains_key(name) ==> nests(fields[name], levels)
}

fn add_field(
    env: &Env,
    record: &mut soroban_sdk::Map<Symbol, Val>,
    name: &str,
    value: Val,
)
    requires
        is_symbol_text(name@),
    ensures
        record_fields(*final(record)) == record_fields(*old(record)).insert(name@, datum(value)),
        has_only_names(*final(record)) == has_only_names(*old(record)),
        forall|levels: nat|
            fields_nest(record_fields(*old(record)), levels) && nests(datum(value), levels)
                ==> #[trigger] fields_nest(record_fields(*final(record)), levels),
{
    record_set(record, symbol(env, name), value)
}

impl EscrowStatus {
    /// The name of the status.
    pub open spec fn tag(self) -> Seq<char> {
        match self {
            EscrowStatus::Pending => "Pending"@,
            EscrowStatus::Released => "Released"@,
            EscrowStatus::Cancelled => "Cancelled"@,
        }
    }

    /// The status as a host value: a list of its name alone.
    pub open spec fn encoded(self) -> Datum {
        Datum::List(seq![Datum::Name(self.tag())])
    }

    /// The status that a host value stands for.
    pub open spec fn decoded(value: Datum) -> Option<EscrowStatus> {
        match value {
            Datum::List(items) => if items.len() == 1 && items[0] is Name {
                let tag = items[0]->Name_0;
                if tag == EscrowStatus::Pending.tag() {
                    Some(EscrowStatus::Pending)
                } else if tag == EscrowStatus::Released.tag() {
                    Some(EscrowStatus::Released)
                } else if tag == EscrowStatus::Cancelled.tag() {
                    Some(EscrowStatus::Cancelled)
                } else {
                    None
                }
            } else {
                None
            },
            _ => None,
        }
    }

    proof fn lemma_tags()
        ensures
            forall|status: EscrowStatus| is_symbol_text(#[trigger] status.tag()),
            forall|status: EscrowStatus|
                EscrowStatus::decoded(#[trigger] status.encoded()) == Some(status),
    {
        reveal_strlit("Pending");
        reveal_strlit("Released");
        reveal_strlit("Cancelled");
        assert forall|status: EscrowStatus| is_symbol_text(#[trigger] status.tag()) by {}
    }

    fn name(self) -> (r: &'static str)
        ensures
            r@ == self.tag(),
    {
        match self {
            EscrowStatus::Pending => "Pending",
            EscrowStatus::Released => "Released",
            EscrowStatus::Cancelled => "Cancelled",
        }
    }

    fn encode(self, env: &Env) -> (r: Val)
        ensures
            datum(r) == self.encoded(),
            nests(datum(r), 2 + further_levels(*env)),
    {
        proof {
            EscrowStatus::lemma_tags();
        }
        let items: Vec<Val> = vec![name_value(&symbol(env, self.name()))];
        assert(items@.map_values(|v: Val| datum(v)) =~= seq![Datum::Name(self.tag())]);
        assert(nests(Datum::Name(self.tag()), 1 + further_levels(*env)));
        list_value(env, &items)
    }

    fn decode(env: &Env, value: &Val) -> (r: Option<EscrowStatus>)
        ensures
            r == EscrowStatus::decoded(datum(*value)),
    {
        proof {
            EscrowStatus::lemma_tags();
        }
        let items = as_list(env, value)?;
        let ghost data = items@.map_values(|v: Val| datum(v));
        assert(data.len() == items@.len());
        if items.len() != 1 {
            return None;
        }
        assert(data[0] == datum(items@[0]));
        let tag = as_name(env, &items[0])?;
        if same_symbol(&tag, &symbol(env, EscrowStatus::Pending.name())) {
            Some(EscrowStatus::Pending)
        } else if same_symbol(&tag, &symbol(env, EscrowStatus::Released.name())) {
            Some(EscrowStatus::Released)
        } else if same_symbol(&tag, &symbol(env, EscrowStatus::Cancelled.name())) {
            Some(EscrowStatus::Cancelled)
        } else {
            None
        }
    }
}

/// The field `name` of a record, where it is the status of an escrow.
pub open spec fn status_field(fields: Map<Seq<char>, Datum>, name: Seq<char>) -> Option<
    EscrowStatus,
> {
    if fields.contains_key(name) {
        EscrowStatus::decoded(fields[name])
    } else {
        None
    }
}

fn get_status(env: &Env, record: &soroban_sdk::Map<Symbol, Val>, name: &str) -> (r: Option<
    EscrowStatus,
>)
    requires
        is_symbol_text(name@),
    ensures
        r == status_field(record_fields(*record), name@),
{
    EscrowStatus::decode(env, &record_get(record, symbol(env, name))?)
}

impl TipRecord {
    /// A tip as a host value.
    #[verifier::opaque]
    pub open spec fn encoded(self) -> Datum {
        Datum::Record(
            no_fields()
                .insert("amount"@, Datum::Amount(self.amount))
                .insert("from"@, Datum::Account(self.from))
                .insert("ledger"@, Datum::Number(self.ledger))
                .insert("to"@, Datum::Account(self.to))
        )
    }

    /// A tip that a host value stands for.
    #[verifier::opaque]
    pub open spec fn decoded(value: Datum) -> Option<TipRecord> {
        match value {
            Datum::Record(fields) => {
                let amount = amount_field(fields, "amount"@);
                let from = account_field(fields, "from"@);
                let ledger = number_field(fields, "ledger"@);
                let to = account_field(fields, "to"@);
                if amount is Some
                    && from is Some
                    && ledger is Some
                    && to is Some
                {
                    Some(TipRecord {
                        amount: amount->0,
                        from: from->0,
                        ledger: ledger->0,
                        to: to->0,
                    })
                } else {
                    None
                }
            },
            _ => None,
        }
    }

    proof fn lemma_names()
        ensures
            is_symbol_text("amount"@),
            is_symbol_text("from"@),
            is_symbol_text("ledger"@),
            is_symbol_text("to"@),
    {
        reveal_strlit("amount");
        reveal_strlit("from");
        reveal_strlit("ledger");
        reveal_strlit("to");
    }

    /// A record is read back as it was written.
    pub proof fn lemma_round_trip(self)
        ensures
            TipRecord::decoded(self.encoded()) == Some(self),
    {
        reveal(TipRecord::encoded);
        reveal(TipRecord::decoded);
        reveal_strlit("amount");
        reveal_strlit("from");
        reveal_strlit("ledger");
        reveal_strlit("to");
        assert("amount"@.len() == 6);
        assert("from"@.len() == 4);
        assert("ledger"@.len() == 6);
        assert("to"@.len() == 2);
        assert("amount"@[0] != "ledger"@[0]);
    }
}

impl TipRecord {
    /// The record as a host value.
    pub(crate) fn encode(&self, env: &Env) -> (r: Val)
        ensures
            datum(r) == self.encoded(),
            is_storable(*env, datum(r)),
    {
        proof {
            TipRecord::lemma_names();
            reveal(TipRecord::encoded);
            reveal(TipRecord::decoded);
        }
        let mut record = record_new(env);
        add_field(env, &mut record, "amount", amount_value(env, self.amount));
        add_field(env, &mut record, "from", account_value(&self.from));
        add_field(env, &mut record, "ledger", number_value(env, self.ledger));
        add_field(env, &mut record, "to", account_value(&self.to));
        assert(fields_nest(record_fields(record), 2 + further_levels(*env)));
        record_value(&record)
    }

    /// The record that a host value stands for.
    pub(crate) fn decode(env: &Env, value: &Val) -> (r: Option<TipRecord>)
        ensures
            r == TipRecord::decoded(datum(*value)),
    {
        proof {
            TipRecord::lemma_names();
            reveal(TipRecord::encoded);
            reveal(TipRecord::decoded);
        }
        let record = read_record(env, value)?;
        let amount = get_amount(env, &record, "amount")?;
        let from = get_account(env, &record, "from")?;
        let ledger = get_number(env, &record, "ledger")?;
        let to = get_account(env, &record, "to")?;
        Some(TipRecord { amount, from, ledger, to })
    }
}

impl ReceiptView {
    /// A receipt as a host value.
    #[verifier::opaque]
    pub open spec fn encoded(self) -> Datum {
        Datum::Record(
            no_fields()
                .insert("amount"@, Datum::Amount(self.amount))
                .insert("from"@, Datum::Account(self.from))
                .insert("ledger"@, Datum::Number(self.ledger))
                .insert("memo"@, Datum::Text(self.memo))
                .insert("timestamp"@, Datum::Long(self.timestamp))
                .insert("to"@, Datum::Account(self.to))
        )
    }

    /// A receipt that a host value stands for.
    #[verifier::opaque]
    pub open spec fn decoded(value: Datum) -> Option<ReceiptView> {
        match value {
            Datum::Record(fields) => {
                let amount = amount_field(fields, "amount"@);
                let from = account_field(fields, "from"@);
                let ledger = number_field(fields, "ledger"@);
                let memo = text_field(fields, "memo"@);
                let timestamp = long_field(fields, "timestamp"@);
                let to = account_field(fields, "to"@);
                if amount is Some
                    && from is Some
                    && ledger is Some
                    && memo is Some
                    && timestamp is Some
                    && to is Some
                {
                    Some(ReceiptView {
                        amount: amount->0,
                        from: from->0,
                        ledger: ledger->0,
                        memo: memo->0,
                        timestamp: timestamp->0,
                        to: to->0,
                    })
                } else {
                    None
                }
            },
            _ => None,
        }
    }

    proof fn lemma_names()
        ensures
            is_symbol_text("amount"@),
            is_symbol_text("from"@),
            is_symbol_text("ledger"@),
            is_symbol_text("memo"@),
            is_symbol_text("timestamp"@),
            is_symbol_text("to"@),
    {
        reveal_strlit("amount");
        reveal_strlit("from");
        reveal_strlit("ledger");
        reveal_strlit("memo");
        reveal_strlit("timestamp");
        reveal_strlit("to");
    }

    /// A record is read back as it was written.
    pub proof fn lemma_round_trip(self)
        ensures
            ReceiptView::decoded(self.encoded()) == Some(self),
    {
        reveal(ReceiptView::encoded);
        reveal(ReceiptView::decoded);
        reveal_strlit("amount");
        reveal_strlit("from");
        reveal_strlit("ledger");
        reveal_strlit("memo");
        reveal_strlit("timestamp");
        reveal_strlit("to");
        assert("amount"@.len() == 6);
        assert("from"@.len() == 4);
        assert("ledger"@.len() == 6);
        assert("memo"@.len() == 4);
        assert("timestamp"@.len() == 9);
        assert("to"@.len() == 2);
        assert("amount"@[0] != "ledger"@[0]);
        assert("from"@[0] != "memo"@[0]);
    }
}

impl ReceiptMetadata {
    /// The record as a host value.
    pub(crate) fn encode(&self, env: &Env) -> (r: Val)
        ensures
            datum(r) == self@.encoded(),
            is_storable(*env, datum(r)),
    {
        proof {
            ReceiptView::lemma_names();
            reveal(ReceiptView::encoded);
            reveal(ReceiptView::decoded);
        }
        let mut record = record_new(env);
        add_field(env, &mut record, "amount", amount_value(env, self.amount));
        add_field(env, &mut record, "from", account_value(&self.from));
        add_field(env, &mut record, "ledger", number_value(env, self.ledger));
        add_field(env, &mut record, "memo", text_value(&self.memo));
        add_field(env, &mut record, "timestamp", long_value(env, self.timestamp));
        add_field(env, &mut record, "to", account_value(&self.to));
        assert(fields_nest(record_fields(record), 2 + further_levels(*env)));
        record_value(&record)
    }

    /// The record that a host value stands for.
    pub(crate) fn decode(env: &Env, value: &Val) -> (r: Option<ReceiptMetadata>)
        ensures
            r is Some <==> ReceiptView::decoded(datum(*value)) is Some,
            r is Some ==> ReceiptView::decoded(datum(*value)) == Some(r->0@),
    {
        proof {
            ReceiptView::lemma_names();
            reveal(ReceiptView::encoded);
            reveal(ReceiptView::decoded);
        }
        let record = read_record(env, value)?;
        let amount = get_amount(env, &record, "amount")?;
        let from = get_account(env, &record, "from")?;
        let ledger = get_number(env, &record, "ledger")?;
        let memo = get_text(env, &record, "memo")?;
        let timestamp = get_long(env, &record, "timestamp")?;
        let to = get_account(env, &record, "to")?;
        Some(ReceiptMetadata { amount, from, ledger, memo, timestamp, to })
    }
}

impl LegacyReceiptView {
    /// A legacy receipt as a host value.
    #[verifier::opaque]
    pub open spec fn encoded(self) -> Datum {
        Datum::Record(
            no_fields()
                .insert("amount"@, Datum::Amount(self.amount))
                .insert("from"@, Datum::Account(self.from))
                .insert("ledger"@, Datum::Number(self.ledger))
                .insert("memo"@, Datum::Name(self.memo))
                .insert("timestamp"@, Datum::Long(self.timestamp))
                .insert("to"@, Datum::Account(self.to))
        )
    }

    /// A legacy receipt that a host value stands for.
    #[verifier::opaque]
    pub open spec fn decoded(value: Datum) -> Option<LegacyReceiptView> {
        match value {
            Datum::Record(fields) => {
                let amount = amount_field(fields, "amount"@);
                let from = account_field(fields, "from"@);
                let ledger = number_field(fields, "ledger"@);
                let memo = name_field(fields, "memo"@);
                let timestamp = long_field(fields, "timestamp"@);
                let to = account_field(fields, "to"@);
                if amount is Some
                    && from is Some
                    && ledger is Some
                    && memo is Some
                    && timestamp is Some
                    && to is Some
                {
                    Some(LegacyReceiptView {
                        amount: amount->0,
                        from: from->0,
                        ledger: ledger->0,
                        memo: memo->0,
                        timestamp: timestamp->0,
                        to: to->0,
                    })
                } else {
                    None
                }
            },
            _ => None,
        }
    }

    proof fn lemma_names()
        ensures
            is_symbol_text("amount"@),
            is_symbol_text("from"@),
            is_symbol_text("ledger"@),
            is_symbol_text("memo"@),
            is_symbol_text("timestamp"@),
            is_symbol_text("to"@),
    {
        reveal_strlit("amount");
        reveal_strlit("from");
        reveal_strlit("ledger");
        reveal_strlit("memo");
        reveal_strlit("timestamp");
        reveal_strlit("to");
    }

    /// A record is read back as it was written.
    pub proof fn lemma_round_trip(self)
        ensures
            LegacyReceiptView::decoded(self.encoded()) == Some(self),
    {
        reveal(LegacyReceiptView::encoded);
        reveal(LegacyReceiptView::decoded);
        reveal_strlit("amount");
        reveal_strlit("from");
        reveal_strlit("ledger");
        reveal_strlit("memo");
        reveal_strlit("timestamp");
        reveal_strlit("to");
        assert("amount"@.len() == 6);
        assert("from"@.len() == 4);
        assert("ledger"@.len() == 6);
        assert("memo"@.len() == 4);
        assert("timestamp"@.len() == 9);
        assert("to"@.len() == 2);
        assert("amount"@[0] != "ledger"@[0]);
        assert("from"@[0] != "memo"@[0]);
    }
}

impl LegacyReceiptMetadata {
    /// The record that a host value stands for.
    pub(crate) fn decode(env: &Env, value: &Val) -> (r: Option<LegacyReceiptMetadata>)
        ensures
            r is Some <==> LegacyReceiptView::decoded(datum(*value)) is Some,
            r is Some ==> LegacyReceiptView::decoded(datum(*value)) == Some(r->0@),
    {
        proof {
            LegacyReceiptView::lemma_names();
            reveal(LegacyReceiptView::encoded);
            reveal(LegacyReceiptView::decoded);
        }
        let record = read_record(env, value)?;
        let amount = get_amount(env, &record, "amount")?;
        let from = get_account(env, &record, "from")?;
        let ledger = get_number(env, &record, "ledger")?;
        let memo = get_name(env, &record, "memo")?;
        let timestamp = get_long(env, &record, "timestamp")?;
        let to = get_account(env, &record, "to")?;
        Some(LegacyReceiptMetadata { amount, from, ledger, memo, timestamp, to })
    }
}

impl Escrow {
    /// An escrow as a host value.
    #[verifier::opaque]
    pub open spec fn encoded(self) -> Datum {
        Datum::Record(
            no_fields()
                .insert("amount"@, Datum::Amount(self.amount))
                .insert("from"@, Datum::Account(self.from))
                .insert("id"@, Datum::Number(self.id))
                .insert("release_ledger"@, Datum::Number(self.release_ledger))
                .insert("status"@, self.status.encoded())
                .insert("to"@, Datum::Account(self.to))
                .insert("token"@, Datum::Account(self.token))
        )
    }

    /// An escrow that a host value stands for.
    #[verifier::opaque]
    pub open spec fn decoded(value: Datum) -> Option<Escrow> {
        match value {
            Datum::Record(fields) => {
                let amount = amount_field(fields, "amount"@);
                let from = account_field(fields, "from"@);
                let id = number_field(fields, "id"@);
                let release_ledger = number_field(fields, "release_ledger"@);
                let status = status_field(fields, "status"@);
                let to = account_field(fields, "to"@);
                let token = account_field(fields, "token"@);
                if amount is Some
                    && from is Some
                    && id is Some
                    && release_ledger is Some
                    && status is Some
                    && to is Some
                    && token is Some
                {
                    Some(Escrow {
                        amount: amount->0,
                        from: from->0,
                        id: id->0,
                        release_ledger: release_ledger->0,
                        status: status->0,
                        to: to->0,
                        token: token->0,
                    })
                } else {
                    None
                }
            },
            _ => None,
        }
    }

    proof fn lemma_names()
        ensures
            is_symbol_text("amount"@),
            is_symbol_text("from"@),
            is_symbol_text("id"@),
            is_symbol_text("release_ledger"@),
            is_symbol_text("status"@),
            is_symbol_text("to"@),
            is_symbol_text("token"@),
    {
        reveal_strlit("amount");
        reveal_strlit("from");
        reveal_strlit("id");
        reveal_strlit("release_ledger");
        reveal_strlit("status");
        reveal_strlit("to");
        reveal_strlit("token");
    }

    /// A record is read back as it was written.
    pub proof fn lemma_round_trip(self)
        ensures
            Escrow::decoded(self.encoded()) == Some(self),
    {
        reveal(Escrow::encoded);
        reveal(Escrow::decoded);
        reveal_strlit("amount");
        reveal_strlit("from");
        reveal_strlit("id");
        reveal_strlit("release_ledger");
        reveal_strlit("status");
        reveal_strlit("to");
        reveal_strlit("token");
        assert("amount"@.len() == 6);
        assert("from"@.len() == 4);
        assert("id"@.len() == 2);
        assert("release_ledger"@.len() == 14);
        assert("status"@.len() == 6);
        assert("to"@.len() == 2);
        assert("token"@.len() == 5);
        assert("amount"@[0] != "status"@[0]);
        assert("id"@[0] != "to"@[0]);
        EscrowStatus::lemma_tags();
    }
}

impl Escrow {
    /// The record as a host value.
    pub(crate) fn encode(&self, env: &Env) -> (r: Val)
        ensures
            datum(r) == self.encoded(),
            is_storable(*env, datum(r)),
    {
        proof {
            Escrow::lemma_names();
            reveal(Escrow::encoded);
            reveal(Escrow::decoded);
        }
        let mut record = record_new(env);
        add_field(env, &mut record, "amount", amount_value(env, self.amount));
        add_field(env, &mut record, "from", account_value(&self.from));
        add_field(env, &mut record, "id", number_value(env, self.id));
        add_field(env, &mut record, "release_ledger", number_value(env, self.release_ledger));
        add_field(env, &mut record, "status", self.status.encode(env));
        add_field(env, &mut record, "to", account_value(&self.to));
        add_field(env, &mut record, "token", account_value(&self.token));
        assert(fields_nest(record_fields(record), 2 + further_levels(*env)));
        record_value(&record)
    }

    /// The record that a host value stands for.
    pub(crate) fn decode(env: &Env, value: &Val) -> (r: Option<Escrow>)
        ensures
            r == Escrow::decoded(datum(*value)),
    {
        proof {
            Escrow::lemma_names();
            reveal(Escrow::encoded);
            reveal(Escrow::decoded);
        }
        let record = read_record(env, value)?;
        let amount = get_amount(env, &record, "amount")?;
        let from = get_account(env, &record, "from")?;
        let id = get_number(env, &record, "id")?;
        let release_ledger = get_number(env, &record, "release_ledger")?;
        let status = get_status(env, &record, "status")?;
        let to = get_account(env, &record, "to")?;
        let token = get_account(env, &record, "token")?;
        Some(Escrow { amount, from, id, release_ledger, status, to, token })
    }
}

impl StreamRecipient {
    /// A share as a host value.
    #[verifier::opaque]
    pub open spec fn encoded(self) -> Datum {
        Datum::Record(
            no_fields()
                .insert("claimed"@, Datum::Amount(self.claimed))
                .insert("recipient"@, Datum::Account(self.recipient))
                .insert("weight"@, Datum::Number(self.weight))
        )
    }

    /// A share that a host value stands for.
    #[verifier::opaque]
    pub open spec fn decoded(value: Datum) -> Option<StreamRecipient> {
        match value {
            Datum::Record(fields) => {
                let claimed = amount_field(fields, "claimed"@);
                let recipient = account_field(fields, "recipient"@);
                let weight = number_field(fields, "weight"@);
                if claimed is Some
                    && recipient is Some
                    && weight is Some
                {
                    Some(StreamRecipient {
                        claimed: claimed->0,
                        recipient: recipient->0,
                        weight: weight->0,
                    })
                } else {
                    None
                }
            },
            _ => None,
        }
    }

    proof fn lemma_names()
        ensures
            is_symbol_text("claimed"@),
            is_symbol_text("recipient"@),
            is_symbol_text("weight"@),
    {
        reveal_strlit("claimed");
        reveal_strlit("recipient");
        reveal_strlit("weight");
    }

    /// A record is read back as it was written.
    pub proof fn lemma_round_trip(self)
        ensures
            StreamRecipient::decoded(self.encoded()) == Some(self),
    {
        reveal(StreamRecipient::encoded);
        reveal(StreamRecipient::decoded);
        reveal_strlit("claimed");
        reveal_strlit("recipient");
        reveal_strlit("weight");
        assert("claimed"@.len() == 7);
        assert("recipient"@.len() == 9);
        assert("weight"@.len() == 6);
    }
}

impl StreamRecipient {
    /// The record as a host value.
    pub(crate) fn encode(&self, env: &Env) -> (r: Val)
        ensures
            datum(r) == self.encoded(),
            nests(datum(r), 1 + further_levels(*env)),
    {
        proof {
            StreamRecipient::lemma_names();
            reveal(StreamRecipient::encoded);
            reveal(StreamRecipient::decoded);
        }
        let mut record = record_new(env);
        add_field(env, &mut record, "claimed", amount_value(env, self.claimed));
        add_field(env, &mut record, "recipient", account_value(&self.recipient));
        add_field(env, &mut record, "weight", number_value(env, self.weight));
        assert(fields_nest(record_fields(record), further_levels(*env)));
        record_value(&record)
    }

    /// The record that a host value stands for.
    pub(crate) fn decode(env: &Env, value: &Val) -> (r: Option<StreamRecipient>)
        ensures
            r == StreamRecipient::decoded(datum(*value)),
    {
        proof {
            StreamRecipient::lemma_names();
            reveal(StreamRecipient::encoded);
            reveal(StreamRecipient::decoded);
        }
        let record = read_record(env, value)?;
        let claimed = get_amount(env, &record, "claimed")?;
        let recipient = get_account(env, &record, "recipient")?;
        let weight = get_number(env, &record, "weight")?;
        Some(StreamRecipient { claimed, recipient, weight })
    }
}

/// What host values hold.
pub open spec fn contents(items: Seq<Val>) -> Seq<Datum> {
    items.map_values(|item: Val| datum(item))
}

/// Shares as the items of a host list.
pub open spec fn share_items(shares: Seq<StreamRecipient>) -> Seq<Datum> {
    shares.map_values(|share: StreamRecipient| share.encoded())
}

/// The items of a list, where they are not just these shares.
pub open spec fn odd_items(shares: Seq<StreamRecipient>, items: Seq<Datum>) -> Option<Seq<Datum>> {
    if items == share_items(shares) {
        None
    } else {
        Some(items)
    }
}

/// The shares that a list begins with: those before the first item that stands
/// for none.
pub open spec fn leading_shares(items: Seq<Datum>) -> Seq<StreamRecipient>
    decreases items.len(),
{
    if items.len() == 0 {
        Seq::empty()
    } else {
        let before = leading_shares(items.drop_last());
        let share = StreamRecipient::decoded(items.last());
        if before.len() == items.len() - 1 && share is Some {
            before.push(share->0)
        } else {
            before
        }
    }
}

/// The field `name` of a record, where it is a list.
pub open spec fn list_field(fields: Map<Seq<char>, Datum>, name: Seq<char>) -> Option<Seq<Datum>> {
    if fields.contains_key(name) {
        match fields[name] {
            Datum::List(items) => Some(items),
            _ => None,
        }
    } else {
        None
    }
}

/// A list of shares begins with all of them.
proof fn lemma_share_items(shares: Seq<StreamRecipient>)
    ensures
        leading_shares(share_items(shares)) == shares,
    decreases shares.len(),
{
    if shares.len() > 0 {
        lemma_share_items(shares.drop_last());
        assert(share_items(shares).drop_last() =~= share_items(shares.drop_last()));
        shares.last().lemma_round_trip();
    }
}

/// The items of a list of shares.
fn encode_shares(env: &Env, shares: &Vec<StreamRecipient>) -> (r: Vec<Val>)
    ensures
        contents(r@) == share_items(shares@),
        r@.len() == shares@.len(),
        forall|i: int|
            0 <= i < r@.len() ==> nests(datum(#[trigger] r@[i]), 1 + further_levels(*env)),
{
    let mut items: Vec<Val> = Vec::new();
    for i in 0..shares.len()
        invariant
            items@.len() == i,
            forall|j: int|
                0 <= j < i ==> datum(#[trigger] items@[j]) == shares@[j].encoded() && nests(
                    datum(items@[j]),
                    1 + further_levels(*env),
                ),
    {
        items.push(shares[i].encode(env));
    }
    assert(contents(items@) =~= share_items(shares@));
    items
}

/// The shares that a list begins with.
fn decode_shares(env: &Env, items: &Vec<Val>) -> (r: Vec<StreamRecipient>)
    ensures
        r@ == leading_shares(contents(items@)),
        r@.len() <= items@.len(),
{
    let ghost data = contents(items@);
    let mut shares: Vec<StreamRecipient> = Vec::new();
    for i in 0..items.len()
        invariant
            data == contents(items@),
            shares@ == leading_shares(data.take(i as int)),
            shares@.len() <= i,
    {
        assert(data.take(i + 1).drop_last() =~= data.take(i as int));
        assert(data[i as int] == datum(items@[i as int]));
        if shares.len() == i {
            if let Some(share) = StreamRecipient::decode(env, &items[i]) {
                shares.push(share);
            }
        }
    }
    assert(data.take(data.len() as int) =~= data);
    shares
}

fn get_list(env: &Env, record: &soroban_sdk::Map<Symbol, Val>, name: &str) -> (r: Option<Vec<Val>>)
    requires
        is_symbol_text(name@),
    ensures
        r is Some <==> list_field(record_fields(*record), name@) is Some,
        r is Some ==> list_field(record_fields(*record), name@) == Some(contents(r->0@)),
        r is Some ==> r->0@.len() <= u32::MAX,
{
    as_list(env, &record_get(record, symbol(env, name))?)
}

impl StreamView {
    /// The items of the list of recipients.
    pub open spec fn items(self) -> Seq<Datum> {
        match self.odd {
            Some(items) => items,
            None => share_items(self.recipients),
        }
    }

    /// Every item of the list of recipients stands for a share.
    pub open spec fn is_whole(self) -> bool {
        self.odd matches Some(items) ==> items.len() == self.recipients.len()
    }

    /// The recipients and the stored list agree.
    pub open spec fn is_coherent(self) -> bool {
        self.odd matches Some(items) ==> leading_shares(items) == self.recipients && items
            != share_items(self.recipients)
    }

    /// A stream as a host value.
    #[verifier::opaque]
    pub open spec fn encoded(self) -> Datum {
        Datum::Record(
            no_fields()
                .insert("closed"@, Datum::Flag(self.closed))
                .insert("deposited"@, Datum::Amount(self.deposited))
                .insert("paused"@, Datum::Flag(self.paused))
                .insert("paused_at_ledger"@, Datum::Number(self.paused_at_ledger))
                .insert("paused_ledgers"@, Datum::Number(self.paused_ledgers))
                .insert("payer"@, Datum::Account(self.payer))
                .insert("rate_per_ledger"@, Datum::Amount(self.rate_per_ledger))
                .insert("recipients"@, Datum::List(self.items()))
                .insert("start_ledger"@, Datum::Number(self.start_ledger))
                .insert("token"@, Datum::Account(self.token))
        )
    }

    /// A stream that a host value stands for.
    #[verifier::opaque]
    pub open spec fn decoded(value: Datum) -> Option<StreamView> {
        match value {
            Datum::Record(fields) => {
                let closed = flag_field(fields, "closed"@);
                let deposited = amount_field(fields, "deposited"@);
                let paused = flag_field(fields, "paused"@);
                let paused_at_ledger = number_field(fields, "paused_at_ledger"@);
                let paused_ledgers = number_field(fields, "paused_ledgers"@);
                let payer = account_field(fields, "payer"@);
                let rate_per_ledger = amount_field(fields, "rate_per_ledger"@);
                let recipients = list_field(fields, "recipients"@);
                let start_ledger = number_field(fields, "start_ledger"@);
                let token = account_field(fields, "token"@);
                if closed is Some
                    && deposited is Some
                    && paused is Some
                    && paused_at_ledger is Some
                    && paused_ledgers is Some
                    && payer is Some
                    && rate_per_ledger is Some
                    && recipients is Some
                    && start_ledger is Some
                    && token is Some
                {
                    Some(StreamView {
                        closed: closed->0,
                        deposited: deposited->0,
                        paused: paused->0,
                        paused_at_ledger: paused_at_ledger->0,
                        paused_ledgers: paused_ledgers->0,
                        payer: payer->0,
                        rate_per_ledger: rate_per_ledger->0,
                        recipients: leading_shares(recipients->0),
                        odd: odd_items(leading_shares(recipients->0), recipients->0),
                        start_ledger: start_ledger->0,
                        token: token->0,
                    })
                } else {
                    None
                }
            },
            _ => None,
        }
    }

    proof fn lemma_names()
        ensures
            is_symbol_text("closed"@),
            is_symbol_text("deposited"@),
            is_symbol_text("paused"@),
            is_symbol_text("paused_at_ledger"@),
            is_symbol_text("paused_ledgers"@),
            is_symbol_text("payer"@),
            is_symbol_text("rate_per_ledger"@),
            is_symbol_text("recipients"@),
            is_symbol_text("start_ledger"@),
            is_symbol_text("token"@),
    {
        reveal_strlit("closed");
        reveal_strlit("deposited");
        reveal_strlit("paused");
        reveal_strlit("paused_at_ledger");
        reveal_strlit("paused_ledgers");
        reveal_strlit("payer");
        reveal_strlit("rate_per_ledger");
        reveal_strlit("recipients");
        reveal_strlit("start_ledger");
        reveal_strlit("token");
    }

    /// The recipients and the list of a record that is read agree.
    pub proof fn lemma_read_coherent(value: Datum)
        ensures
            StreamView::decoded(value) matches Some(stream) ==> stream.is_coherent(),
    {
        reveal(StreamView::decoded);
    }

    /// A record is read back as it was written.
    pub proof fn lemma_round_trip(self)
        requires
            self.is_coherent(),
        ensures
            StreamView::decoded(self.encoded()) == Some(self),
    {
        reveal(StreamView::encoded);
        reveal(StreamView::decoded);
        reveal_strlit("closed");
        reveal_strlit("deposited");
        reveal_strlit("paused");
        reveal_strlit("paused_at_ledger");
        reveal_strlit("paused_ledgers");
        reveal_strlit("payer");
        reveal_strlit("rate_per_ledger");
        reveal_strlit("recipients");
        reveal_strlit("start_ledger");
        reveal_strlit("token");
        assert("closed"@.len() == 6);
        assert("deposited"@.len() == 9);
        assert("paused"@.len() == 6);
        assert("paused_at_ledger"@.len() == 16);
        assert("paused_ledgers"@.len() == 14);
        assert("payer"@.len() == 5);
        assert("rate_per_ledger"@.len() == 15);
        assert("recipients"@.len() == 10);
        assert("start_ledger"@.len() == 12);
        assert("token"@.len() == 5);
        assert("closed"@[0] != "paused"@[0]);
        assert("payer"@[0] != "token"@[0]);
        lemma_share_items(self.recipients);
    }
}

impl Stream {
    /// The host can store the record.
    pub open spec fn can_be_stored(&self, env: Env) -> bool {
        match self.stored {
            Some(items) => items@.len() <= u32::MAX && forall|i: int|
                0 <= i < items@.len() ==> nests(
                    datum(#[trigger] items@[i]),
                    1 + further_levels(env),
                ),
            None => self.recipients@.len() <= u32::MAX,
        }
    }

    /// The list of recipients as a host value.
    fn list(&self, env: &Env) -> (r: Val)
        requires
            self.can_be_stored(*env),
        ensures
            datum(r) == Datum::List(self@.items()),
            nests(datum(r), 2 + further_levels(*env)),
    {
        match &self.stored {
            Some(items) => {
                assert(contents(items@) == self@.items());
                list_value(env, items)
            },
            None => {
                let items = encode_shares(env, &self.recipients);
                list_value(env, &items)
            },
        }
    }

    /// The record as a host value.
    pub(crate) fn encode(&self, env: &Env) -> (r: Val)
        requires
            self.can_be_stored(*env),
        ensures
            datum(r) == self@.encoded(),
            is_storable(*env, datum(r)),
    {
        proof {
            StreamView::lemma_names();
            reveal(StreamView::encoded);
            reveal(StreamView::decoded);
        }
        let mut record = record_new(env);
        add_field(env, &mut record, "closed", flag_value(env, self.closed));
        add_field(env, &mut record, "deposited", amount_value(env, self.deposited));
        add_field(env, &mut record, "paused", flag_value(env, self.paused));
        add_field(env, &mut record, "paused_at_ledger", number_value(env, self.paused_at_ledger));
        add_field(env, &mut record, "paused_ledgers", number_value(env, self.paused_ledgers));
        add_field(env, &mut record, "payer", account_value(&self.payer));
        add_field(env, &mut record, "rate_per_ledger", amount_value(env, self.rate_per_ledger));
        add_field(env, &mut record, "recipients", self.list(env));
        add_field(env, &mut record, "start_ledger", number_value(env, self.start_ledger));
        add_field(env, &mut record, "token", account_value(&self.token));
        assert(fields_nest(record_fields(record), 2 + further_levels(*env)));
        record_value(&record)
    }

    /// The record that a host value stands for.
    pub(crate) fn decode(env: &Env, value: &Val) -> (r: Option<Stream>)
        ensures
            r is Some <==> StreamView::decoded(datum(*value)) is Some,
            r is Some ==> StreamView::decoded(datum(*value)) == Some(r->0@),
            r is Some ==> r->0@.is_coherent(),
            r is Some && is_storable(*env, datum(*value)) ==> r->0.can_be_stored(*env),
    {
        proof {
            StreamView::lemma_names();
            reveal(StreamView::encoded);
            reveal(StreamView::decoded);
        }
        let record = read_record(env, value)?;
        let closed = get_flag(env, &record, "closed")?;
        let deposited = get_amount(env, &record, "deposited")?;
        let paused = get_flag(env, &record, "paused")?;
        let paused_at_ledger = get_number(env, &record, "paused_at_ledger")?;
        let paused_ledgers = get_number(env, &record, "paused_ledgers")?;
        let payer = get_account(env, &record, "payer")?;
        let rate_per_ledger = get_amount(env, &record, "rate_per_ledger")?;
        let items = get_list(env, &record, "recipients")?;
        let recipients = decode_shares(env, &items);
        proof {
            let list = record_fields(record)["recipients"@];
            let data = contents(items@);
            assert(list == Datum::List(data));
            if is_storable(*env, datum(*value)) {
                assert(nests(list, 2 + further_levels(*env)));
                assert forall|i: int| 0 <= i < items@.len() implies nests(
                    datum(#[trigger] items@[i]),
                    1 + further_levels(*env),
                ) by {
                    assert(data[i] == datum(items@[i]));
                }
            }
        }
        let start_ledger = get_number(env, &record, "start_ledger")?;
        let token = get_account(env, &record, "token")?;
        Some(
            Stream {
                closed,
                deposited,
                paused,
                paused_at_ledger,
                paused_ledgers,
                payer,
                rate_per_ledger,
                recipients,
                stored: Some(items),
                start_ledger,
                token,
            },
        )
    }
}

impl Storage {
    /// The tip under `key`; `missing` if there is no entry.
    pub open spec fn tip(self, key: DataKey, missing: Trap) -> Result<TipRecord, Trap> {
        if !self.has(key) {
            Err(missing)
        } else {
            match TipRecord::decoded(self.value(key)) {
                Some(record) => Ok(record),
                None => Err(Trap::MalformedEntry),
            }
        }
    }

    /// The receipt under `key`; `missing` if there is no entry.
    pub open spec fn receipt(self, key: DataKey, missing: Trap) -> Result<ReceiptView, Trap> {
        if !self.has(key) {
            Err(missing)
        } else {
            match ReceiptView::decoded(self.value(key)) {
                Some(record) => Ok(record),
                None => Err(Trap::MalformedEntry),
            }
        }
    }

    /// The legacy receipt under `key`; `missing` if there is no entry.
    pub open spec fn legacy_receipt(self, key: DataKey, missing: Trap) -> Result<
        LegacyReceiptView,
        Trap,
    > {
        if !self.has(key) {
            Err(missing)
        } else {
            match LegacyReceiptView::decoded(self.value(key)) {
                Some(record) => Ok(record),
                None => Err(Trap::MalformedEntry),
            }
        }
    }

    /// The escrow under `key`; `missing` if there is no entry.
    pub open spec fn escrow(self, key: DataKey, missing: Trap) -> Result<Escrow, Trap> {
        if !self.has(key) {
            Err(missing)
        } else {
            match Escrow::decoded(self.value(key)) {
                Some(record) => Ok(record),
                None => Err(Trap::MalformedEntry),
            }
        }
    }

    /// The stream under `key`; `missing` if there is no entry.
    pub open spec fn stream(self, key: DataKey, missing: Trap) -> Result<StreamView, Trap> {
        if !self.has(key) {
            Err(missing)
        } else {
            match StreamView::decoded(self.value(key)) {
                Some(record) => Ok(record),
                None => Err(Trap::MalformedEntry),
            }
        }
    }
}

/// The tip under `key`; `missing` if there is no entry.
pub(crate) fn read_tip(env: &Env, key: &DataKey, missing: Trap) -> (r: Result<TipRecord, Trap>)
    ensures
        r == storage(*env).tip(*key, missing),
{
    match read(env, key) {
        None => Err(missing),
        Some(value) => match TipRecord::decode(env, &value) {
            Some(record) => Ok(record),
            None => Err(Trap::MalformedEntry),
        },
    }
}

/// The receipt under `key`; `missing` if there is no entry.
pub(crate) fn read_receipt(env: &Env, key: &DataKey, missing: Trap) -> (r: Result<
    ReceiptMetadata,
    Trap,
>)
    ensures
        match storage(*env).receipt(*key, missing) {
            Ok(record) => r is Ok && r->Ok_0@ == record,
            Err(trap) => r is Err && r->Err_0 == trap,
        },
{
    match read(env, key) {
        None => Err(missing),
        Some(value) => match ReceiptMetadata::decode(env, &value) {
            Some(record) => Ok(record),
            None => Err(Trap::MalformedEntry),
        },
    }
}

/// The legacy receipt under `key`; `missing` if there is no entry.
pub(crate) fn read_legacy_receipt(env: &Env, key: &DataKey, missing: Trap) -> (r: Result<
    LegacyReceiptMetadata,
    Trap,
>)
    ensures
        match storage(*env).legacy_receipt(*key, missing) {
            Ok(record) => r is Ok && r->Ok_0@ == record,
            Err(trap) => r is Err && r->Err_0 == trap,
        },
{
    match read(env, key) {
        None => Err(missing),
        Some(value) => match LegacyReceiptMetadata::decode(env, &value) {
            Some(record) => Ok(record),
            None => Err(Trap::MalformedEntry),
        },
    }
}

/// The escrow under `key`; `missing` if there is no entry.
pub(crate) fn read_escrow(env: &Env, key: &DataKey, missing: Trap) -> (r: Result<Escrow, Trap>)
    ensures
        r == storage(*env).escrow(*key, missing),
{
    match read(env, key) {
        None => Err(missing),
        Some(value) => match Escrow::decode(env, &value) {
            Some(record) => Ok(record),
            None => Err(Trap::MalformedEntry),
        },
    }
}

/// The stream under `key`; `missing` if there is no entry.
pub(crate) fn read_stream(env: &Env, key: &DataKey, missing: Trap) -> (r: Result<Stream, Trap>)
    ensures
        match storage(*env).stream(*key, missing) {
            Ok(record) => r is Ok && r->Ok_0@ == record,
            Err(trap) => r is Err && r->Err_0 == trap,
        },
        r is Ok ==> r->Ok_0.can_be_stored(*env),
{
    match read(env, key) {
        None => Err(missing),
        Some(value) => match Stream::decode(env, &value) {
            Some(record) => Ok(record),
            None => Err(Trap::MalformedEntry),
        },
    }
}

} // verus!
