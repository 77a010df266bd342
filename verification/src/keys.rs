//! How storage keys are laid out: a list of the key's name and its arguments.
use soroban_sdk::{Address, Env, Val};
use vstd::prelude::*;

use crate::sdk::{account_value, datum, is_key, is_symbol_text, list_value, name_value, number_value,
    symbol, Datum};
use crate::types::DataKey;

verus! {

impl DataKey {
    /// The name of the key.
    pub open spec fn tag(self) -> Seq<char> {
        match self {
            DataKey::Admin => "Admin"@,
            DataKey::TipTotal(_) => "TipTotal"@,
            DataKey::TipCount(_) => "TipCount"@,
            DataKey::TipRecord(_, _) => "TipRecord"@,
            DataKey::ReceiptCount(_) => "ReceiptCount"@,
            DataKey::ReceiptRecord(_, _) => "ReceiptRecord"@,
            DataKey::EscrowCount => "EscrowCount"@,
            DataKey::Escrow(_) => "Escrow"@,
            DataKey::StreamCount => "StreamCount"@,
            DataKey::Stream(_) => "Stream"@,
            DataKey::SchemaVersion => "SchemaVersion"@,
            DataKey::EscrowSenderCount(_) => "EscrowSenderCount"@,
            DataKey::EscrowSenderIndex(_, _) => "EscrowSenderIndex"@,
            DataKey::EscrowRecipientCount(_) => "EscrowRecipientCount"@,
            DataKey::EscrowRecipientIndex(_, _) => "EscrowRecipientIndex"@,
            DataKey::ReceiptRecordV2(_, _) => "ReceiptRecordV2"@,
        }
    }

    /// The key as a host value: its name, then its arguments.
    pub open spec fn encoded(self) -> Datum {
        let tag = Datum::Name(self.tag());
        Datum::List(
            match self {
                DataKey::Admin | DataKey::EscrowCount | DataKey::StreamCount
                | DataKey::SchemaVersion => seq![tag],
                DataKey::TipTotal(account) | DataKey::TipCount(account)
                | DataKey::ReceiptCount(account) | DataKey::EscrowSenderCount(account)
                | DataKey::EscrowRecipientCount(account) => seq![tag, Datum::Account(account)],
                DataKey::TipRecord(account, index) | DataKey::ReceiptRecord(account, index)
                | DataKey::EscrowSenderIndex(account, index)
                | DataKey::EscrowRecipientIndex(account, index)
                | DataKey::ReceiptRecordV2(account, index) => seq![
                    tag,
                    Datum::Account(account),
                    Datum::Number(index),
                ],
                DataKey::Escrow(id) | DataKey::Stream(id) => seq![tag, Datum::Number(id)],
            },
        )
    }
}

/// What sets the name of a key apart: its length, and the character at which
/// names of that length differ.
spec fn mark(text: Seq<char>) -> (nat, char) {
    let place: int = if text.len() == 8 {
        3
    } else if text.len() == 17 {
        12
    } else if text.len() == 20 {
        15
    } else {
        0
    };
    (text.len(), text[place])
}

/// The mark of each name.
spec fn mark_of(key: DataKey) -> (nat, char) {
    match key {
        DataKey::Admin => (5, 'A'),
        DataKey::TipTotal(_) => (8, 'T'),
        DataKey::TipCount(_) => (8, 'C'),
        DataKey::TipRecord(_, _) => (9, 'T'),
        DataKey::ReceiptCount(_) => (12, 'R'),
        DataKey::ReceiptRecord(_, _) => (13, 'R'),
        DataKey::EscrowCount => (11, 'E'),
        DataKey::Escrow(_) => (6, 'E'),
        DataKey::StreamCount => (11, 'S'),
        DataKey::Stream(_) => (6, 'S'),
        DataKey::SchemaVersion => (13, 'S'),
        DataKey::EscrowSenderCount(_) => (17, 'C'),
        DataKey::EscrowSenderIndex(_, _) => (17, 'I'),
        DataKey::EscrowRecipientCount(_) => (20, 'C'),
        DataKey::EscrowRecipientIndex(_, _) => (20, 'I'),
        DataKey::ReceiptRecordV2(_, _) => (15, 'R'),
    }
}

proof fn lemma_mark(key: DataKey)
    ensures
        mark(key.tag()) == mark_of(key),
        is_symbol_text(key.tag()),
{
    reveal_strlit("Admin");
    reveal_strlit("TipTotal");
    reveal_strlit("TipCount");
    reveal_strlit("TipRecord");
    reveal_strlit("ReceiptCount");
    reveal_strlit("ReceiptRecord");
    reveal_strlit("EscrowCount");
    reveal_strlit("Escrow");
    reveal_strlit("StreamCount");
    reveal_strlit("Stream");
    reveal_strlit("SchemaVersion");
    reveal_strlit("EscrowSenderCount");
    reveal_strlit("EscrowSenderIndex");
    reveal_strlit("EscrowRecipientCount");
    reveal_strlit("EscrowRecipientIndex");
    reveal_strlit("ReceiptRecordV2");
}

/// Different keys are laid out differently.
pub proof fn lemma_encoded_injective(a: DataKey, b: DataKey)
    requires
        a.encoded() == b.encoded(),
    ensures
        a == b,
{
    lemma_mark(a);
    lemma_mark(b);
    let parts_a = a.encoded()->List_0;
    let parts_b = b.encoded()->List_0;
    assert(parts_a[0] == Datum::Name(a.tag()));
    assert(parts_b[0] == Datum::Name(b.tag()));
    assert(mark_of(a) == mark_of(b));
    assert(parts_a.len() == parts_b.len());
    if parts_a.len() >= 2 {
        assert(parts_a[1] == parts_b[1]);
    }
    if parts_a.len() == 3 {
        assert(parts_a[2] == parts_b[2]);
    }
}

/// The host list of a name.
fn plain_key(env: &Env, tag: &str) -> (r: Val)
    requires
        is_symbol_text(tag@),
    ensures
        datum(r) == Datum::List(seq![Datum::Name(tag@)]),
{
    let items: Vec<Val> = vec![name_value(&symbol(env, tag))];
    assert(items@.map_values(|item: Val| datum(item)) =~= seq![Datum::Name(tag@)]);
    list_value(env, &items)
}

/// The host list of a name and an address.
fn account_key(env: &Env, tag: &str, account: &Address) -> (r: Val)
    requires
        is_symbol_text(tag@),
    ensures
        datum(r) == Datum::List(seq![Datum::Name(tag@), Datum::Account(*account)]),
{
    let items: Vec<Val> = vec![name_value(&symbol(env, tag)), account_value(account)];
    assert(items@.map_values(|item: Val| datum(item)) =~= seq![
        Datum::Name(tag@),
        Datum::Account(*account),
    ]);
    list_value(env, &items)
}

/// The host list of a name, an address and a number.
fn indexed_key(env: &Env, tag: &str, account: &Address, index: u32) -> (r: Val)
    requires
        is_symbol_text(tag@),
    ensures
        datum(r) == Datum::List(
            seq![Datum::Name(tag@), Datum::Account(*account), Datum::Number(index)],
        ),
{
    let items: Vec<Val> = vec![
        name_value(&symbol(env, tag)),
        account_value(account),
        number_value(env, index),
    ];
    assert(items@.map_values(|item: Val| datum(item)) =~= seq![
        Datum::Name(tag@),
        Datum::Account(*account),
        Datum::Number(index),
    ]);
    list_value(env, &items)
}

/// The host list of a name and a number.
fn numbered_key(env: &Env, tag: &str, id: u32) -> (r: Val)
    requires
        is_symbol_text(tag@),
    ensures
        datum(r) == Datum::List(seq![Datum::Name(tag@), Datum::Number(id)]),
{
    let items: Vec<Val> = vec![name_value(&symbol(env, tag)), number_value(env, id)];
    assert(items@.map_values(|item: Val| datum(item)) =~= seq![
        Datum::Name(tag@),
        Datum::Number(id),
    ]);
    list_value(env, &items)
}

impl DataKey {
    /// The key as a host value.
    pub(crate) fn value(&self, env: &Env) -> (r: Val)
        ensures
            datum(r) == self.encoded(),
            is_key(datum(r)),
    {
        proof {
            lemma_mark(*self);
        }
        match self {
            DataKey::Admin => plain_key(env, "Admin"),
            DataKey::TipTotal(account) => account_key(env, "TipTotal", account),
            DataKey::TipCount(account) => account_key(env, "TipCount", account),
            DataKey::TipRecord(account, index) => indexed_key(env, "TipRecord", account, *index),
            DataKey::ReceiptCount(account) => account_key(env, "ReceiptCount", account),
            DataKey::ReceiptRecord(account, index) => {
                indexed_key(env, "ReceiptRecord", account, *index)
            },
            DataKey::EscrowCount => plain_key(env, "EscrowCount"),
            DataKey::Escrow(id) => numbered_key(env, "Escrow", *id),
            DataKey::StreamCount => plain_key(env, "StreamCount"),
            DataKey::Stream(id) => numbered_key(env, "Stream", *id),
            DataKey::SchemaVersion => plain_key(env, "SchemaVersion"),
            DataKey::EscrowSenderCount(account) => account_key(env, "EscrowSenderCount", account),
            DataKey::EscrowSenderIndex(account, index) => {
                indexed_key(env, "EscrowSenderIndex", account, *index)
            },
            DataKey::EscrowRecipientCount(account) => {
                account_key(env, "EscrowRecipientCount", account)
            },
            DataKey::EscrowRecipientIndex(account, index) => {
                indexed_key(env, "EscrowRecipientIndex", account, *index)
            },
            DataKey::ReceiptRecordV2(account, index) => {
                indexed_key(env, "ReceiptRecordV2", account, *index)
            },
        }
    }
}

} // verus!
