//! What the calls of the administrator do, in terms of what they are given.
use soroban_sdk::Address;
use vstd::prelude::*;

use crate::admin::{initialize_step, transfer_admin_step};
use crate::laws::entries::{holds, holds_number, same_entry};
use crate::outcome::{Action, Event, Failure, Trap};
use crate::schema::{backfilled, migrate_step};
use crate::sdk::Datum;
use crate::storage::Storage;
use crate::types::{ContractError, DataKey, EVENT_SCHEMA_VERSION, SCHEMA_VERSION};

verus! {

/// Initializing a contract that has no administrator records the one that is given
/// and the current layout, and nothing else, and tells so. Nobody has to sign for
/// it, and a second try is refused.
pub proof fn law_initialize_records_the_admin(s: Storage, admin: Address)
    ensures
        ({
            let step = initialize_step(s, admin);
            let t = step.storage;
            &&& step.signer is None
            &&& s.slots.contains_key(DataKey::Admin) ==> {
                &&& step.outcome == Err::<(), Failure>(
                    Failure::Error(ContractError::AlreadyInitialized),
                )
                &&& t == s
                &&& step.actions.len() == 0
            }
            &&& !s.slots.contains_key(DataKey::Admin) ==> {
                &&& step.outcome is Ok
                &&& step.actions.len() == 1
                &&& step.actions[0] == Action::Publish {
                    version: EVENT_SCHEMA_VERSION,
                    event: Event::Init { admin },
                }
                &&& holds(t, DataKey::Admin, Datum::Account(admin))
                &&& holds(t, DataKey::SchemaVersion, Datum::Number(SCHEMA_VERSION))
                &&& forall|key: DataKey|
                    key != DataKey::Admin && key != DataKey::SchemaVersion
                        ==> #[trigger] same_entry(s, t, key)
            }
        }),
{
}

/// Handing the contract over records the new administrator, and nothing else. The
/// one who does so has to sign for it and to be the administrator on record.
pub proof fn law_handing_over_records_the_new_admin(
    s: Storage,
    current_admin: Address,
    new_admin: Address,
)
    ensures
        ({
            let step = transfer_admin_step(s, current_admin, new_admin);
            let t = step.storage;
            let wrong = if !s.slots.contains_key(DataKey::Admin) {
                Some(Trap::NotInitialized)
            } else if !(s.slots[DataKey::Admin].value is Account) {
                Some(Trap::MalformedEntry)
            } else if s.slots[DataKey::Admin].value != Datum::Account(current_admin) {
                Some(Trap::NotAdmin)
            } else {
                None
            };
            &&& step.signer == Some(current_admin)
            &&& step.actions.len() == 0
            &&& wrong matches Some(trap) ==> {
                &&& step.outcome == Err::<(), Failure>(Failure::Trap(trap))
                &&& t == s
            }
            &&& wrong is None ==> {
                &&& step.outcome is Ok
                &&& holds(t, DataKey::Admin, Datum::Account(new_admin))
                &&& forall|key: DataKey|
                    key != DataKey::Admin ==> #[trigger] same_entry(s, t, key)
            }
        }),
{
}

/// A key of the lists of escrows by account.
pub open spec fn is_list_key(key: DataKey) -> bool {
    ||| key is EscrowSenderCount
    ||| key is EscrowSenderIndex
    ||| key is EscrowRecipientCount
    ||| key is EscrowRecipientIndex
}

proof fn lemma_backfill_writes_lists(s: Storage, n: nat, key: DataKey)
    requires
        !is_list_key(key),
    ensures
        same_entry(s, backfilled(s, n).storage, key),
    decreases n,
{
    if n > 0 {
        lemma_backfill_writes_lists(s, (n - 1) as nat, key);
    }
}

/// A migration is for the administrator on record, who has to sign for it. From an
/// older layout it ends in the current one and tells from which to which; from the
/// third layout on it changes nothing else, and from an earlier one nothing but the
/// lists of escrows by account. A storage in the current or a later layout is left
/// as it is.
pub proof fn law_migration_ends_in_the_current_layout(s: Storage, admin: Address, version: u32)
    requires
        holds_number(s, DataKey::SchemaVersion, version),
    ensures
        ({
            let step = migrate_step(s, admin);
            let t = step.storage;
            let wrong = if !s.slots.contains_key(DataKey::Admin) {
                Some(Failure::Trap(Trap::NotInitialized))
            } else if !(s.slots[DataKey::Admin].value is Account) {
                Some(Failure::Trap(Trap::MalformedEntry))
            } else if s.slots[DataKey::Admin].value != Datum::Account(admin) {
                Some(Failure::Trap(Trap::NotAdmin))
            } else if version == SCHEMA_VERSION {
                Some(Failure::Error(ContractError::SchemaAlreadyCurrent))
            } else if version > SCHEMA_VERSION {
                Some(Failure::Error(ContractError::SchemaDowngrade))
            } else {
                None
            };
            &&& step.signer == Some(admin)
            &&& wrong matches Some(failure) ==> {
                &&& step.outcome == Err::<u32, Failure>(failure)
                &&& t == s
            }
            &&& wrong is None && version >= 3 ==> step.outcome is Ok
            &&& wrong is None && step.outcome is Err ==> step.outcome->Err_0 is Trap
            &&& step.outcome is Err ==> step.actions.len() == 0
            &&& step.outcome is Ok ==> {
                &&& step.outcome == Ok::<u32, Failure>(SCHEMA_VERSION)
                &&& step.actions.len() == 1
                &&& step.actions[0] == Action::Publish {
                    version: EVENT_SCHEMA_VERSION,
                    event: Event::Migrate { from_version: version, to_version: SCHEMA_VERSION },
                }
                &&& holds(t, DataKey::SchemaVersion, Datum::Number(SCHEMA_VERSION))
                &&& forall|key: DataKey|
                    key != DataKey::SchemaVersion && (version >= 3 || !is_list_key(key))
                        ==> #[trigger] same_entry(s, t, key)
            }
        }),
{
    if let Ok(count) = s.number_or_zero(DataKey::EscrowCount) {
        assert forall|key: DataKey| !is_list_key(key) implies #[trigger] same_entry(
            s,
            backfilled(s, count as nat).storage,
            key,
        ) by {
            lemma_backfill_writes_lists(s, count as nat, key);
        }
        let t = migrate_step(s, admin).storage;
        assert forall|key: DataKey|
            key != DataKey::SchemaVersion && !is_list_key(key) && migrate_step(
                s,
                admin,
            ).outcome is Ok implies #[trigger] same_entry(s, t, key) by {
            assert(same_entry(s, backfilled(s, count as nat).storage, key));
        }
    }
}

} // verus!
