//! What holds of the administrator and of the version of the layout.
use soroban_sdk::Address;
use vstd::prelude::*;

use crate::admin::{initialize_step, transfer_admin_step};
use crate::escrows::Role;
use crate::laws::calls::{law_calls_keep_to_their_records, lemma_backfilled_frame, same_family,
    unchanged, AdminCall, Call, Family};
use crate::laws::escrows::{escrow_at, escrow_count, escrows_sound, has_sound_escrow, ids_below,
    lemma_ids_below_len, lemma_indexed, lemma_same_escrows, lemma_same_ids, lemma_same_list,
    list_ids, list_len, list_readable, list_sound, lists_sound};
use crate::outcome::{Failure, Trap};
use crate::schema::{backfilled, migrate_step, ESCROW_LISTS_VERSION};
use crate::storage::Storage;
use crate::types::{ContractError, DataKey, SCHEMA_VERSION};

verus! {

/// A contract that was initialized, and is in the current layout.
pub open spec fn current(s: Storage, admin: Address) -> bool {
    &&& s.account(DataKey::Admin, Trap::NotInitialized) == Ok::<Address, Trap>(admin)
    &&& s.number_or_zero(DataKey::SchemaVersion) == Ok::<u32, Trap>(SCHEMA_VERSION)
}

/// A contract is initialized once. It then has its administrator and is in the
/// current layout, and another try is refused whoever makes it.
pub proof fn law_initialized_once(s: Storage, admin: Address, other: Address)
    ensures
        initialize_step(s, admin).outcome is Ok <==> !s.has(DataKey::Admin),
        initialize_step(s, admin).outcome is Ok ==> current(initialize_step(s, admin).storage, admin),
        s.has(DataKey::Admin) ==> initialize_step(s, other).outcome == Err::<(), Failure>(
            Failure::Error(ContractError::AlreadyInitialized),
        ),
        initialize_step(s, admin).outcome is Ok ==> initialize_step(
            initialize_step(s, admin).storage,
            other,
        ).outcome == Err::<(), Failure>(Failure::Error(ContractError::AlreadyInitialized)),
{
}

/// Only the administrator can hand the contract over, and has to sign for it.
pub proof fn law_only_admin_hands_over(s: Storage, current_admin: Address, new_admin: Address)
    ensures
        transfer_admin_step(s, current_admin, new_admin).signer == Some(current_admin),
        transfer_admin_step(s, current_admin, new_admin).outcome is Ok <==> s.account(
            DataKey::Admin,
            Trap::NotInitialized,
        ) == Ok::<Address, Trap>(current_admin),
        transfer_admin_step(s, current_admin, new_admin).outcome is Ok
            ==> transfer_admin_step(s, current_admin, new_admin).storage.account(
            DataKey::Admin,
            Trap::NotInitialized,
        ) == Ok::<Address, Trap>(new_admin),
{
}

/// Once there is an administrator, nothing but a call that the administrator
/// signs puts another in their place.
pub proof fn law_admin_changes_by_own_hand(s: Storage, call: Call, now: u32, admin: Address)
    requires
        s.account(DataKey::Admin, Trap::NotInitialized) == Ok::<Address, Trap>(admin),
    ensures
        call.effect(s, now).storage.account(DataKey::Admin, Trap::NotInitialized) is Ok,
        call.effect(s, now).storage.account(DataKey::Admin, Trap::NotInitialized) != Ok::<
            Address,
            Trap,
        >(admin) ==> call.effect(s, now).signer == Some(admin),
{
    let after = call.effect(s, now).storage;
    match call {
        Call::Admin(AdminCall::Migrate { .. }) => {
            law_calls_keep_to_their_records(s, call, now, Family::Admin);
            assert(unchanged(s, after, DataKey::Admin));
        },
        Call::Admin(call) => {
            reveal(AdminCall::effect);
        },
        _ => {
            law_calls_keep_to_their_records(s, call, now, Family::Admin);
            assert(unchanged(s, after, DataKey::Admin));
        },
    }
}

/// A contract in the current layout stays in it.
pub proof fn law_layout_stays_current(s: Storage, call: Call, now: u32, admin: Address)
    requires
        current(s, admin),
    ensures
        call.effect(s, now).storage.number_or_zero(DataKey::SchemaVersion) == Ok::<u32, Trap>(
            SCHEMA_VERSION,
        ),
{
    match call {
        Call::Admin(call) => {
            reveal(AdminCall::effect);
        },
        _ => {
            law_calls_keep_to_their_records(s, call, now, Family::Schema);
            assert(unchanged(s, call.effect(s, now).storage, DataKey::SchemaVersion));
        },
    }
}

/// No list has been written yet.
pub open spec fn no_lists(s: Storage) -> bool {
    forall|role: Role, account: Address| !(#[trigger] s.has(role.count_key(account)))
}

/// Backfilling the lists of a storage that has none puts the first `n` escrows
/// into them.
proof fn lemma_backfilled(s: Storage, n: nat)
    requires
        escrows_sound(s),
        no_lists(s),
        n <= escrow_count(s),
    ensures
        backfilled(s, n).trap is None,
        forall|role: Role, account: Address| #[trigger]
            list_readable(backfilled(s, n).storage, role, account),
        forall|role: Role, account: Address| #[trigger]
            list_ids(backfilled(s, n).storage, role, account) == ids_below(s, role, account, n),
    decreases n,
{
    if n == 0 {
        assert forall|role: Role, account: Address|
            #![trigger list_readable(s, role, account)]
            #![trigger list_ids(s, role, account)]
            list_readable(s, role, account) && list_ids(s, role, account) == ids_below(
                s,
                role,
                account,
                0,
            ) by {
            assert(!s.has(role.count_key(account)));
            assert(list_len(s, role, account) == 0);
            assert(list_ids(s, role, account) =~= Seq::empty());
        }
    } else {
        let m = (n - 1) as nat;
        let id = m as u32;
        let before = backfilled(s, m).storage;
        lemma_backfilled(s, m);
        lemma_backfilled_frame(s, m, Family::Escrows);
        lemma_same_escrows(s, before);
        assert(has_sound_escrow(s, id));
        let escrow = escrow_at(s, id);
        assert(unchanged(s, before, DataKey::Escrow(id)));
        assert(before.escrow(DataKey::Escrow(id), Trap::EscrowMissingInBackfill) == Ok::<_, Trap>(
            escrow,
        ));
        lemma_ids_below_len(s, Role::Sender, escrow.from, m);
        lemma_ids_below_len(s, Role::Recipient, escrow.to, m);
        assert(list_ids(before, Role::Sender, escrow.from).len() <= m);
        assert(list_ids(before, Role::Recipient, escrow.to).len() <= m);
        lemma_indexed(before, escrow.from, escrow.to, id, Role::Sender, escrow.from);
        let after = backfilled(s, n).storage;
        assert forall|role: Role, account: Address|
            #![trigger list_readable(after, role, account)]
            #![trigger list_ids(after, role, account)]
            list_readable(after, role, account) && list_ids(after, role, account) == ids_below(
                s,
                role,
                account,
                n,
            ) by {
            lemma_indexed(before, escrow.from, escrow.to, id, role, account);
            assert(list_ids(before, role, account) == ids_below(s, role, account, m));
        }
    }
}

/// Migrating a storage from before the lists puts every escrow into the lists
/// of its two sides, oldest first. No escrow changes.
pub proof fn law_migration_builds_the_lists(s: Storage, admin: Address)
    requires
        escrows_sound(s),
        no_lists(s),
        s.account(DataKey::Admin, Trap::NotInitialized) == Ok::<Address, Trap>(admin),
        s.number_or_zero(DataKey::SchemaVersion) is Ok,
        s.number_or_zero(DataKey::SchemaVersion)->Ok_0 < ESCROW_LISTS_VERSION,
    ensures
        migrate_step(s, admin).outcome == Ok::<u32, Failure>(SCHEMA_VERSION),
        escrows_sound(migrate_step(s, admin).storage),
        lists_sound(migrate_step(s, admin).storage),
        forall|id: u32| #[trigger]
            escrow_at(migrate_step(s, admin).storage, id) == escrow_at(s, id),
        escrow_count(migrate_step(s, admin).storage) == escrow_count(s),
        current(migrate_step(s, admin).storage, admin),
{
    let n = escrow_count(s) as nat;
    let filled = backfilled(s, n).storage;
    let after = migrate_step(s, admin).storage;
    lemma_backfilled(s, n);
    lemma_backfilled_frame(s, n, Family::Escrows);
    lemma_same_escrows(s, filled);
    assert(same_family(filled, after, Family::Escrows));
    lemma_same_escrows(filled, after);
    lemma_backfilled_frame(s, n, Family::Admin);
    assert(unchanged(s, filled, DataKey::Admin));
    assert forall|id: u32| #[trigger] escrow_at(after, id) == escrow_at(s, id) by {
        assert(escrow_at(filled, id) == escrow_at(s, id));
    }
    assert forall|role: Role, account: Address| #[trigger] list_sound(after, role, account) by {
        assert(list_readable(filled, role, account));
        assert(list_ids(filled, role, account) == ids_below(s, role, account, n));
        assert(unchanged(filled, after, role.count_key(account)));
        assert forall|i: u32| #[trigger] unchanged(filled, after, role.index_key(account, i)) by {}
        lemma_same_list(filled, after, role, account);
        lemma_same_ids(s, after, role, account, n);
    }
}

/// A migration is done once: a storage in the current layout is left as it is,
/// and so is one in a layout that is not known yet.
pub proof fn law_migrated_once(s: Storage, admin: Address)
    requires
        s.account(DataKey::Admin, Trap::NotInitialized) == Ok::<Address, Trap>(admin),
    ensures
        migrate_step(s, admin).outcome is Ok ==> current(migrate_step(s, admin).storage, admin)
            && migrate_step(migrate_step(s, admin).storage, admin).outcome == Err::<u32, Failure>(
            Failure::Error(ContractError::SchemaAlreadyCurrent),
        ),
        s.number_or_zero(DataKey::SchemaVersion) matches Ok(version) ==> {
            &&& version == SCHEMA_VERSION ==> migrate_step(s, admin).outcome == Err::<
                u32,
                Failure,
            >(Failure::Error(ContractError::SchemaAlreadyCurrent))
            &&& version > SCHEMA_VERSION ==> migrate_step(s, admin).outcome == Err::<u32, Failure>(
                Failure::Error(ContractError::SchemaDowngrade),
            )
            &&& version >= SCHEMA_VERSION ==> migrate_step(s, admin).storage == s
        },
{
    if let Ok(count) = s.number_or_zero(DataKey::EscrowCount) {
        lemma_backfilled_frame(s, count as nat, Family::Admin);
        assert(unchanged(s, backfilled(s, count as nat).storage, DataKey::Admin));
    }
}

/// Only the administrator can migrate, and has to sign for it.
pub proof fn law_only_admin_migrates(s: Storage, admin: Address)
    ensures
        migrate_step(s, admin).signer == Some(admin),
        migrate_step(s, admin).outcome is Ok ==> s.account(DataKey::Admin, Trap::NotInitialized)
            == Ok::<Address, Trap>(admin),
{
}

} // verus!
