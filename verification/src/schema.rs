//! The version of the storage's layout, and its migration.
use soroban_sdk::{Address, Env};
use vstd::prelude::*;

use crate::escrows::{index_escrow_accounts, indexed};
use crate::outcome::{published, Action, Answer, Event, Failure, Step, Trap};
use crate::records::read_escrow;
use crate::sdk::{number_value, same_address, Datum};
use crate::storage::{account, number_or_zero, put, storage, Run, Storage};
use crate::types::{ContractError, DataKey, MicroPayContract, EVENT_SCHEMA_VERSION, SCHEMA_VERSION};

verus! {

/// The first layout that has the lists of escrows by account.
pub const ESCROW_LISTS_VERSION: u32 = 3;

/// The first `n` escrows put into the lists of their accounts.
pub open spec fn backfilled(s: Storage, n: nat) -> Run
    decreases n,
{
    if n == 0 {
        Run { storage: s, trap: None }
    } else {
        let before = backfilled(s, (n - 1) as nat);
        let id = (n - 1) as u32;
        if before.trap is Some {
            before
        } else {
            match before.storage.escrow(DataKey::Escrow(id), Trap::EscrowMissingInBackfill) {
                Err(trap) => Run { trap: Some(trap), ..before },
                Ok(escrow) => indexed(before.storage, escrow.from, escrow.to, id),
            }
        }
    }
}

/// The rewriting of entries that a migration from layout `version` asks for.
pub open spec fn rewritten(s: Storage, version: u32) -> Run {
    if version >= ESCROW_LISTS_VERSION {
        Run { storage: s, trap: None }
    } else {
        match s.number_or_zero(DataKey::EscrowCount) {
            Err(trap) => Run { storage: s, trap: Some(trap) },
            Ok(count) => backfilled(s, count as nat),
        }
    }
}

/// Migrating the storage to the current layout: for the administrator alone.
pub open spec fn migrate_step(s: Storage, admin: Address) -> Step<u32> {
    let signer = Some(admin);
    match s.account(DataKey::Admin, Trap::NotInitialized) {
        Err(trap) => Step::trapped(s, signer, trap),
        Ok(stored) => if admin != stored {
            Step::trapped(s, signer, Trap::NotAdmin)
        } else {
            match s.number_or_zero(DataKey::SchemaVersion) {
                Err(trap) => Step::trapped(s, signer, trap),
                Ok(version) => if version == SCHEMA_VERSION {
                    Step::failed(s, signer, Failure::Error(ContractError::SchemaAlreadyCurrent))
                } else if version > SCHEMA_VERSION {
                    Step::failed(s, signer, Failure::Error(ContractError::SchemaDowngrade))
                } else {
                    let run = rewritten(s, version);
                    match run.trap {
                        Some(trap) => Step::trapped(run.storage, signer, trap),
                        None => Step::done(
                            run.storage.put(DataKey::SchemaVersion, Datum::Number(SCHEMA_VERSION)),
                            signer,
                            SCHEMA_VERSION,
                            seq![
                                published(
                                    Event::Migrate {
                                        from_version: version,
                                        to_version: SCHEMA_VERSION,
                                    },
                                ),
                            ],
                        ),
                    }
                },
            }
        },
    }
}

/// A backfill that stopped stays where it stopped.
proof fn lemma_backfilled_trap(s: Storage, n: nat, m: nat)
    requires
        n <= m,
        backfilled(s, n).trap is Some,
    ensures
        backfilled(s, m) == backfilled(s, n),
    decreases m,
{
    if n < m {
        lemma_backfilled_trap(s, n, (m - 1) as nat);
    }
}

/// Puts the escrows that were created before the lists existed into them.
fn backfill_escrow_lists(env: &mut Env) -> (r: Result<(), Trap>)
    ensures
        ({
            let run = rewritten(storage(*old(env)), 0);
            &&& storage(*final(env)) == run.storage
            &&& match run.trap {
                Some(trap) => r == Err::<(), Trap>(trap),
                None => r is Ok,
            }
        }),
{
    let count: u32 = number_or_zero(env, &DataKey::EscrowCount)?;
    let ghost before = storage(*env);
    for id in 0..count
        invariant
            before == storage(*old(env)),
            before.number_or_zero(DataKey::EscrowCount) == Ok::<u32, Trap>(count),
            backfilled(before, id as nat) == (Run { storage: storage(*env), trap: None }),
    {
        proof {
            if backfilled(before, (id + 1) as nat).trap is Some {
                lemma_backfilled_trap(before, (id + 1) as nat, count as nat);
            }
        }
        let escrow = read_escrow(env, &DataKey::Escrow(id), Trap::EscrowMissingInBackfill)?;
        index_escrow_accounts(env, &escrow.from, &escrow.to, id)?;
    }
    Ok(())
}

impl MicroPayContract {
    /// The version of the layout that the storage is in; zero if the contract
    /// is older than versions are.
    pub fn get_schema_version(env: &Env) -> (r: Result<u32, Trap>)
        ensures
            r == storage(*env).number_or_zero(DataKey::SchemaVersion),
    {
        number_or_zero(env, &DataKey::SchemaVersion)
    }

    /// Brings the storage to the current layout, and returns its version.
    pub fn migrate(env: &mut Env, admin: Address) -> (r: Answer<u32>)
        ensures
            migrate_step(storage(*old(env)), admin).gives(storage(*final(env)), r),
    {
        let stored = match account(env, &DataKey::Admin, Trap::NotInitialized) {
            Ok(stored) => stored,
            Err(trap) => {
                return Answer::trapped(Some(admin), trap);
            },
        };
        if !same_address(&admin, &stored) {
            return Answer::trapped(Some(admin), Trap::NotAdmin);
        }
        let version: u32 = match number_or_zero(env, &DataKey::SchemaVersion) {
            Ok(version) => version,
            Err(trap) => {
                return Answer::trapped(Some(admin), trap);
            },
        };
        if version == SCHEMA_VERSION {
            return Answer::failed(
                Some(admin),
                Failure::Error(ContractError::SchemaAlreadyCurrent),
            );
        }
        if version > SCHEMA_VERSION {
            return Answer::failed(Some(admin), Failure::Error(ContractError::SchemaDowngrade));
        }
        if version < ESCROW_LISTS_VERSION {
            if let Err(trap) = backfill_escrow_lists(env) {
                return Answer::trapped(Some(admin), trap);
            }
        }
        let version_value = number_value(env, SCHEMA_VERSION);
        put(env, &DataKey::SchemaVersion, &version_value);
        let event = Event::Migrate { from_version: version, to_version: SCHEMA_VERSION };
        let actions: Vec<Action> = vec![Action::Publish { version: EVENT_SCHEMA_VERSION, event }];
        Answer { signer: Some(admin), actions, outcome: Ok(SCHEMA_VERSION) }
    }
}

} // verus!
