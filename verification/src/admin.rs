//! The administrator of the contract.
use soroban_sdk::{Address, Env};
use vstd::prelude::*;

use crate::outcome::{published, Action, Answer, Event, Failure, Step, Trap};
use crate::sdk::{account_value, number_value, same_address, Datum};
use crate::storage::{account, extend_persistent_ttl, has, put, storage, Storage};
use crate::types::{ContractError, DataKey, MicroPayContract, EVENT_SCHEMA_VERSION, SCHEMA_VERSION};

verus! {

/// Initializing the contract: works once, and stamps the storage with the
/// current layout.
pub open spec fn initialize_step(s: Storage, admin: Address) -> Step<()> {
    if s.has(DataKey::Admin) {
        Step::failed(s, None, Failure::Error(ContractError::AlreadyInitialized))
    } else {
        Step::done(
            s.put(DataKey::Admin, Datum::Account(admin)).put(
                DataKey::SchemaVersion,
                Datum::Number(SCHEMA_VERSION),
            ),
            None,
            (),
            seq![published(Event::Init { admin })],
        )
    }
}

/// Handing the contract over: for the administrator alone.
pub open spec fn transfer_admin_step(s: Storage, current_admin: Address, new_admin: Address) -> Step<
    (),
> {
    let signer = Some(current_admin);
    match s.account(DataKey::Admin, Trap::NotInitialized) {
        Err(trap) => Step::trapped(s, signer, trap),
        Ok(stored) => if current_admin != stored {
            Step::trapped(s, signer, Trap::NotAdmin)
        } else {
            Step::done(
                s.put(DataKey::Admin, Datum::Account(new_admin)),
                signer,
                (),
                Seq::empty(),
            )
        },
    }
}

impl MicroPayContract {
    /// Makes `admin` the administrator of a new contract.
    pub fn initialize(env: &mut Env, admin: Address) -> (r: Answer<()>)
        ensures
            initialize_step(storage(*old(env)), admin).gives(storage(*final(env)), r),
    {
        if has(env, &DataKey::Admin) {
            return Answer::failed(None, Failure::Error(ContractError::AlreadyInitialized));
        }
        let admin_value = account_value(&admin);
        put(env, &DataKey::Admin, &admin_value);
        let version_value = number_value(env, SCHEMA_VERSION);
        put(env, &DataKey::SchemaVersion, &version_value);
        let actions: Vec<Action> = vec![
            Action::Publish { version: EVENT_SCHEMA_VERSION, event: Event::Init { admin } },
        ];
        Answer { signer: None, actions, outcome: Ok(()) }
    }

    /// Makes `new_admin` the administrator.
    pub fn transfer_admin(env: &mut Env, current_admin: Address, new_admin: Address) -> (r: Answer<
        (),
    >)
        ensures
            transfer_admin_step(storage(*old(env)), current_admin, new_admin).gives(
                storage(*final(env)),
                r,
            ),
    {
        let stored = match account(env, &DataKey::Admin, Trap::NotInitialized) {
            Ok(stored) => stored,
            Err(trap) => {
                return Answer::trapped(Some(current_admin), trap);
            },
        };
        if !same_address(&current_admin, &stored) {
            return Answer::trapped(Some(current_admin), Trap::NotAdmin);
        }
        let admin_value = account_value(&new_admin);
        put(env, &DataKey::Admin, &admin_value);
        Answer { signer: Some(current_admin), actions: Vec::new(), outcome: Ok(()) }
    }

    /// The administrator.
    pub fn get_admin(env: &mut Env) -> (r: Result<Address, Trap>)
        ensures
            r == storage(*old(env)).account(DataKey::Admin, Trap::NotInitialized),
            storage(*final(env)) == if r is Ok {
                storage(*old(env)).renew(DataKey::Admin)
            } else {
                storage(*old(env))
            },
    {
        let admin = account(env, &DataKey::Admin, Trap::NotInitialized)?;
        extend_persistent_ttl(env, &DataKey::Admin);
        Ok(admin)
    }
}

} // verus!
