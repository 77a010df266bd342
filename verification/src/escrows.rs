//! Escrows: amounts held for a recipient until a ledger, and the lists of the
//! escrows that an account has sent or can claim.
use soroban_sdk::{Address, Env};
use vstd::prelude::*;

use crate::arith::{checked_next, next};
use crate::clock::{current_ledger, is_current_ledger};
use crate::outcome::{published, Action, Answer, Event, Failure, Party, Step, Trap};
use crate::records::read_escrow;
use crate::sdk::{number_items, number_list, number_value, Datum};
use crate::storage::{extend_persistent_ttl, extend_present_ttl, number, number_or_zero, put,
    storage, Run, Storage};
use crate::types::{ContractError, DataKey, Escrow, EscrowStatus, MicroPayContract,
    EVENT_SCHEMA_VERSION, MAX_ESCROW_PAGE_SIZE};

verus! {

/// A side of an escrow.
#[derive(Copy, Clone, Debug, PartialEq, Eq, Structural)]
pub enum Role {
    Sender,
    Recipient,
}

impl Role {
    /// Where the number of escrows of `account` in this role is kept.
    pub open spec fn count_key(self, account: Address) -> DataKey {
        match self {
            Role::Sender => DataKey::EscrowSenderCount(account),
            Role::Recipient => DataKey::EscrowRecipientCount(account),
        }
    }

    /// Where the id of an escrow of `account` in this role is kept.
    pub open spec fn index_key(self, account: Address, index: u32) -> DataKey {
        match self {
            Role::Sender => DataKey::EscrowSenderIndex(account, index),
            Role::Recipient => DataKey::EscrowRecipientIndex(account, index),
        }
    }

    /// The key of `count_key`.
    fn key_of_count(&self, account: &Address) -> (r: DataKey)
        ensures
            r == self.count_key(*account),
    {
        match self {
            Role::Sender => DataKey::EscrowSenderCount(account.clone()),
            Role::Recipient => DataKey::EscrowRecipientCount(account.clone()),
        }
    }

    /// The key of `index_key`.
    fn key_of_index(&self, account: &Address, index: u32) -> (r: DataKey)
        ensures
            r == self.index_key(*account, index),
    {
        match self {
            Role::Sender => DataKey::EscrowSenderIndex(account.clone(), index),
            Role::Recipient => DataKey::EscrowRecipientIndex(account.clone(), index),
        }
    }
}

/// The storage with escrow `id` at the end of a list of `account`.
pub open spec fn appended(s: Storage, role: Role, account: Address, id: u32) -> Result<
    Storage,
    Trap,
> {
    match s.number_or_zero(role.count_key(account)) {
        Err(trap) => Err(trap),
        Ok(count) => match next(count) {
            Err(trap) => Err(trap),
            Ok(new_count) => Ok(
                s.put(role.index_key(account, count), Datum::Number(id)).put(
                    role.count_key(account),
                    Datum::Number(new_count),
                ),
            ),
        },
    }
}

/// Escrow `id` put into the lists of both its sides.
pub open spec fn indexed(s: Storage, from: Address, to: Address, id: u32) -> Run {
    match appended(s, Role::Sender, from, id) {
        Err(trap) => Run { storage: s, trap: Some(trap) },
        Ok(sent) => match appended(sent, Role::Recipient, to, id) {
            Err(trap) => Run { storage: sent, trap: Some(trap) },
            Ok(both) => Run { storage: both, trap: None },
        },
    }
}

/// How many ids a page holds at most: all that a page can hold, if no limit
/// is given.
pub open spec fn page_size(limit: u32) -> u32 {
    if limit == 0 || limit > MAX_ESCROW_PAGE_SIZE {
        MAX_ESCROW_PAGE_SIZE
    } else {
        limit
    }
}

/// Where a page begins in a list of length `total`.
pub open spec fn page_start(total: u32, offset: u32) -> u32 {
    if offset < total {
        offset
    } else {
        total
    }
}

/// Where a page ends in a list of length `total`.
pub open spec fn page_end(total: u32, offset: u32, limit: u32) -> u32 {
    if offset + page_size(limit) < total {
        (offset + page_size(limit)) as u32
    } else {
        total
    }
}

/// A part of a list of escrow ids.
pub struct Listing {
    pub storage: Storage,
    pub ids: Seq<u32>,
    /// Why the listing went no further, if it did not.
    pub trap: Option<Trap>,
}

/// The `n` ids from place `start` on. Reading an entry extends its lifetime.
pub open spec fn listed(s: Storage, role: Role, account: Address, start: u32, n: nat) -> Listing
    decreases n,
{
    if n == 0 {
        Listing { storage: s, ids: Seq::empty(), trap: None }
    } else {
        let before = listed(s, role, account, start, (n - 1) as nat);
        let key = role.index_key(account, (start + n - 1) as u32);
        if before.trap is Some {
            before
        } else {
            match before.storage.number(key, Trap::EscrowIndexMissing) {
                Err(trap) => Listing { trap: Some(trap), ..before },
                Ok(id) => Listing {
                    storage: before.storage.renew(key),
                    ids: before.ids.push(id),
                    trap: None,
                },
            }
        }
    }
}

/// Listing a page of the escrows of `account`.
pub open spec fn page(s: Storage, role: Role, account: Address, offset: u32, limit: u32) -> Listing {
    match s.number_or_zero(role.count_key(account)) {
        Err(trap) => Listing { storage: s, ids: Seq::empty(), trap: Some(trap) },
        Ok(total) => listed(
            s.renew_present(role.count_key(account)),
            role,
            account,
            page_start(total, offset),
            (page_end(total, offset, limit) - page_start(total, offset)) as nat,
        ),
    }
}

/// Creating an escrow at ledger `now`.
pub open spec fn create_escrow_step(
    s: Storage,
    token: Address,
    from: Address,
    to: Address,
    amount: i128,
    release_ledger: u32,
    now: u32,
) -> Step<u32> {
    let signer = Some(from);
    if amount <= 0 {
        Step::trapped(s, signer, Trap::AmountNotPositive)
    } else if release_ledger <= now {
        Step::trapped(s, signer, Trap::ReleaseNotInFuture)
    } else {
        match s.number_or_zero(DataKey::EscrowCount) {
            Err(trap) => Step::trapped(s, signer, trap),
            Ok(id) => match next(id) {
                Err(trap) => Step::trapped(s, signer, trap),
                Ok(new_count) => {
                    let escrow = Escrow {
                        id,
                        from,
                        to,
                        token,
                        amount,
                        release_ledger,
                        status: EscrowStatus::Pending,
                    };
                    let written = s.put(DataKey::Escrow(id), escrow.encoded()).put(
                        DataKey::EscrowCount,
                        Datum::Number(new_count),
                    );
                    let run = indexed(written, from, to, id);
                    match run.trap {
                        Some(trap) => Step::trapped(run.storage, signer, trap),
                        None => Step::done(
                            run.storage,
                            signer,
                            id,
                            seq![
                                Action::Transfer {
                                    token,
                                    from: Party::Account(from),
                                    to: Party::Contract,
                                    amount,
                                },
                                published(
                                    Event::EscrowCreate { id, from, to, amount, release_ledger },
                                ),
                            ],
                        ),
                    }
                },
            },
        }
    }
}

/// Claiming an escrow at ledger `now`: from its release ledger on.
pub open spec fn claim_escrow_step(s: Storage, id: u32, now: u32) -> Step<()> {
    match s.escrow(DataKey::Escrow(id), Trap::EscrowNotFound) {
        Err(trap) => Step::trapped(s, None, trap),
        Ok(escrow) => if escrow.status != EscrowStatus::Pending {
            Step::trapped(s, None, Trap::EscrowNotPending)
        } else if now < escrow.release_ledger {
            Step::failed(s, None, Failure::Error(ContractError::EscrowClaimTooEarly))
        } else {
            Step::done(
                s.put(
                    DataKey::Escrow(id),
                    (Escrow { status: EscrowStatus::Released, ..escrow }).encoded(),
                ),
                Some(escrow.to),
                (),
                seq![
                    published(Event::EscrowClaim { id, to: escrow.to, amount: escrow.amount }),
                    Action::Transfer {
                        token: escrow.token,
                        from: Party::Contract,
                        to: Party::Account(escrow.to),
                        amount: escrow.amount,
                    },
                ],
            )
        },
    }
}

/// Cancelling an escrow at ledger `now`: before its release ledger.
pub open spec fn cancel_escrow_step(s: Storage, id: u32, now: u32) -> Step<()> {
    match s.escrow(DataKey::Escrow(id), Trap::EscrowNotFound) {
        Err(trap) => Step::trapped(s, None, trap),
        Ok(escrow) => if escrow.status != EscrowStatus::Pending {
            Step::trapped(s, None, Trap::EscrowNotPending)
        } else if now >= escrow.release_ledger {
            Step::failed(s, None, Failure::Error(ContractError::EscrowCancelTooLate))
        } else {
            Step::done(
                s.put(
                    DataKey::Escrow(id),
                    (Escrow { status: EscrowStatus::Cancelled, ..escrow }).encoded(),
                ),
                Some(escrow.from),
                (),
                seq![
                    published(Event::EscrowCancel { id, from: escrow.from, amount: escrow.amount }),
                    Action::Transfer {
                        token: escrow.token,
                        from: Party::Contract,
                        to: Party::Account(escrow.from),
                        amount: escrow.amount,
                    },
                ],
            )
        },
    }
}

/// Appends escrow `id` to a list of `account`.
fn append_escrow_index(env: &mut Env, role: Role, account: &Address, id: u32) -> (r: Result<
    (),
    Trap,
>)
    ensures
        match appended(storage(*old(env)), role, *account, id) {
            Ok(after) => r is Ok && storage(*final(env)) == after,
            Err(trap) => r == Err::<(), Trap>(trap) && storage(*final(env)) == storage(*old(env)),
        },
{
    let count_key = role.key_of_count(account);
    let count: u32 = number_or_zero(env, &count_key)?;
    let new_count: u32 = checked_next(count)?;
    let id_value = number_value(env, id);
    put(env, &role.key_of_index(account, count), &id_value);
    let count_value = number_value(env, new_count);
    put(env, &count_key, &count_value);
    Ok(())
}

/// Puts escrow `id` into the lists of both its sides.
pub(crate) fn index_escrow_accounts(env: &mut Env, from: &Address, to: &Address, id: u32) -> (r:
    Result<(), Trap>)
    ensures
        ({
            let run = indexed(storage(*old(env)), *from, *to, id);
            &&& storage(*final(env)) == run.storage
            &&& match run.trap {
                Some(trap) => r == Err::<(), Trap>(trap),
                None => r is Ok,
            }
        }),
{
    append_escrow_index(env, Role::Sender, from, id)?;
    append_escrow_index(env, Role::Recipient, to, id)
}

/// A listing that stopped stays where it stopped.
proof fn lemma_listed_trap(s: Storage, role: Role, account: Address, start: u32, n: nat, m: nat)
    requires
        n <= m,
        listed(s, role, account, start, n).trap is Some,
    ensures
        listed(s, role, account, start, m) == listed(s, role, account, start, n),
    decreases m,
{
    if n < m {
        lemma_listed_trap(s, role, account, start, n, (m - 1) as nat);
    }
}

/// The ids of a page out of the `total` escrows of `account`.
fn list_escrow_ids_for_role(
    env: &mut Env,
    total: u32,
    offset: u32,
    limit: u32,
    role: Role,
    account: &Address,
) -> (r: Result<soroban_sdk::Vec<u32>, Trap>)
    ensures
        ({
            let listing = listed(
                storage(*old(env)),
                role,
                *account,
                page_start(total, offset),
                (page_end(total, offset, limit) - page_start(total, offset)) as nat,
            );
            &&& storage(*final(env)) == listing.storage
            &&& match listing.trap {
                Some(trap) => r is Err && r->Err_0 == trap,
                None => r is Ok && number_items(r->Ok_0) == Some(listing.ids),
            }
        }),
{
    let size: u32 = if limit == 0 || limit > MAX_ESCROW_PAGE_SIZE {
        MAX_ESCROW_PAGE_SIZE
    } else {
        limit
    };
    let start: u32 = if offset < total {
        offset
    } else {
        total
    };
    let unbounded: u32 = offset.saturating_add(size);
    let end: u32 = if unbounded < total {
        unbounded
    } else {
        total
    };
    assert(start == page_start(total, offset));
    assert(end == page_end(total, offset, limit));
    let ghost before = storage(*env);
    let mut ids: Vec<u32> = Vec::new();
    for idx in start..end
        invariant
            start <= end,
            before == storage(*old(env)),
            start == page_start(total, offset),
            end == page_end(total, offset, limit),
            ids@.len() == idx - start,
            ({
                let listing = listed(before, role, *account, start, (idx - start) as nat);
                &&& listing.trap is None
                &&& storage(*env) == listing.storage
                &&& ids@ == listing.ids
            }),
    {
        let key = role.key_of_index(account, idx);
        match number(env, &key, Trap::EscrowIndexMissing) {
            Err(trap) => {
                proof {
                    lemma_listed_trap(
                        before,
                        role,
                        *account,
                        start,
                        (idx - start + 1) as nat,
                        (end - start) as nat,
                    );
                }
                return Err(trap);
            },
            Ok(id) => {
                extend_persistent_ttl(env, &key);
                ids.push(id);
            },
        }
    }
    Ok(number_list(env, &ids))
}

/// The number of escrows of `account` in a role.
fn escrow_count_for_role(env: &mut Env, role: Role, account: &Address) -> (r: Result<u32, Trap>)
    ensures
        r == storage(*old(env)).number_or_zero(role.count_key(*account)),
        storage(*final(env)) == if r is Ok {
            storage(*old(env)).renew_present(role.count_key(*account))
        } else {
            storage(*old(env))
        },
{
    let key = role.key_of_count(account);
    let count: u32 = number_or_zero(env, &key)?;
    extend_present_ttl(env, &key);
    Ok(count)
}

impl MicroPayContract {
    /// Locks `amount` for `to` until `release_ledger`, at the current ledger.
    pub fn create_escrow(
        env: &mut Env,
        token_address: Address,
        from: Address,
        to: Address,
        amount: i128,
        release_ledger: u32,
    ) -> (r: Answer<u32>)
        ensures
            exists|now: u32|
                is_current_ledger(*old(env), now) && #[trigger]
                create_escrow_step(
                    storage(*old(env)),
                    token_address,
                    from,
                    to,
                    amount,
                    release_ledger,
                    now,
                ).gives(storage(*final(env)), r),
    {
        let now: u32 = current_ledger(env);
        MicroPayContract::create_escrow_at(
            env,
            token_address,
            from,
            to,
            amount,
            release_ledger,
            now,
        )
    }

    /// Locks `amount` for `to` until `release_ledger`, at ledger `now`.
    pub fn create_escrow_at(
        env: &mut Env,
        token_address: Address,
        from: Address,
        to: Address,
        amount: i128,
        release_ledger: u32,
        now: u32,
    ) -> (r: Answer<u32>)
        ensures
            create_escrow_step(
                storage(*old(env)),
                token_address,
                from,
                to,
                amount,
                release_ledger,
                now,
            ).gives(storage(*final(env)), r),
    {
        if amount <= 0 {
            return Answer::trapped(Some(from), Trap::AmountNotPositive);
        }
        if release_ledger <= now {
            return Answer::trapped(Some(from), Trap::ReleaseNotInFuture);
        }
        let id: u32 = match number_or_zero(env, &DataKey::EscrowCount) {
            Ok(id) => id,
            Err(trap) => {
                return Answer::trapped(Some(from), trap);
            },
        };
        let new_count: u32 = match checked_next(id) {
            Ok(new_count) => new_count,
            Err(trap) => {
                return Answer::trapped(Some(from), trap);
            },
        };
        let escrow = Escrow {
            id,
            from: from.clone(),
            to: to.clone(),
            token: token_address.clone(),
            amount,
            release_ledger,
            status: EscrowStatus::Pending,
        };
        let escrow_value = escrow.encode(env);
        put(env, &DataKey::Escrow(id), &escrow_value);
        let count_value = number_value(env, new_count);
        put(env, &DataKey::EscrowCount, &count_value);
        match index_escrow_accounts(env, &from, &to, id) {
            Err(trap) => Answer::trapped(Some(from), trap),
            Ok(()) => {
                let event = Event::EscrowCreate {
                    id,
                    from: from.clone(),
                    to,
                    amount,
                    release_ledger,
                };
                let actions: Vec<Action> = vec![
                    Action::Transfer {
                        token: token_address,
                        from: Party::Account(from.clone()),
                        to: Party::Contract,
                        amount,
                    },
                    Action::Publish { version: EVENT_SCHEMA_VERSION, event },
                ];
                Answer { signer: Some(from), actions, outcome: Ok(id) }
            },
        }
    }

    /// Pays an escrow to its recipient, at the current ledger.
    pub fn claim_escrow(env: &mut Env, id: u32) -> (r: Answer<()>)
        ensures
            exists|now: u32|
                is_current_ledger(*old(env), now) && #[trigger]
                claim_escrow_step(storage(*old(env)), id, now).gives(storage(*final(env)), r),
    {
        let now: u32 = current_ledger(env);
        MicroPayContract::claim_escrow_at(env, id, now)
    }

    /// Pays an escrow to its recipient, at ledger `now`. This can be done from
    /// the release ledger on, that ledger included.
    pub fn claim_escrow_at(env: &mut Env, id: u32, now: u32) -> (r: Answer<()>)
        ensures
            claim_escrow_step(storage(*old(env)), id, now).gives(storage(*final(env)), r),
    {
        let escrow = match read_escrow(env, &DataKey::Escrow(id), Trap::EscrowNotFound) {
            Ok(escrow) => escrow,
            Err(trap) => {
                return Answer::trapped(None, trap);
            },
        };
        if escrow.status != EscrowStatus::Pending {
            return Answer::trapped(None, Trap::EscrowNotPending);
        }
        if now < escrow.release_ledger {
            return Answer::failed(None, Failure::Error(ContractError::EscrowClaimTooEarly));
        }
        let escrow = Escrow { status: EscrowStatus::Released, ..escrow };
        let escrow_value = escrow.encode(env);
        put(env, &DataKey::Escrow(id), &escrow_value);
        let event = Event::EscrowClaim { id, to: escrow.to.clone(), amount: escrow.amount };
        let actions: Vec<Action> = vec![
            Action::Publish { version: EVENT_SCHEMA_VERSION, event },
            Action::Transfer {
                token: escrow.token,
                from: Party::Contract,
                to: Party::Account(escrow.to.clone()),
                amount: escrow.amount,
            },
        ];
        Answer { signer: Some(escrow.to), actions, outcome: Ok(()) }
    }

    /// Pays an escrow back to its sender, at the current ledger.
    pub fn cancel_escrow(env: &mut Env, id: u32) -> (r: Answer<()>)
        ensures
            exists|now: u32|
                is_current_ledger(*old(env), now) && #[trigger]
                cancel_escrow_step(storage(*old(env)), id, now).gives(storage(*final(env)), r),
    {
        let now: u32 = current_ledger(env);
        MicroPayContract::cancel_escrow_at(env, id, now)
    }

    /// Pays an escrow back to its sender, at ledger `now`. This can be done
    /// before the release ledger only.
    pub fn cancel_escrow_at(env: &mut Env, id: u32, now: u32) -> (r: Answer<()>)
        ensures
            cancel_escrow_step(storage(*old(env)), id, now).gives(storage(*final(env)), r),
    {
        let escrow = match read_escrow(env, &DataKey::Escrow(id), Trap::EscrowNotFound) {
            Ok(escrow) => escrow,
            Err(trap) => {
                return Answer::trapped(None, trap);
            },
        };
        if escrow.status != EscrowStatus::Pending {
            return Answer::trapped(None, Trap::EscrowNotPending);
        }
        if now >= escrow.release_ledger {
            return Answer::failed(None, Failure::Error(ContractError::EscrowCancelTooLate));
        }
        let escrow = Escrow { status: EscrowStatus::Cancelled, ..escrow };
        let escrow_value = escrow.encode(env);
        put(env, &DataKey::Escrow(id), &escrow_value);
        let event = Event::EscrowCancel { id, from: escrow.from.clone(), amount: escrow.amount };
        let actions: Vec<Action> = vec![
            Action::Publish { version: EVENT_SCHEMA_VERSION, event },
            Action::Transfer {
                token: escrow.token,
                from: Party::Contract,
                to: Party::Account(escrow.from.clone()),
                amount: escrow.amount,
            },
        ];
        Answer { signer: Some(escrow.from), actions, outcome: Ok(()) }
    }

    /// An escrow.
    pub fn get_escrow(env: &mut Env, id: u32) -> (r: Result<Escrow, Trap>)
        ensures
            r == storage(*old(env)).escrow(DataKey::Escrow(id), Trap::EscrowNotFound),
            storage(*final(env)) == if r is Ok {
                storage(*old(env)).renew(DataKey::Escrow(id))
            } else {
                storage(*old(env))
            },
    {
        let key = DataKey::Escrow(id);
        let escrow = read_escrow(env, &key, Trap::EscrowNotFound)?;
        extend_persistent_ttl(env, &key);
        Ok(escrow)
    }

    /// The number of escrows ever created.
    pub fn get_escrow_count(env: &Env) -> (r: Result<u32, Trap>)
        ensures
            r == storage(*env).number_or_zero(DataKey::EscrowCount),
    {
        number_or_zero(env, &DataKey::EscrowCount)
    }

    /// A page of the ids of the escrows that `sender` has created, oldest
    /// first. Escrows stay in the list when they are claimed or cancelled.
    pub fn list_escrow_ids_for_sender(env: &mut Env, sender: Address, offset: u32, limit: u32) -> (r:
        Result<soroban_sdk::Vec<u32>, Trap>)
        ensures
            ({
                let listing = page(storage(*old(env)), Role::Sender, sender, offset, limit);
                &&& storage(*final(env)) == listing.storage
                &&& match listing.trap {
                    Some(trap) => r is Err && r->Err_0 == trap,
                    None => r is Ok && number_items(r->Ok_0) == Some(listing.ids),
                }
            }),
    {
        let total: u32 = MicroPayContract::get_escrow_sender_count(env, sender.clone())?;
        list_escrow_ids_for_role(env, total, offset, limit, Role::Sender, &sender)
    }

    /// A page of the ids of the escrows that are payable to `recipient`,
    /// oldest first. Escrows stay in the list when they are claimed or
    /// cancelled.
    pub fn list_escrow_ids_for_recipient(
        env: &mut Env,
        recipient: Address,
        offset: u32,
        limit: u32,
    ) -> (r: Result<soroban_sdk::Vec<u32>, Trap>)
        ensures
            ({
                let listing = page(storage(*old(env)), Role::Recipient, recipient, offset, limit);
                &&& storage(*final(env)) == listing.storage
                &&& match listing.trap {
                    Some(trap) => r is Err && r->Err_0 == trap,
                    None => r is Ok && number_items(r->Ok_0) == Some(listing.ids),
                }
            }),
    {
        let total: u32 = MicroPayContract::get_escrow_recipient_count(env, recipient.clone())?;
        list_escrow_ids_for_role(env, total, offset, limit, Role::Recipient, &recipient)
    }

    /// The number of escrows that `sender` has created.
    pub fn get_escrow_sender_count(env: &mut Env, sender: Address) -> (r: Result<u32, Trap>)
        ensures
            r == storage(*old(env)).number_or_zero(DataKey::EscrowSenderCount(sender)),
            storage(*final(env)) == if r is Ok {
                storage(*old(env)).renew_present(DataKey::EscrowSenderCount(sender))
            } else {
                storage(*old(env))
            },
    {
        escrow_count_for_role(env, Role::Sender, &sender)
    }

    /// The number of escrows that are payable to `recipient`.
    pub fn get_escrow_recipient_count(env: &mut Env, recipient: Address) -> (r: Result<u32, Trap>)
        ensures
            r == storage(*old(env)).number_or_zero(DataKey::EscrowRecipientCount(recipient)),
            storage(*final(env)) == if r is Ok {
                storage(*old(env)).renew_present(DataKey::EscrowRecipientCount(recipient))
            } else {
                storage(*old(env))
            },
    {
        escrow_count_for_role(env, Role::Recipient, &recipient)
    }
}

} // verus!
