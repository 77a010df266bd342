//! Tips: one at a time, or many in a batch.
use soroban_sdk::{Address, Env};
use vstd::prelude::*;

use crate::arith::{checked_next, checked_plus, next, plus};
use crate::clock::{current_ledger, is_current_ledger};
use crate::outcome::{published, Action, Answer, Event, Party, Step, Trap};
use crate::records::read_tip;
use crate::sdk::{address_items, amount_items, amount_value, list_of_addresses,
    list_of_amounts, number_value, Datum};
use crate::storage::{amount_or_zero, extend_persistent_ttl, extend_present_ttl, number_or_zero, put,
    storage, Storage};
use crate::types::{DataKey, MicroPayContract, TipRecord, EVENT_SCHEMA_VERSION};

verus! {

/// The storage after a tip: its amount is added to the total of `to`, and its
/// record is the next one of `to`.
pub open spec fn tipped(s: Storage, tip: TipRecord) -> Result<Storage, Trap> {
    match (
        s.amount_or_zero(DataKey::TipTotal(tip.to)),
        s.number_or_zero(DataKey::TipCount(tip.to)),
    ) {
        (Err(trap), _) => Err(trap),
        (_, Err(trap)) => Err(trap),
        (Ok(total), Ok(count)) => match (plus(total, tip.amount), next(count)) {
            (Err(trap), _) => Err(trap),
            (_, Err(trap)) => Err(trap),
            (Ok(new_total), Ok(new_count)) => Ok(
                s.put(DataKey::TipTotal(tip.to), Datum::Amount(new_total)).put(
                    DataKey::TipCount(tip.to),
                    Datum::Number(new_count),
                ).put(DataKey::TipRecord(tip.to, count), tip.encoded()),
            ),
        },
    }
}

/// The transfer of a tip.
pub open spec fn tip_transfer(token: Address, tip: TipRecord) -> Action {
    Action::Transfer {
        token,
        from: Party::Account(tip.from),
        to: Party::Account(tip.to),
        amount: tip.amount,
    }
}

/// Sending a tip at ledger `now`.
pub open spec fn send_tip_step(
    s: Storage,
    token: Address,
    from: Address,
    to: Address,
    amount: i128,
    now: u32,
) -> Step<()> {
    let signer = Some(from);
    let tip = TipRecord { from, to, amount, ledger: now };
    if amount <= 0 {
        Step::trapped(s, signer, Trap::TipAmountNotPositive)
    } else {
        match tipped(s, tip) {
            Err(trap) => Step::trapped(s, signer, trap),
            Ok(after) => Step::done(
                after,
                signer,
                (),
                seq![published(Event::Tip { from, to, amount }), tip_transfer(token, tip)],
            ),
        }
    }
}

/// A batch of tips, part of the way through.
pub struct Batch {
    pub storage: Storage,
    pub actions: Seq<Action>,
    /// Why the batch went no further, if it did not.
    pub trap: Option<Trap>,
}

/// The first `n` tips of a batch, one after the other.
pub open spec fn batch(
    s: Storage,
    token: Address,
    from: Address,
    recipients: Seq<Address>,
    amounts: Seq<i128>,
    now: u32,
    n: nat,
) -> Batch
    decreases n,
{
    if n == 0 {
        Batch { storage: s, actions: Seq::empty(), trap: None }
    } else {
        let before = batch(s, token, from, recipients, amounts, now, (n - 1) as nat);
        let tip = TipRecord {
            from,
            to: recipients[n - 1],
            amount: amounts[n - 1],
            ledger: now,
        };
        if before.trap is Some {
            before
        } else if tip.amount <= 0 {
            Batch { trap: Some(Trap::AmountNotPositive), ..before }
        } else {
            match tipped(before.storage, tip) {
                Err(trap) => Batch { trap: Some(trap), ..before },
                Ok(after) => Batch {
                    storage: after,
                    actions: before.actions.push(tip_transfer(token, tip)),
                    trap: None,
                },
            }
        }
    }
}

/// Sending a batch of tips at ledger `now`.
pub open spec fn batch_send_step(
    s: Storage,
    token: Address,
    from: Address,
    recipients: Option<Seq<Address>>,
    amounts: Option<Seq<i128>>,
    now: u32,
) -> Step<()> {
    let signer = Some(from);
    match (recipients, amounts) {
        (Some(recipients), Some(amounts)) => if recipients.len() != amounts.len() {
            Step::trapped(s, signer, Trap::UnequalArrays)
        } else {
            let all = batch(s, token, from, recipients, amounts, now, recipients.len());
            match all.trap {
                Some(trap) => Step::trapped(all.storage, signer, trap),
                None => Step::done(all.storage, signer, (), all.actions),
            }
        },
        _ => Step::trapped(s, signer, Trap::MalformedArgument),
    }
}

/// A batch that stopped stays where it stopped.
proof fn lemma_batch_trap(
    s: Storage,
    token: Address,
    from: Address,
    recipients: Seq<Address>,
    amounts: Seq<i128>,
    now: u32,
    n: nat,
    m: nat,
)
    requires
        n <= m,
        batch(s, token, from, recipients, amounts, now, n).trap is Some,
    ensures
        batch(s, token, from, recipients, amounts, now, m) == batch(
            s,
            token,
            from,
            recipients,
            amounts,
            now,
            n,
        ),
    decreases m,
{
    if n < m {
        lemma_batch_trap(s, token, from, recipients, amounts, now, n, (m - 1) as nat);
    }
}

/// Writes a tip to the storage.
fn write_tip(env: &mut Env, tip: &TipRecord) -> (r: Result<(), Trap>)
    ensures
        match tipped(storage(*old(env)), *tip) {
            Ok(after) => r is Ok && storage(*final(env)) == after,
            Err(trap) => r == Err::<(), Trap>(trap) && storage(*final(env)) == storage(*old(env)),
        },
{
    let total_key = DataKey::TipTotal(tip.to.clone());
    let count_key = DataKey::TipCount(tip.to.clone());
    let total: i128 = amount_or_zero(env, &total_key)?;
    let count: u32 = number_or_zero(env, &count_key)?;
    let new_total: i128 = checked_plus(total, tip.amount)?;
    let new_count: u32 = checked_next(count)?;

    let total_value = amount_value(env, new_total);
    put(env, &total_key, &total_value);
    let count_value = number_value(env, new_count);
    put(env, &count_key, &count_value);
    let record_value = tip.encode(env);
    put(env, &DataKey::TipRecord(tip.to.clone(), count), &record_value);
    Ok(())
}

impl MicroPayContract {
    /// Sends a tip at the current ledger.
    pub fn send_tip(
        env: &mut Env,
        token_address: Address,
        from: Address,
        to: Address,
        amount: i128,
    ) -> (r: Answer<()>)
        ensures
            exists|now: u32|
                is_current_ledger(*old(env), now) && #[trigger]
                send_tip_step(storage(*old(env)), token_address, from, to, amount, now).gives(
                    storage(*final(env)),
                    r,
                ),
    {
        let now: u32 = current_ledger(env);
        MicroPayContract::send_tip_at(env, token_address, from, to, amount, now)
    }

    /// Sends a tip at ledger `now`.
    pub fn send_tip_at(
        env: &mut Env,
        token_address: Address,
        from: Address,
        to: Address,
        amount: i128,
        now: u32,
    ) -> (r: Answer<()>)
        ensures
            send_tip_step(storage(*old(env)), token_address, from, to, amount, now).gives(
                storage(*final(env)),
                r,
            ),
    {
        if amount <= 0 {
            return Answer::trapped(Some(from), Trap::TipAmountNotPositive);
        }
        let tip = TipRecord { from: from.clone(), to: to.clone(), amount, ledger: now };
        match write_tip(env, &tip) {
            Err(trap) => Answer::trapped(Some(from), trap),
            Ok(()) => {
                let event = Event::Tip { from: from.clone(), to: to.clone(), amount };
                let actions: Vec<Action> = vec![
                    Action::Publish { version: EVENT_SCHEMA_VERSION, event },
                    Action::Transfer {
                        token: token_address,
                        from: Party::Account(from.clone()),
                        to: Party::Account(to),
                        amount,
                    },
                ];
                Answer { signer: Some(from), actions, outcome: Ok(()) }
            },
        }
    }

    /// Sends one tip to each of the recipients at the current ledger.
    pub fn batch_send(
        env: &mut Env,
        token_address: Address,
        from: Address,
        recipients: soroban_sdk::Vec<Address>,
        amounts: soroban_sdk::Vec<i128>,
    ) -> (r: Answer<()>)
        ensures
            exists|now: u32|
                is_current_ledger(*old(env), now) && #[trigger]
                batch_send_step(
                    storage(*old(env)),
                    token_address,
                    from,
                    address_items(recipients),
                    amount_items(amounts),
                    now,
                ).gives(storage(*final(env)), r),
    {
        let now: u32 = current_ledger(env);
        MicroPayContract::batch_send_at(env, token_address, from, recipients, amounts, now)
    }

    /// Sends one tip to each of the recipients at ledger `now`.
    pub fn batch_send_at(
        env: &mut Env,
        token_address: Address,
        from: Address,
        recipients: soroban_sdk::Vec<Address>,
        amounts: soroban_sdk::Vec<i128>,
        now: u32,
    ) -> (r: Answer<()>)
        ensures
            batch_send_step(
                storage(*old(env)),
                token_address,
                from,
                address_items(recipients),
                amount_items(amounts),
                now,
            ).gives(storage(*final(env)), r),
    {
        let (tos, sums) = match (list_of_addresses(&recipients), list_of_amounts(&amounts)) {
            (Some(tos), Some(sums)) => (tos, sums),
            _ => {
                return Answer::trapped(Some(from), Trap::MalformedArgument);
            },
        };
        if tos.len() != sums.len() {
            return Answer::trapped(Some(from), Trap::UnequalArrays);
        }
        let ghost start = storage(*env);
        let mut actions: Vec<Action> = Vec::new();
        for i in 0..tos.len()
            invariant
                tos@.len() == sums@.len(),
                start == storage(*old(env)),
                address_items(recipients) == Some(tos@),
                amount_items(amounts) == Some(sums@),
                ({
                    let done = batch(start, token_address, from, tos@, sums@, now, i as nat);
                    &&& done.trap is None
                    &&& storage(*env) == done.storage
                    &&& actions@ == done.actions
                }),
        {
            let amount: i128 = sums[i];
            if amount <= 0 {
                proof {
                    lemma_batch_trap(
                        start,
                        token_address,
                        from,
                        tos@,
                        sums@,
                        now,
                        (i + 1) as nat,
                        tos@.len(),
                    );
                }
                return Answer::trapped(Some(from), Trap::AmountNotPositive);
            }
            let tip = TipRecord { from: from.clone(), to: tos[i].clone(), amount, ledger: now };
            match write_tip(env, &tip) {
                Err(trap) => {
                    proof {
                        lemma_batch_trap(
                            start,
                            token_address,
                            from,
                            tos@,
                            sums@,
                            now,
                            (i + 1) as nat,
                            tos@.len(),
                        );
                    }
                    return Answer::trapped(Some(from), trap);
                },
                Ok(()) => {
                    actions.push(
                        Action::Transfer {
                            token: token_address.clone(),
                            from: Party::Account(from.clone()),
                            to: Party::Account(tos[i].clone()),
                            amount,
                        },
                    );
                },
            }
        }
        Answer { signer: Some(from), actions, outcome: Ok(()) }
    }

    /// The sum of all tips to `recipient`.
    pub fn get_tip_total(env: &mut Env, recipient: Address) -> (r: Result<i128, Trap>)
        ensures
            r == storage(*old(env)).amount_or_zero(DataKey::TipTotal(recipient)),
            storage(*final(env)) == if r is Ok {
                storage(*old(env)).renew_present(DataKey::TipTotal(recipient))
            } else {
                storage(*old(env))
            },
    {
        let key = DataKey::TipTotal(recipient);
        let total: i128 = amount_or_zero(env, &key)?;
        extend_present_ttl(env, &key);
        Ok(total)
    }

    /// The number of tips to `recipient`.
    pub fn get_tip_count(env: &mut Env, recipient: Address) -> (r: Result<u32, Trap>)
        ensures
            r == storage(*old(env)).number_or_zero(DataKey::TipCount(recipient)),
            storage(*final(env)) == if r is Ok {
                storage(*old(env)).renew_present(DataKey::TipCount(recipient))
            } else {
                storage(*old(env))
            },
    {
        let key = DataKey::TipCount(recipient);
        let count: u32 = number_or_zero(env, &key)?;
        extend_present_ttl(env, &key);
        Ok(count)
    }

    /// The tip at place `index` among those to `recipient`.
    pub fn get_tip_record(env: &mut Env, recipient: Address, index: u32) -> (r: Result<
        TipRecord,
        Trap,
    >)
        ensures
            r == storage(*old(env)).tip(
                DataKey::TipRecord(recipient, index),
                Trap::TipRecordNotFound,
            ),
            storage(*final(env)) == if r is Ok {
                storage(*old(env)).renew(DataKey::TipRecord(recipient, index))
            } else {
                storage(*old(env))
            },
    {
        let key = DataKey::TipRecord(recipient, index);
        let tip = read_tip(env, &key, Trap::TipRecordNotFound)?;
        extend_persistent_ttl(env, &key);
        Ok(tip)
    }
}

} // verus!
