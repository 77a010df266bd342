//! When a call is made: at the ledger that the host is at, and at the time that
//! the host gives for it.
use soroban_sdk::Env;
use vstd::prelude::*;

use crate::sdk::{ledger_sequence, ledger_timestamp};

verus! {

/// `now` is what the host gives as the number of the current ledger.
pub closed spec fn is_current_ledger(env: Env, now: u32) -> bool {
    call_ensures(ledger_sequence, (&env,), now)
}

/// `timestamp` is what the host gives as the closing time of the current ledger.
pub closed spec fn is_current_time(env: Env, timestamp: u64) -> bool {
    call_ensures(ledger_timestamp, (&env,), timestamp)
}

/// The current ledger and the current time are what the functions of the host that
/// give them can answer, and nothing else.
pub(crate) proof fn law_now_is_what_the_host_says(env: Env, now: u32, timestamp: u64)
    ensures
        is_current_ledger(env, now) <==> call_ensures(ledger_sequence, (&env,), now),
        is_current_time(env, timestamp) <==> call_ensures(ledger_timestamp, (&env,), timestamp),
{
}

/// What the host answers to `question`.
fn ask<'a, T, F: Fn(&'a Env) -> T>(question: F, env: &'a Env) -> (r: T)
    requires
        call_requires(question, (env,)),
    ensures
        call_ensures(question, (env,), r),
{
    question(env)
}

/// The number of the current ledger.
pub(crate) fn current_ledger(env: &Env) -> (r: u32)
    ensures
        is_current_ledger(*env, r),
{
    ask(ledger_sequence, env)
}

/// The closing time of the current ledger.
pub(crate) fn current_time(env: &Env) -> (r: u64)
    ensures
        is_current_time(*env, r),
{
    ask(ledger_timestamp, env)
}

} // verus!
