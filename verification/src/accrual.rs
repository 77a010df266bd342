//! How a stream accrues, and what part of it each recipient can withdraw.
use soroban_sdk::Address;
use vstd::prelude::*;

use crate::arith::{checked_minus, checked_over, checked_plus, checked_times, least, less, minus,
    over, plus, times, toward_zero};
use crate::outcome::Trap;
use crate::records::{contents, share_items, StreamView};
use crate::sdk::same_address;
use crate::types::{Stream, StreamRecipient};

verus! {

/// `index` is the first place at which `who` is among the recipients.
pub open spec fn is_first_place(shares: Seq<StreamRecipient>, who: Address, index: int) -> bool {
    &&& 0 <= index < shares.len()
    &&& shares[index].recipient == who
    &&& forall|j: int| 0 <= j < index ==> (#[trigger] shares[j]).recipient != who
}

/// The first place at which `who` is among the recipients.
pub open spec fn place(shares: Seq<StreamRecipient>, who: Address) -> Option<int> {
    if exists|index: int| is_first_place(shares, who, index) {
        Some(choose|index: int| is_first_place(shares, who, index))
    } else {
        None
    }
}

/// There is at most one first place.
pub proof fn lemma_place(shares: Seq<StreamRecipient>, who: Address, index: int)
    requires
        is_first_place(shares, who, index),
    ensures
        place(shares, who) == Some(index),
{
    let chosen = choose|i: int| is_first_place(shares, who, i);
    assert(is_first_place(shares, who, chosen));
    if chosen < index {
        assert(shares[chosen].recipient != who);
    }
    if index < chosen {
        assert(shares[index].recipient != who);
    }
}

/// The sum of the weights.
pub open spec fn weight_sum(shares: Seq<StreamRecipient>) -> nat
    decreases shares.len(),
{
    if shares.len() == 0 {
        0
    } else {
        weight_sum(shares.drop_last()) + shares.last().weight as nat
    }
}

/// The sum of what the recipients have claimed.
pub open spec fn claimed_sum(shares: Seq<StreamRecipient>) -> int
    decreases shares.len(),
{
    if shares.len() == 0 {
        0
    } else {
        claimed_sum(shares.drop_last()) + shares.last().claimed
    }
}

/// The sum of what the recipients have claimed, added up in their order.
pub open spec fn claimed_total(shares: Seq<StreamRecipient>) -> Result<i128, Trap>
    decreases shares.len(),
{
    if shares.len() == 0 {
        Ok(0)
    } else {
        match claimed_total(shares.drop_last()) {
            Ok(total) => plus(total, shares.last().claimed),
            Err(trap) => Err(trap),
        }
    }
}

/// The ledgers that the stream has been paused for, up to ledger `now`.
pub open spec fn paused_for(stream: StreamView, now: u32) -> int {
    if stream.paused {
        least(
            stream.paused_ledgers + less(now as int, stream.paused_at_ledger as int),
            u32::MAX as int,
        )
    } else {
        stream.paused_ledgers as int
    }
}

/// The ledgers that the stream has run for, up to ledger `now`.
pub open spec fn run_for(stream: StreamView, now: u32) -> int {
    less(less(now as int, stream.start_ledger as int), paused_for(stream, now))
}

/// The ledgers that the stream has run for, up to ledger `now`, beyond those
/// that its deposit pays for.
pub open spec fn dry_for(stream: StreamView, now: u32) -> int {
    if stream.rate_per_ledger > 0 && stream.deposited >= 0 {
        less(run_for(stream, now), stream.deposited as int / stream.rate_per_ledger as int)
    } else {
        0
    }
}

/// What has accrued to all recipients together, up to ledger `now`: the rate
/// for each ledger that the stream has run for and the deposit has paid for.
pub open spec fn streamed(stream: StreamView, now: u32) -> Result<i128, Trap> {
    match over(stream.deposited, stream.rate_per_ledger) {
        Ok(funded) => {
            let ledgers: u32 = if run_for(stream, now) > funded {
                funded as u32
            } else {
                run_for(stream, now) as u32
            };
            times(stream.rate_per_ledger, ledgers as i128)
        },
        Err(trap) => Err(trap),
    }
}

/// The part of `total` that a weight is entitled to, when all weights sum to
/// `out_of`.
pub open spec fn part(total: i128, weight: u32, out_of: nat) -> Result<i128, Trap> {
    match times(total, weight as i128) {
        Ok(product) => if out_of == 0 {
            Err(Trap::DivideByZero)
        } else {
            Ok(toward_zero(product as int, out_of as int) as i128)
        },
        Err(trap) => Err(trap),
    }
}

/// What is left of an entitlement once `claimed` was paid.
pub open spec fn unpaid(entitled: i128, claimed: i128) -> Result<i128, Trap> {
    match minus(entitled, claimed) {
        Ok(rest) => Ok(
            if rest > 0 {
                rest
            } else {
                0
            },
        ),
        Err(trap) => Err(trap),
    }
}

/// What the holder of `share` can withdraw when `total` has accrued.
pub open spec fn due(share: StreamRecipient, total: i128, out_of: nat) -> Result<i128, Trap> {
    match part(total, share.weight, out_of) {
        Ok(entitled) => unpaid(entitled, share.claimed),
        Err(trap) => Err(trap),
    }
}

/// What `who` can withdraw at ledger `now`. It is looked for among the recipients
/// up to the first item of the list that stands for none, and what it is entitled
/// to depends on all of them.
pub open spec fn claimable(stream: StreamView, who: Address, now: u32) -> Result<i128, Trap> {
    if stream.closed {
        Ok(0)
    } else {
        match place(stream.recipients, who) {
            None => if stream.is_whole() {
                Ok(0)
            } else {
                Err(Trap::MalformedEntry)
            },
            Some(index) => match streamed(stream, now) {
                Ok(total) => if stream.is_whole() {
                    due(stream.recipients[index], total, weight_sum(stream.recipients))
                } else {
                    Err(Trap::MalformedEntry)
                },
                Err(trap) => Err(trap),
            },
        }
    }
}

/// Whether every item of the stored list of recipients stands for one.
pub(crate) fn all_recipients_read(stream: &Stream) -> (r: bool)
    ensures
        r == stream@.is_whole(),
{
    match &stream.stored {
        Some(items) => {
            assert(contents(items@) == share_items(stream.recipients@) ==> items@.len()
                == stream.recipients@.len()) by {
                assert(contents(items@).len() == items@.len());
                assert(share_items(stream.recipients@).len() == stream.recipients@.len());
            }
            items.len() == stream.recipients.len()
        },
        None => true,
    }
}

/// The first place at which `addr` is among the recipients.
pub fn find_recipient(recipients: &Vec<StreamRecipient>, addr: &Address) -> (r: Option<usize>)
    ensures
        match r {
            Some(index) => place(recipients@, *addr) == Some(index as int) && index
                < recipients@.len() && recipients@[index as int].recipient == *addr,
            None => place(recipients@, *addr) is None && forall|i: int|
                0 <= i < recipients@.len() ==> (#[trigger] recipients@[i]).recipient != *addr,
        },
{
    for i in 0..recipients.len()
        invariant
            forall|j: int| 0 <= j < i ==> (#[trigger] recipients@[j]).recipient != *addr,
    {
        if same_address(&recipients[i].recipient, addr) {
            proof {
                assert(is_first_place(recipients@, *addr, i as int));
                lemma_place(recipients@, *addr, i as int);
            }
            return Some(i);
        }
    }
    None
}

/// The sum of the weights. It is wider than a weight, so that it is exact for
/// every list.
pub fn total_weight(recipients: &Vec<StreamRecipient>) -> (r: i128)
    ensures
        r == weight_sum(recipients@),
{
    let mut total: i128 = 0;
    for i in 0..recipients.len()
        invariant
            total == weight_sum(recipients@.take(i as int)),
            total <= i * u32::MAX,
    {
        assert(recipients@.take(i + 1).drop_last() =~= recipients@.take(i as int));
        assert(i <= u64::MAX);
        total = total + recipients[i].weight as i128;
    }
    assert(recipients@.take(recipients@.len() as int) =~= recipients@);
    total
}

/// The sum of what the recipients have claimed.
pub fn total_claimed(recipients: &Vec<StreamRecipient>) -> (r: Result<i128, Trap>)
    ensures
        r == claimed_total(recipients@),
{
    let mut total: i128 = 0;
    for i in 0..recipients.len()
        invariant
            claimed_total(recipients@.take(i as int)) == Ok::<i128, Trap>(total),
    {
        assert(recipients@.take(i + 1).drop_last() =~= recipients@.take(i as int));
        match checked_plus(total, recipients[i].claimed) {
            Ok(sum) => {
                total = sum;
            },
            Err(trap) => {
                proof {
                    lemma_claimed_trap(recipients@, i + 1);
                }
                return Err(trap);
            },
        }
    }
    assert(recipients@.take(recipients@.len() as int) =~= recipients@);
    Ok(total)
}

/// Once the sum of the claims has left the range, adding more does not help.
proof fn lemma_claimed_trap(shares: Seq<StreamRecipient>, upto: int)
    requires
        0 <= upto <= shares.len(),
        claimed_total(shares.take(upto)) is Err,
    ensures
        claimed_total(shares) == claimed_total(shares.take(upto)),
    decreases shares.len() - upto,
{
    if upto == shares.len() {
        assert(shares.take(upto) =~= shares);
    } else {
        assert(shares.take(upto + 1).drop_last() =~= shares.take(upto));
        lemma_claimed_trap(shares, upto + 1);
    }
}

/// The ledgers that the stream has been paused for, with a pause that is
/// still running.
pub fn paused_ledgers_total(stream: &Stream, current_ledger: u32) -> (r: u32)
    ensures
        r == paused_for(stream@, current_ledger),
{
    if stream.paused {
        let ongoing: u32 = current_ledger.saturating_sub(stream.paused_at_ledger);
        stream.paused_ledgers.saturating_add(ongoing)
    } else {
        stream.paused_ledgers
    }
}

/// The ledgers that the stream has run for.
pub fn effective_elapsed_ledgers(stream: &Stream, current_ledger: u32) -> (r: u32)
    ensures
        r == run_for(stream@, current_ledger),
{
    let paused: u32 = paused_ledgers_total(stream, current_ledger);
    current_ledger.saturating_sub(stream.start_ledger).saturating_sub(paused)
}

/// The ledgers that the stream has run for beyond those that its deposit pays
/// for.
pub fn dry_ledgers(stream: &Stream, current_ledger: u32) -> (r: u32)
    ensures
        r == dry_for(stream@, current_ledger),
{
    if stream.rate_per_ledger <= 0 || stream.deposited < 0 {
        return 0;
    }
    let elapsed: u32 = effective_elapsed_ledgers(stream, current_ledger);
    let funded: i128 = stream.deposited / stream.rate_per_ledger;
    if elapsed as i128 > funded {
        (elapsed as i128 - funded) as u32
    } else {
        0
    }
}

/// What has accrued to all recipients together.
pub fn total_streamed_amount(stream: &Stream, current_ledger: u32) -> (r: Result<i128, Trap>)
    ensures
        r == streamed(stream@, current_ledger),
{
    let elapsed: u32 = effective_elapsed_ledgers(stream, current_ledger);
    let funded: i128 = checked_over(stream.deposited, stream.rate_per_ledger)?;
    let ledgers: u32 = if elapsed as i128 > funded {
        #[verifier::truncate]
        (funded as u32)
    } else {
        elapsed
    };
    checked_times(stream.rate_per_ledger, ledgers as i128)
}

/// A quotient is no further from zero than what was divided.
proof fn lemma_quotient(a: int, b: int)
    requires
        b > 0,
    ensures
        a >= 0 ==> 0 <= toward_zero(a, b) <= a,
        a < 0 ==> a <= toward_zero(a, b) <= 0,
{
    let size = if a >= 0 {
        a
    } else {
        -a
    };
    assert(0 <= size / b <= size) by (nonlinear_arith)
        requires
            b > 0,
            size >= 0,
    ;
}

/// The part of `total` that a weight is entitled to, when all weights sum to
/// `out_of`.
pub(crate) fn entitlement(total: i128, weight: u32, out_of: i128) -> (r: Result<i128, Trap>)
    requires
        0 <= out_of,
    ensures
        r == part(total, weight, out_of as nat),
{
    let product: i128 = checked_times(total, weight as i128)?;
    proof {
        if out_of > 0 {
            lemma_quotient(product as int, out_of as int);
        }
    }
    checked_over(product, out_of)
}

/// What `recipient` can withdraw: its weighted share of what has accrued,
/// less what it has claimed.
pub fn claimable_amount(stream: &Stream, recipient: &Address, current_ledger: u32) -> (r: Result<
    i128,
    Trap,
>)
    ensures
        r == claimable(stream@, *recipient, current_ledger),
{
    if stream.closed {
        return Ok(0);
    }
    let index: usize = match find_recipient(&stream.recipients, recipient) {
        Some(index) => index,
        None => {
            return if all_recipients_read(stream) {
                Ok(0)
            } else {
                Err(Trap::MalformedEntry)
            };
        },
    };
    let total: i128 = total_streamed_amount(stream, current_ledger)?;
    if !all_recipients_read(stream) {
        return Err(Trap::MalformedEntry);
    }
    let out_of: i128 = total_weight(&stream.recipients);
    let entry = &stream.recipients[index];
    let entitled: i128 = entitlement(total, entry.weight, out_of)?;
    let rest: i128 = checked_minus(entitled, entry.claimed)?;
    if rest > 0 {
        Ok(rest)
    } else {
        Ok(0)
    }
}

} // verus!
