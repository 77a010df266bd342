//! What the arithmetic on amounts and the accrual of a stream come to, in plain
//! numbers.
use soroban_sdk::Address;
use vstd::arithmetic::div_mod::lemma_fundamental_div_mod;
use vstd::prelude::*;

use crate::accrual::{claimable, claimed_sum, claimed_total, dry_for, is_first_place, lemma_place,
    part, paused_for, place, run_for, streamed, unpaid, weight_sum};
use crate::arith::{least, less, minus, next, over, plus, times, toward_zero};
use crate::laws::accrual::{lemma_accrual, lemma_part};
use crate::outcome::Trap;
use crate::records::StreamView;
use crate::types::StreamRecipient;

verus! {

/// Checked arithmetic gives the number that it should where that is in range, and
/// the trap for it where it is not.
pub proof fn law_arithmetic_is_exact(a: i128, b: i128, n: u32)
    ensures
        i128::MIN <= a + b <= i128::MAX ==> (plus(a, b) matches Ok(r) && r == a + b),
        !(i128::MIN <= a + b <= i128::MAX) ==> plus(a, b) == Err::<i128, Trap>(Trap::AddOverflow),
        i128::MIN <= a - b <= i128::MAX ==> (minus(a, b) matches Ok(r) && r == a - b),
        !(i128::MIN <= a - b <= i128::MAX) ==> minus(a, b) == Err::<i128, Trap>(
            Trap::SubtractOverflow,
        ),
        i128::MIN <= a * b <= i128::MAX ==> (times(a, b) matches Ok(r) && r == a * b),
        !(i128::MIN <= a * b <= i128::MAX) ==> times(a, b) == Err::<i128, Trap>(
            Trap::MultiplyOverflow,
        ),
        b == 0 ==> over(a, b) == Err::<i128, Trap>(Trap::DivideByZero),
        n < u32::MAX ==> (next(n) matches Ok(r) && r == n + 1),
        n == u32::MAX ==> next(n) == Err::<u32, Trap>(Trap::AddOverflow),
{
}

/// A quotient is the whole number of times that the divisor goes into what is
/// divided, without its sign.
pub proof fn law_quotients_round_toward_zero(a: int, b: int)
    requires
        b != 0,
    ensures
        ({
            let q = toward_zero(a, b);
            let rest = a - b * q;
            &&& a >= 0 ==> 0 <= rest
            &&& a <= 0 ==> rest <= 0
            &&& -(if b > 0 {
                b
            } else {
                -b
            }) < rest < if b > 0 {
                b
            } else {
                -b
            }
        }),
{
    let size = if a >= 0 {
        a
    } else {
        -a
    };
    let by = if b > 0 {
        b
    } else {
        -b
    };
    let quotient = size / by;
    lemma_fundamental_div_mod(size, by);
    let q = toward_zero(a, b);
    assert(b * q == if a >= 0 {
        by * quotient
    } else {
        -(by * quotient)
    }) by (nonlinear_arith)
        requires
            by == if b > 0 {
                b
            } else {
                -b
            },
            q == if (a >= 0) == (b > 0) {
                quotient
            } else {
                -quotient
            },
    ;
}

/// A division by a number other than zero gives the rounded quotient, where that is
/// in range.
pub proof fn law_division_is_exact(a: i128, b: i128)
    requires
        b != 0,
    ensures
        a != i128::MIN || b != -1 ==> (over(a, b) matches Ok(r) && r == toward_zero(
            a as int,
            b as int,
        )),
        a == i128::MIN && b == -1 ==> over(a, b) == Err::<i128, Trap>(Trap::DivideOverflow),
{
    let q = toward_zero(a as int, b as int);
    law_quotients_round_toward_zero(a as int, b as int);
    let rest = a - b * q;
    if a != i128::MIN || b != -1 {
        let size = if a >= 0 {
            a as int
        } else {
            -a
        };
        let by = if b > 0 {
            b as int
        } else {
            -b
        };
        let quotient = size / by;
        lemma_fundamental_div_mod(size, by);
        if by == 1 {
            assert(quotient == size) by (nonlinear_arith)
                requires
                    size == by * quotient + size % by,
                    0 <= size % by < by,
                    by == 1,
            ;
        } else {
            assert(0 <= quotient && 2 * quotient <= size) by (nonlinear_arith)
                requires
                    size == by * quotient + size % by,
                    0 <= size % by < by,
                    by >= 2,
                    size >= 0,
            ;
        }
        assert(i128::MIN <= q <= i128::MAX);
    } else {
        assert(q == -(i128::MIN as int)) by (nonlinear_arith)
            requires
                a == b * q + rest,
                b == -1,
                a == i128::MIN,
                -1 < rest < 1,
        ;
    }
}

/// The sum of the weights counts every share once, by its weight.
pub proof fn law_weights_add_up(shares: Seq<StreamRecipient>, share: StreamRecipient)
    ensures
        weight_sum(Seq::<StreamRecipient>::empty()) == 0,
        weight_sum(shares.push(share)) == weight_sum(shares) + share.weight,
{
    assert(shares.push(share).drop_last() =~= shares);
}

/// The sum of the claims counts every share once, by what it has claimed; it is
/// there as long as it stays in range.
pub proof fn law_claims_add_up(shares: Seq<StreamRecipient>, share: StreamRecipient)
    ensures
        claimed_sum(Seq::<StreamRecipient>::empty()) == 0,
        claimed_sum(shares.push(share)) == claimed_sum(shares) + share.claimed,
        claimed_total(Seq::<StreamRecipient>::empty()) == Ok::<i128, Trap>(0),
        claimed_total(shares) matches Ok(sum) ==> {
            &&& sum == claimed_sum(shares)
            &&& i128::MIN <= sum + share.claimed <= i128::MAX ==> (claimed_total(
                shares.push(share),
            ) matches Ok(total) && total == sum + share.claimed)
            &&& !(i128::MIN <= sum + share.claimed <= i128::MAX) ==> claimed_total(
                shares.push(share),
            ) == Err::<i128, Trap>(Trap::AddOverflow)
        },
        claimed_total(shares) is Err ==> claimed_total(shares.push(share)) == claimed_total(shares),
{
    assert(shares.push(share).drop_last() =~= shares);
    lemma_claimed_total_is_the_sum(shares);
}

proof fn lemma_claimed_total_is_the_sum(shares: Seq<StreamRecipient>)
    ensures
        claimed_total(shares) matches Ok(sum) ==> sum == claimed_sum(shares),
    decreases shares.len(),
{
    if shares.len() > 0 {
        lemma_claimed_total_is_the_sum(shares.drop_last());
    }
}

/// A recipient is found at the first place that it has, and nowhere if it has none.
pub proof fn law_recipients_are_found(shares: Seq<StreamRecipient>, who: Address, i: int)
    ensures
        place(shares, who) == Some(i) <==> {
            &&& 0 <= i < shares.len()
            &&& shares[i].recipient == who
            &&& forall|j: int| 0 <= j < i ==> (#[trigger] shares[j]).recipient != who
        },
        place(shares, who) is None <==> forall|j: int|
            0 <= j < shares.len() ==> (#[trigger] shares[j]).recipient != who,
{
    if is_first_place(shares, who, i) {
        lemma_place(shares, who, i);
    }
    if place(shares, who) is Some {
        assert(is_first_place(shares, who, place(shares, who)->0));
    } else if exists|j: int| 0 <= j < shares.len() && (#[trigger] shares[j]).recipient == who {
        let j = choose|j: int| 0 <= j < shares.len() && (#[trigger] shares[j]).recipient == who;
        lemma_some_first_place(shares, who, j);
    }
}

proof fn lemma_some_first_place(shares: Seq<StreamRecipient>, who: Address, j: int)
    requires
        0 <= j < shares.len(),
        shares[j].recipient == who,
    ensures
        place(shares, who) is Some,
    decreases j,
{
    if forall|k: int| 0 <= k < j ==> (#[trigger] shares[k]).recipient != who {
        assert(is_first_place(shares, who, j));
    } else {
        let k = choose|k: int| 0 <= k < j && (#[trigger] shares[k]).recipient == who;
        lemma_some_first_place(shares, who, k);
    }
}

/// A stream has run for the ledgers since it began, less those that it was paused
/// for: the ones on record, and those of a pause that has not ended.
pub proof fn law_run_is_time_less_pauses(stream: StreamView, now: u32)
    ensures
        ({
            let since = now - stream.start_ledger;
            let ongoing = if stream.paused && now > stream.paused_at_ledger {
                now - stream.paused_at_ledger
            } else {
                0
            };
            let paused = stream.paused_ledgers + ongoing;
            &&& paused <= u32::MAX ==> paused_for(stream, now) == paused
            &&& paused > u32::MAX ==> paused_for(stream, now) == u32::MAX
            &&& since > paused ==> run_for(stream, now) == since - paused
            &&& since <= paused ==> run_for(stream, now) == 0
        }),
{
}

/// What has accrued is the rate for each ledger that the stream ran for, or for as
/// many of them as the deposit pays for in full.
pub proof fn law_accrual_is_paid_for(stream: StreamView, now: u32)
    requires
        0 < stream.rate_per_ledger,
        0 < stream.deposited,
    ensures
        streamed(stream, now) is Ok,
        ({
            let rate = stream.rate_per_ledger as int;
            let run = run_for(stream, now);
            let total = streamed(stream, now)->Ok_0;
            &&& rate * run <= stream.deposited ==> total == rate * run
            &&& rate * run > stream.deposited ==> total <= stream.deposited < total + rate
            &&& exists|ledgers: int| 0 <= ledgers <= run && total == #[trigger] (rate * ledgers)
            &&& 0 <= total <= stream.deposited
        }),
{
    let rate = stream.rate_per_ledger as int;
    let deposited = stream.deposited as int;
    let funded = deposited / rate;
    let run = run_for(stream, now);
    let ledgers = least(run, funded);
    lemma_accrual(stream, now);
    lemma_fundamental_div_mod(deposited, rate);
    assert(rate * run <= deposited ==> run <= funded) by (nonlinear_arith)
        requires
            deposited == rate * funded + deposited % rate,
            0 <= deposited % rate < rate,
            rate > 0,
    ;
    assert(rate * run > deposited ==> run > funded) by (nonlinear_arith)
        requires
            deposited == rate * funded + deposited % rate,
            0 <= deposited % rate < rate,
            rate > 0,
    ;
    assert(0 <= funded) by (nonlinear_arith)
        requires
            deposited == rate * funded + deposited % rate,
            0 <= deposited % rate < rate,
            rate > 0,
            deposited > 0,
    ;
    assert(streamed(stream, now)->Ok_0 == rate * ledgers);
}

/// What was run without being paid for: the ledgers that the stream ran for less
/// those that the deposit pays for in full.
pub proof fn law_dry_ledgers_are_not_paid_for(stream: StreamView, now: u32)
    requires
        0 < stream.rate_per_ledger,
        0 < stream.deposited,
    ensures
        streamed(stream, now) is Ok,
        stream.rate_per_ledger * (run_for(stream, now) - dry_for(stream, now)) == streamed(
            stream,
            now,
        )->Ok_0,
        0 <= dry_for(stream, now) <= run_for(stream, now),
{
    lemma_accrual(stream, now);
    let funded = stream.deposited as int / stream.rate_per_ledger as int;
    assert(funded >= 0) by (nonlinear_arith)
        requires
            funded == stream.deposited as int / stream.rate_per_ledger as int,
            stream.deposited > 0,
            stream.rate_per_ledger > 0,
    ;
}

/// A part is the weight's share of the total, rounded down.
pub proof fn law_parts_are_rounded_shares(total: i128, weight: u32, out_of: nat)
    requires
        0 <= total,
        0 < out_of,
        total * weight <= i128::MAX,
    ensures
        part(total, weight, out_of) is Ok,
        ({
            let entitled = part(total, weight, out_of)->Ok_0;
            entitled * out_of <= total * weight < (entitled + 1) * out_of
        }),
{
    lemma_part(total, weight, out_of);
    let product = total * weight;
    lemma_fundamental_div_mod(product, out_of as int);
    let entitled = product / (out_of as int);
    assert(entitled * out_of <= product < (entitled + 1) * out_of) by (nonlinear_arith)
        requires
            product == out_of * entitled + product % (out_of as int),
            0 <= product % (out_of as int) < out_of,
    ;
}

/// What a recipient of an open stream can claim is its weight's share of what has
/// accrued, rounded down, less what it has claimed; and nothing, if that is less
/// than nothing.
pub proof fn law_claimable_is_the_weighted_rest(stream: StreamView, i: int, now: u32)
    requires
        0 < stream.rate_per_ledger,
        0 < stream.deposited,
        !stream.closed,
        stream.is_whole(),
        0 <= i < stream.recipients.len(),
        0 < weight_sum(stream.recipients),
        0 <= stream.recipients[i].claimed,
        forall|j: int|
            0 <= j < i ==> (#[trigger] stream.recipients[j]).recipient
                != stream.recipients[i].recipient,
        streamed(stream, now)->Ok_0 * stream.recipients[i].weight <= i128::MAX,
    ensures
        ({
            let share = stream.recipients[i];
            let total = streamed(stream, now)->Ok_0;
            let entitled = (total * share.weight) / (weight_sum(stream.recipients) as int);
            &&& claimable(stream, share.recipient, now) is Ok
            &&& claimable(stream, share.recipient, now)->Ok_0 == if entitled > share.claimed {
                entitled - share.claimed
            } else {
                0
            }
        }),
{
    let share = stream.recipients[i];
    law_recipients_are_found(stream.recipients, share.recipient, i);
    lemma_accrual(stream, now);
    lemma_part(streamed(stream, now)->Ok_0, share.weight, weight_sum(stream.recipients));
    let total = streamed(stream, now)->Ok_0;
    let out_of = weight_sum(stream.recipients) as int;
    assert(0 <= (total * share.weight) / out_of) by (nonlinear_arith)
        requires
            0 <= total,
            0 < out_of,
    ;
}

/// What has accrued, whatever the terms are: without a rate nothing can be told, and
/// the ledgers that count are those that the stream ran for, but no more than the
/// deposit has rates in it. A deposit that has a negative number of them counts as
/// many as that number leaves in 32 bits.
pub proof fn law_accrual_follows_the_terms(stream: StreamView, now: u32)
    ensures
        ({
            let rate = stream.rate_per_ledger;
            let run = run_for(stream, now);
            let funded = toward_zero(stream.deposited as int, rate as int);
            &&& 0 <= run <= u32::MAX
            &&& rate == 0 ==> streamed(stream, now) == Err::<i128, Trap>(Trap::DivideByZero)
            &&& rate == -1 && stream.deposited == i128::MIN ==> streamed(stream, now) == Err::<
                i128,
                Trap,
            >(Trap::DivideOverflow)
            &&& rate != 0 && !(rate == -1 && stream.deposited == i128::MIN) ==> {
                let ledgers: int = if run <= funded {
                    run
                } else if funded >= 0 {
                    funded
                } else {
                    (funded as i128) as u32 as int
                };
                &&& 0 <= ledgers <= u32::MAX
                &&& i128::MIN <= rate * ledgers <= i128::MAX ==> (streamed(
                    stream,
                    now,
                ) matches Ok(total) && total == rate * ledgers)
                &&& !(i128::MIN <= rate * ledgers <= i128::MAX) ==> streamed(stream, now) == Err::<
                    i128,
                    Trap,
                >(Trap::MultiplyOverflow)
            }
        }),
{
    if stream.rate_per_ledger != 0 {
        law_division_is_exact(stream.deposited, stream.rate_per_ledger);
    }
}

/// What a recipient of an open stream can claim, whatever the terms are: its
/// weight's share of what has accrued, rounded toward zero, less what it has
/// claimed; and nothing, if that is less than nothing. Where one of these leaves the
/// range of amounts, or the list has an item that is no recipient, that is told.
pub proof fn law_claimable_follows_the_terms(stream: StreamView, i: int, now: u32)
    requires
        !stream.closed,
        0 <= i < stream.recipients.len(),
        forall|j: int|
            0 <= j < i ==> (#[trigger] stream.recipients[j]).recipient
                != stream.recipients[i].recipient,
    ensures
        ({
            let share = stream.recipients[i];
            let amount = claimable(stream, share.recipient, now);
            let out_of = weight_sum(stream.recipients);
            match streamed(stream, now) {
                Err(trap) => amount == Err::<i128, Trap>(trap),
                Ok(total) => {
                    let product = total * share.weight;
                    let rest = toward_zero(product, out_of as int) - share.claimed;
                    if !stream.is_whole() {
                        amount == Err::<i128, Trap>(Trap::MalformedEntry)
                    } else if !(i128::MIN <= product <= i128::MAX) {
                        amount == Err::<i128, Trap>(Trap::MultiplyOverflow)
                    } else if out_of == 0 {
                        amount == Err::<i128, Trap>(Trap::DivideByZero)
                    } else if !(i128::MIN <= rest <= i128::MAX) {
                        amount == Err::<i128, Trap>(Trap::SubtractOverflow)
                    } else if rest > 0 {
                        amount is Ok && amount->Ok_0 == rest
                    } else {
                        amount == Ok::<i128, Trap>(0)
                    }
                },
            }
        }),
{
    let share = stream.recipients[i];
    law_recipients_are_found(stream.recipients, share.recipient, i);
    if streamed(stream, now) is Ok {
        let product = streamed(stream, now)->Ok_0 * share.weight;
        let out_of = weight_sum(stream.recipients) as int;
        if out_of > 0 && i128::MIN <= product <= i128::MAX {
            lemma_quotient_in_range(product, out_of);
        }
    }
}

/// A quotient by a positive number is no further from zero than what is divided.
pub proof fn lemma_quotient_in_range(a: int, b: int)
    requires
        b > 0,
        i128::MIN <= a <= i128::MAX,
    ensures
        i128::MIN <= toward_zero(a, b) <= i128::MAX,
{
    let size = if a >= 0 {
        a
    } else {
        -a
    };
    let quotient = size / b;
    lemma_fundamental_div_mod(size, b);
    assert(0 <= quotient <= size) by (nonlinear_arith)
        requires
            size == b * quotient + size % b,
            0 <= size % b < b,
            b > 0,
            size >= 0,
    ;
}

/// The ledgers that a stream ran unfunded, whatever its terms are: those beyond the
/// ones that the deposit pays for in full.
pub proof fn law_dry_ledgers_follow_the_terms(stream: StreamView, now: u32)
    ensures
        ({
            let rate = stream.rate_per_ledger as int;
            let run = run_for(stream, now);
            let dry = dry_for(stream, now);
            &&& rate <= 0 || stream.deposited < 0 ==> dry == 0
            &&& rate > 0 && stream.deposited >= 0 ==> {
                &&& 0 <= dry <= run
                &&& rate * (run - dry) <= stream.deposited
                &&& dry > 0 ==> stream.deposited < rate * (run - dry + 1)
            }
        }),
{
    let rate = stream.rate_per_ledger as int;
    let deposited = stream.deposited as int;
    if rate > 0 && deposited >= 0 {
        let funded = deposited / rate;
        let run = run_for(stream, now);
        let paid = run - dry_for(stream, now);
        lemma_fundamental_div_mod(deposited, rate);
        assert(0 <= funded) by (nonlinear_arith)
            requires
                deposited == rate * funded + deposited % rate,
                0 <= deposited % rate < rate,
                rate > 0,
                deposited >= 0,
        ;
        assert(paid <= funded);
        assert(rate * paid <= deposited) by (nonlinear_arith)
            requires
                deposited == rate * funded + deposited % rate,
                0 <= deposited % rate < rate,
                rate > 0,
                paid <= funded,
        ;
        assert(paid == funded ==> deposited < rate * (paid + 1)) by (nonlinear_arith)
            requires
                deposited == rate * funded + deposited % rate,
                0 <= deposited % rate < rate,
        ;
    }
}

/// Nothing can be claimed from a closed stream, nor by somebody who is not among the
/// recipients.
pub proof fn law_others_can_claim_nothing(stream: StreamView, who: Address, now: u32)
    requires
        stream.closed || stream.is_whole() && forall|i: int|
            0 <= i < stream.recipients.len() ==> (#[trigger] stream.recipients[i]).recipient != who,
    ensures
        claimable(stream, who, now) == Ok::<i128, Trap>(0),
{
    if !stream.closed {
        law_recipients_are_found(stream.recipients, who, 0);
    }
}

/// Whether somebody who is not among the recipients that were read is one of the
/// others cannot be told while the list of an open stream has an item that is no
/// recipient.
pub proof fn law_unread_recipients_are_told(stream: StreamView, who: Address, now: u32)
    requires
        !stream.closed,
        !stream.is_whole(),
        forall|i: int|
            0 <= i < stream.recipients.len() ==> (#[trigger] stream.recipients[i]).recipient != who,
    ensures
        claimable(stream, who, now) == Err::<i128, Trap>(Trap::MalformedEntry),
{
    law_recipients_are_found(stream.recipients, who, 0);
}

/// What is left of an entitlement is never less than nothing.
pub proof fn law_unpaid_is_never_negative(entitled: i128, claimed: i128)
    requires
        i128::MIN <= entitled - claimed <= i128::MAX,
    ensures
        unpaid(entitled, claimed) matches Ok(rest) && rest == if entitled > claimed {
            entitled - claimed
        } else {
            0
        },
{
}

/// A difference that stops at zero, and the smaller of two numbers.
pub proof fn law_bounds_hold(a: int, b: int)
    ensures
        less(a, b) == if a > b {
            a - b
        } else {
            0
        },
        least(a, b) <= a && least(a, b) <= b && (least(a, b) == a || least(a, b) == b),
{
}

} // verus!
