//! What holds of one stream: how it accrues, and that it never pays more than
//! was deposited.
use soroban_sdk::Address;
use vstd::arithmetic::div_mod::{lemma_div_is_ordered, lemma_fundamental_div_mod};
use vstd::prelude::*;

use crate::accrual::{claimable, claimed_sum, claimed_total, dry_for, is_first_place, lemma_place,
    part, paused_for, place, run_for, streamed, weight_sum};
use crate::arith::{least, less};
use crate::outcome::Trap;
use crate::records::StreamView;
use crate::streams::{claimed_by, resumed, suspended, topped_up};
use crate::types::StreamRecipient;

verus! {

/// The most that a stream can accrue with its deposit: the rate for every ledger
/// that the deposit pays for in full.
pub open spec fn full_accrual(stream: StreamView) -> int {
    stream.rate_per_ledger * (stream.deposited as int / stream.rate_per_ledger as int)
}

/// The part of `total` that a weight out of `out_of` gives, rounded down.
pub open spec fn share_of(total: int, weight: u32, out_of: nat) -> int {
    (total * weight) / (out_of as int)
}

/// What the weights of all shares together give of `total`.
pub open spec fn share_sum(shares: Seq<StreamRecipient>, total: int, out_of: nat) -> int
    decreases shares.len(),
{
    if shares.len() == 0 {
        0
    } else {
        share_sum(shares.drop_last(), total, out_of) + share_of(total, shares.last().weight, out_of)
    }
}

/// A share that was paid no more than what its weight gives of `total`.
pub open spec fn sound_share(share: StreamRecipient, total: int, out_of: nat) -> bool {
    &&& 0 < share.weight
    &&& 0 <= share.claimed <= share_of(total, share.weight, out_of)
}

/// A stream with a rate, a deposit and a list of just its recipients, of which none
/// occurs twice, and whose shares were each paid no more than their part of what
/// the deposit can accrue.
pub open spec fn sound_stream(stream: StreamView) -> bool {
    &&& 0 < stream.rate_per_ledger
    &&& 0 < stream.deposited
    &&& 0 < stream.recipients.len()
    &&& stream.odd is None
    &&& forall|i: int|
        0 <= i < stream.recipients.len() ==> sound_share(
            #[trigger] stream.recipients[i],
            full_accrual(stream),
            weight_sum(stream.recipients),
        )
    &&& forall|i: int, j: int|
        0 <= i < j < stream.recipients.len() ==> (#[trigger] stream.recipients[i]).recipient != (
        #[trigger] stream.recipients[j]).recipient
}

/// Every weight is part of the sum.
pub proof fn lemma_weight_in_sum(shares: Seq<StreamRecipient>, i: int)
    requires
        0 <= i < shares.len(),
    ensures
        shares[i].weight <= weight_sum(shares),
    decreases shares.len(),
{
    if i < shares.len() - 1 {
        lemma_weight_in_sum(shares.drop_last(), i);
    }
}

/// What weights give is not negative, and grows with the total.
pub proof fn lemma_share_of(less: int, more: int, weight: u32, out_of: nat)
    requires
        0 <= less <= more,
        0 < out_of,
    ensures
        0 <= share_of(less, weight, out_of) <= share_of(more, weight, out_of),
{
    assert(0 <= less * weight <= more * weight) by (nonlinear_arith)
        requires
            0 <= less <= more,
            0 <= weight,
    ;
    lemma_div_is_ordered(0, less * weight, out_of as int);
    lemma_div_is_ordered(less * weight, more * weight, out_of as int);
}

/// The first shares give no more than all of them.
pub proof fn lemma_take_share_sum(shares: Seq<StreamRecipient>, n: int, total: int, out_of: nat)
    requires
        0 <= n <= shares.len(),
        0 <= total,
        0 < out_of,
    ensures
        0 <= share_sum(shares.take(n), total, out_of) <= share_sum(shares, total, out_of),
    decreases shares.len(),
{
    if n < shares.len() {
        lemma_take_share_sum(shares.drop_last(), n, total, out_of);
        assert(shares.drop_last().take(n) =~= shares.take(n));
        lemma_share_of(total, total, shares.last().weight, out_of);
    } else {
        assert(shares.take(n) =~= shares);
        if n > 0 {
            lemma_take_share_sum(shares.drop_last(), n - 1, total, out_of);
            assert(shares.drop_last().take(n - 1) =~= shares.drop_last());
            lemma_share_of(total, total, shares.last().weight, out_of);
        }
    }
}

/// Shares with the same weights give the same.
pub proof fn lemma_same_weights(
    one: Seq<StreamRecipient>,
    two: Seq<StreamRecipient>,
    total: int,
    out_of: nat,
)
    requires
        one.len() == two.len(),
        forall|i: int| 0 <= i < one.len() ==> (#[trigger] one[i]).weight == two[i].weight,
    ensures
        weight_sum(one) == weight_sum(two),
        share_sum(one, total, out_of) == share_sum(two, total, out_of),
    decreases one.len(),
{
    if one.len() > 0 {
        assert forall|i: int| 0 <= i < one.drop_last().len() implies (
        #[trigger] one.drop_last()[i]).weight == two.drop_last()[i].weight by {
            assert(one[i].weight == two[i].weight);
        }
        lemma_same_weights(one.drop_last(), two.drop_last(), total, out_of);
        assert(one[one.len() - 1].weight == two[two.len() - 1].weight);
    }
}

/// Replacing a share changes the sum of the claims by the difference.
pub proof fn lemma_update_claimed(shares: Seq<StreamRecipient>, i: int, share: StreamRecipient)
    requires
        0 <= i < shares.len(),
    ensures
        claimed_sum(shares.update(i, share)) == claimed_sum(shares) - shares[i].claimed
            + share.claimed,
    decreases shares.len(),
{
    let new = shares.update(i, share);
    if i < shares.len() - 1 {
        lemma_update_claimed(shares.drop_last(), i, share);
        assert(new.drop_last() =~= shares.drop_last().update(i, share));
    } else {
        assert(new.drop_last() =~= shares.drop_last());
    }
}

/// If no share was paid more than its weight gives, all together were not.
pub proof fn lemma_claimed_sum_bound(shares: Seq<StreamRecipient>, total: int, out_of: nat)
    requires
        forall|i: int|
            0 <= i < shares.len() ==> sound_share(#[trigger] shares[i], total, out_of),
    ensures
        0 <= claimed_sum(shares) <= share_sum(shares, total, out_of),
    decreases shares.len(),
{
    if shares.len() > 0 {
        let rest = shares.drop_last();
        assert forall|i: int| 0 <= i < rest.len() implies sound_share(
            #[trigger] rest[i],
            total,
            out_of,
        ) by {
            assert(rest[i] == shares[i]);
        }
        lemma_claimed_sum_bound(rest, total, out_of);
        assert(sound_share(shares[shares.len() - 1], total, out_of));
    }
}

/// What weights give is no more than the total, if they sum to no more than
/// what they are measured against.
proof fn lemma_share_sum_bound(shares: Seq<StreamRecipient>, total: int, out_of: nat)
    requires
        0 <= total,
        0 < out_of,
    ensures
        share_sum(shares, total, out_of) * out_of <= total * weight_sum(shares),
    decreases shares.len(),
{
    if shares.len() == 0 {
        assert(share_sum(shares, total, out_of) * out_of == 0) by (nonlinear_arith)
            requires
                share_sum(shares, total, out_of) == 0,
        ;
        assert(total * weight_sum(shares) == 0) by (nonlinear_arith)
            requires
                weight_sum(shares) == 0,
        ;
    } else {
        let rest = shares.drop_last();
        let weight = shares.last().weight;
        lemma_share_sum_bound(rest, total, out_of);
        let last = share_of(total, weight, out_of);
        let before = share_sum(rest, total, out_of);
        lemma_fundamental_div_mod(total * weight, out_of as int);
        assert(last * out_of <= total * weight) by (nonlinear_arith)
            requires
                total * weight == out_of * last + (total * weight) % (out_of as int),
                0 <= (total * weight) % (out_of as int),
        ;
        assert((before + last) * out_of == before * out_of + last * out_of) by (nonlinear_arith);
        assert(total * (weight_sum(rest) + weight as nat) == total * weight_sum(rest) + total
            * weight) by (nonlinear_arith);
    }
}

/// A stream can accrue no more than its deposit.
pub proof fn lemma_full_accrual(stream: StreamView)
    requires
        0 < stream.rate_per_ledger,
        0 < stream.deposited,
    ensures
        0 <= stream.deposited as int / stream.rate_per_ledger as int <= stream.deposited,
        0 <= full_accrual(stream) <= stream.deposited,
{
    let rate = stream.rate_per_ledger as int;
    let deposited = stream.deposited as int;
    let funded = deposited / rate;
    lemma_fundamental_div_mod(deposited, rate);
    assert(0 <= funded <= deposited) by (nonlinear_arith)
        requires
            deposited == rate * funded + deposited % rate,
            0 <= deposited % rate < rate,
            rate > 0,
            deposited > 0,
    ;
    assert(0 <= rate * funded) by (nonlinear_arith)
        requires
            rate > 0,
            0 <= funded,
    ;
}

/// The parts of all recipients are together no more than the total that they are
/// parts of.
pub proof fn law_parts_never_exceed_the_total(shares: Seq<StreamRecipient>, total: int)
    requires
        0 <= total,
        0 < weight_sum(shares),
    ensures
        share_sum(shares, total, weight_sum(shares)) <= total,
{
    let out_of = weight_sum(shares);
    let sum = share_sum(shares, total, out_of);
    lemma_share_sum_bound(shares, total, out_of);
    assert(sum <= total) by (nonlinear_arith)
        requires
            sum * out_of <= total * out_of,
            out_of > 0,
    ;
}

/// The weights of a sound stream sum to a positive number, and the parts of its
/// recipients are together no more than was deposited.
pub proof fn lemma_sound_weights(stream: StreamView)
    requires
        sound_stream(stream),
    ensures
        0 < weight_sum(stream.recipients),
        share_sum(stream.recipients, full_accrual(stream), weight_sum(stream.recipients))
            <= stream.deposited,
{
    let shares = stream.recipients;
    assert(sound_share(shares[0], full_accrual(stream), weight_sum(shares)));
    lemma_weight_in_sum(shares, 0);
    lemma_full_accrual(stream);
    law_parts_never_exceed_the_total(shares, full_accrual(stream));
}

/// Sums of claims that are in range are added up without a trap.
proof fn lemma_claimed_total(shares: Seq<StreamRecipient>)
    requires
        forall|i: int| 0 <= i < shares.len() ==> 0 <= (#[trigger] shares[i]).claimed,
        claimed_sum(shares) <= i128::MAX,
    ensures
        0 <= claimed_sum(shares),
        claimed_total(shares) == Ok::<i128, Trap>(claimed_sum(shares) as i128),
    decreases shares.len(),
{
    if shares.len() > 0 {
        let rest = shares.drop_last();
        assert forall|i: int| 0 <= i < rest.len() implies 0 <= (#[trigger] rest[i]).claimed by {
            assert(rest[i] == shares[i]);
        }
        assert(0 <= shares[shares.len() - 1].claimed);
        lemma_claimed_total(rest);
    }
}

/// The recipients of a sound stream were together paid no more than was
/// deposited.
pub proof fn law_claimed_never_exceeds_deposited(stream: StreamView)
    requires
        sound_stream(stream),
    ensures
        0 <= claimed_sum(stream.recipients) <= stream.deposited,
        claimed_total(stream.recipients) == Ok::<i128, Trap>(
            claimed_sum(stream.recipients) as i128,
        ),
{
    let shares = stream.recipients;
    let total = full_accrual(stream);
    let out_of = weight_sum(shares);
    lemma_claimed_sum_bound(shares, total, out_of);
    lemma_sound_weights(stream);
    assert forall|i: int| 0 <= i < shares.len() implies 0 <= (#[trigger] shares[i]).claimed by {
        assert(sound_share(shares[i], total, out_of));
    }
    lemma_claimed_total(shares);
}

/// A stream runs for the ledgers since it began that it was not paused for.
proof fn lemma_run_for(stream: StreamView, now: u32)
    ensures
        0 <= run_for(stream, now) <= u32::MAX,
        run_for(stream, now) == less(now as int, stream.start_ledger + paused_for(stream, now)),
{
}

/// What a stream accrues, whatever its weights are.
pub proof fn lemma_accrual(stream: StreamView, now: u32)
    requires
        0 < stream.rate_per_ledger,
        0 < stream.deposited,
    ensures
        ({
            let funded = stream.deposited as int / stream.rate_per_ledger as int;
            let total = stream.rate_per_ledger * least(run_for(stream, now), funded);
            &&& streamed(stream, now) == Ok::<i128, Trap>(total as i128)
            &&& 0 <= total <= full_accrual(stream) <= stream.deposited
        }),
{
    let rate = stream.rate_per_ledger as int;
    let deposited = stream.deposited as int;
    let funded = deposited / rate;
    let ledgers = least(run_for(stream, now), funded);
    lemma_run_for(stream, now);
    lemma_full_accrual(stream);
    assert(0 <= rate * ledgers <= rate * funded) by (nonlinear_arith)
        requires
            rate > 0,
            0 <= ledgers <= funded,
    ;
}

/// A sound stream accrues its rate for every ledger that it ran for and that
/// the deposit pays for in full, and never more than the deposit.
pub proof fn law_accrual_is_rate_times_ledgers(stream: StreamView, now: u32)
    requires
        sound_stream(stream),
    ensures
        ({
            let funded = stream.deposited as int / stream.rate_per_ledger as int;
            let total = stream.rate_per_ledger * least(run_for(stream, now), funded);
            &&& streamed(stream, now) == Ok::<i128, Trap>(total as i128)
            &&& 0 <= total <= full_accrual(stream) <= stream.deposited
        }),
{
    lemma_accrual(stream, now);
}

/// What has accrued to a sound stream never shrinks.
pub proof fn law_accrual_never_shrinks(stream: StreamView, earlier: u32, later: u32)
    requires
        sound_stream(stream),
        earlier <= later,
    ensures
        streamed(stream, earlier) is Ok,
        streamed(stream, later) is Ok,
        streamed(stream, earlier)->Ok_0 <= streamed(stream, later)->Ok_0,
{
    law_accrual_is_rate_times_ledgers(stream, earlier);
    law_accrual_is_rate_times_ledgers(stream, later);
    let rate = stream.rate_per_ledger as int;
    let funded = stream.deposited as int / rate;
    let before = least(run_for(stream, earlier), funded);
    let after = least(run_for(stream, later), funded);
    assert(rate * before <= rate * after) by (nonlinear_arith)
        requires
            rate > 0,
            before <= after,
    ;
}

/// An entitlement is what the weight gives of the total; it is there unless the
/// product leaves the range.
pub proof fn lemma_part(total: i128, weight: u32, out_of: nat)
    requires
        0 <= total,
        0 < out_of,
    ensures
        part(total, weight, out_of) is Ok <==> total * weight <= i128::MAX,
        part(total, weight, out_of) is Ok ==> part(total, weight, out_of)->Ok_0 == share_of(
            total as int,
            weight,
            out_of,
        ),
{
    let product = total * weight;
    assert(0 <= product) by (nonlinear_arith)
        requires
            0 <= total,
            product == total * weight,
    ;
    if product <= i128::MAX {
        let quotient = product / (out_of as int);
        lemma_fundamental_div_mod(product, out_of as int);
        assert(0 <= quotient <= product) by (nonlinear_arith)
            requires
                product == out_of * quotient + product % (out_of as int),
                0 <= product % (out_of as int) < out_of,
                out_of > 0,
                product >= 0,
        ;
    }
}

/// Paying a recipient of a sound stream what it can claim leaves the stream
/// sound, and the payment was no more than what was left of the deposit.
pub proof fn law_claim_keeps_stream_sound(stream: StreamView, who: Address, now: u32)
    requires
        sound_stream(stream),
        !stream.closed,
        place(stream.recipients, who) is Some,
        claimable(stream, who, now) is Ok,
    ensures
        ({
            let index = place(stream.recipients, who)->0;
            let amount = claimable(stream, who, now)->Ok_0;
            let after = claimed_by(stream, index, amount);
            &&& 0 <= index < stream.recipients.len()
            &&& sound_stream(after)
            &&& claimed_sum(after.recipients) == claimed_sum(stream.recipients) + amount
            &&& weight_sum(after.recipients) == weight_sum(stream.recipients)
            &&& 0 <= amount <= stream.deposited - claimed_sum(stream.recipients)
        }),
{
    let shares = stream.recipients;
    let index = place(shares, who)->0;
    assert(is_first_place(shares, who, index));
    let share = shares[index];
    let amount = claimable(stream, who, now)->Ok_0;
    let after = claimed_by(stream, index, amount);
    let new = after.recipients[index];
    let out_of = weight_sum(shares);
    let full = full_accrual(stream);
    lemma_weight_in_sum(shares, index);
    assert(sound_share(share, full, out_of));
    law_accrual_is_rate_times_ledgers(stream, now);
    let total = streamed(stream, now)->Ok_0;
    lemma_part(total, share.weight, out_of);
    lemma_share_of(total as int, full, share.weight, out_of);
    lemma_update_claimed(shares, index, new);
    assert(after.recipients =~= shares.update(index, new));
    assert forall|i: int| 0 <= i < shares.len() implies (#[trigger] shares[i]).weight
        == after.recipients[i].weight by {}
    lemma_same_weights(shares, after.recipients, full, out_of);
    assert forall|i: int| 0 <= i < after.recipients.len() implies sound_share(
        #[trigger] after.recipients[i],
        full_accrual(after),
        weight_sum(after.recipients),
    ) by {
        assert(sound_share(shares[i], full, out_of));
    }
    assert forall|i: int, j: int| 0 <= i < j < after.recipients.len() implies (
    #[trigger] after.recipients[i]).recipient != (#[trigger] after.recipients[j]).recipient by {
        assert(shares[i].recipient != shares[j].recipient);
    }
    law_claimed_never_exceeds_deposited(after);
}

/// What a recipient of a sound stream can claim is no more than what is left
/// of the deposit.
pub proof fn law_claimable_within_remaining_deposit(stream: StreamView, who: Address, now: u32)
    requires
        sound_stream(stream),
        claimable(stream, who, now) is Ok,
    ensures
        0 <= claimable(stream, who, now)->Ok_0 <= stream.deposited - claimed_sum(stream.recipients),
{
    law_claimed_never_exceeds_deposited(stream);
    if !stream.closed && place(stream.recipients, who) is Some {
        law_claim_keeps_stream_sound(stream, who, now);
    }
}

/// What a recipient of a sound stream can claim is there unless what has accrued
/// times the recipient's weight leaves the range of amounts.
pub proof fn law_claimable_unless_out_of_range(stream: StreamView, who: Address, now: u32)
    requires
        sound_stream(stream),
    ensures
        streamed(stream, now) is Ok,
        claimable(stream, who, now) is Ok <==> (stream.closed || match place(
            stream.recipients,
            who,
        ) {
            Some(index) => streamed(stream, now)->Ok_0 * stream.recipients[index].weight
                <= i128::MAX,
            None => true,
        }),
{
    let shares = stream.recipients;
    law_accrual_is_rate_times_ledgers(stream, now);
    if !stream.closed && place(shares, who) is Some {
        let index = place(shares, who)->0;
        assert(is_first_place(shares, who, index));
        let share = shares[index];
        assert(sound_share(share, full_accrual(stream), weight_sum(shares)));
        lemma_weight_in_sum(shares, index);
        let total = streamed(stream, now)->Ok_0;
        lemma_part(total, share.weight, weight_sum(shares));
        lemma_share_of(total as int, total as int, share.weight, weight_sum(shares));
    }
}

/// A recipient's place does not move when a share is paid.
pub proof fn lemma_place_after_claim(stream: StreamView, index: int, amount: i128, who: Address)
    requires
        0 <= index < stream.recipients.len(),
    ensures
        place(claimed_by(stream, index, amount).recipients, who) == place(stream.recipients, who),
{
    let before = stream.recipients;
    let after = claimed_by(stream, index, amount).recipients;
    if place(before, who) is Some {
        let at = place(before, who)->0;
        assert(is_first_place(before, who, at));
        assert forall|j: int| 0 <= j < at implies (#[trigger] after[j]).recipient != who by {
            assert(before[j].recipient != who);
        }
        assert(is_first_place(after, who, at));
        lemma_place(after, who, at);
    } else if place(after, who) is Some {
        let at = place(after, who)->0;
        assert(is_first_place(after, who, at));
        assert forall|j: int| 0 <= j < at implies (#[trigger] before[j]).recipient != who by {
            assert(after[j].recipient != who);
        }
        assert(is_first_place(before, who, at));
    }
}

/// After a claim there is nothing left to claim at the same ledger.
pub proof fn law_second_claim_pays_nothing(stream: StreamView, who: Address, now: u32)
    requires
        sound_stream(stream),
        !stream.closed,
        place(stream.recipients, who) is Some,
        claimable(stream, who, now) is Ok,
    ensures
        ({
            let index = place(stream.recipients, who)->0;
            let after = claimed_by(stream, index, claimable(stream, who, now)->Ok_0);
            claimable(after, who, now) == Ok::<i128, Trap>(0)
        }),
{
    let index = place(stream.recipients, who)->0;
    assert(is_first_place(stream.recipients, who, index));
    let amount = claimable(stream, who, now)->Ok_0;
    law_claim_keeps_stream_sound(stream, who, now);
    lemma_place_after_claim(stream, index, amount, who);
}

/// A claim does not change what the other recipients can claim, at this ledger
/// or at any other.
pub proof fn law_claims_are_independent(
    stream: StreamView,
    who: Address,
    other: Address,
    now: u32,
    later: u32,
)
    requires
        sound_stream(stream),
        !stream.closed,
        place(stream.recipients, who) is Some,
        claimable(stream, who, now) is Ok,
        other != who,
    ensures
        ({
            let index = place(stream.recipients, who)->0;
            let after = claimed_by(stream, index, claimable(stream, who, now)->Ok_0);
            claimable(after, other, later) == claimable(stream, other, later)
        }),
{
    let index = place(stream.recipients, who)->0;
    assert(is_first_place(stream.recipients, who, index));
    let amount = claimable(stream, who, now)->Ok_0;
    law_claim_keeps_stream_sound(stream, who, now);
    lemma_place_after_claim(stream, index, amount, other);
    if place(stream.recipients, other) is Some {
        assert(is_first_place(stream.recipients, other, place(stream.recipients, other)->0));
    }
}

/// What a stream has accrued is given by its terms and the ledgers it ran for.
pub proof fn lemma_same_run(one: StreamView, two: StreamView, now: u32, then: u32, who: Address)
    requires
        run_for(one, now) == run_for(two, then),
        one.rate_per_ledger == two.rate_per_ledger,
        one.deposited == two.deposited,
        one.recipients == two.recipients,
        one.odd == two.odd,
        one.closed == two.closed,
    ensures
        streamed(one, now) == streamed(two, then),
        claimable(one, who, now) == claimable(two, who, then),
{
}

/// Pausing a stream does not change what can be claimed, and while it is
/// paused nothing accrues.
pub proof fn law_paused_stream_accrues_nothing(
    stream: StreamView,
    pause: u32,
    now: u32,
    who: Address,
)
    requires
        !stream.paused,
        pause <= now,
    ensures
        claimable(suspended(stream, pause), who, now) == claimable(stream, who, pause),
{
    lemma_run_for(stream, pause);
    lemma_run_for(suspended(stream, pause), now);
    lemma_same_run(suspended(stream, pause), stream, now, pause, who);
}

/// Resuming a stream pays nothing for the pause: what can be claimed is what
/// could be claimed while it was paused.
pub proof fn law_resume_does_not_pay_for_the_pause(
    stream: StreamView,
    resume: u32,
    during: u32,
    who: Address,
)
    requires
        stream.paused,
        stream.paused_at_ledger <= during,
        stream.paused_at_ledger <= resume,
    ensures
        claimable(resumed(stream, resume), who, resume) == claimable(stream, who, during),
{
    lemma_run_for(stream, during);
    lemma_run_for(resumed(stream, resume), resume);
    lemma_same_run(resumed(stream, resume), stream, resume, during, who);
}

/// The pauses of a stream fit between its start and now.
pub open spec fn timely(stream: StreamView, now: u32) -> bool {
    if stream.paused {
        stream.start_ledger + stream.paused_ledgers <= stream.paused_at_ledger <= now
    } else {
        stream.start_ledger + stream.paused_ledgers <= now
    }
}

/// A stream that was paused and resumed accrues as one that was never paused
/// and began later by the length of the pause.
pub proof fn law_pause_only_shifts_accrual(
    stream: StreamView,
    pause: u32,
    resume: u32,
    now: u32,
    who: Address,
)
    requires
        !stream.paused,
        timely(stream, pause),
        pause <= resume <= now,
    ensures
        claimable(resumed(suspended(stream, pause), resume), who, now) == claimable(
            stream,
            who,
            (now - (resume - pause)) as u32,
        ),
        timely(suspended(stream, pause), resume),
        timely(resumed(suspended(stream, pause), resume), now),
{
    let then = (now - (resume - pause)) as u32;
    let again = resumed(suspended(stream, pause), resume);
    lemma_run_for(stream, then);
    lemma_run_for(again, now);
    lemma_same_run(again, stream, now, then, who);
}

/// Adding to the deposit leaves the ledgers that the stream ran for and was funded
/// for as they are.
proof fn lemma_topped_up(stream: StreamView, deposited: i128, now: u32, later: u32)
    requires
        0 < stream.rate_per_ledger,
        0 < stream.deposited <= deposited,
        now <= later,
    ensures
        ({
            let more = topped_up(stream, deposited, now);
            let funded = stream.deposited as int / stream.rate_per_ledger as int;
            &&& more.paused_ledgers == stream.paused_ledgers + dry_for(stream, now)
            &&& run_for(more, now) == least(run_for(stream, now), funded)
            &&& run_for(more, now) <= run_for(more, later)
            &&& dry_for(stream, now) == 0 ==> run_for(more, later) == run_for(stream, later)
            &&& funded <= deposited as int / stream.rate_per_ledger as int
        }),
{
    lemma_full_accrual(stream);
    lemma_div_is_ordered(
        stream.deposited as int,
        deposited as int,
        stream.rate_per_ledger as int,
    );
}

/// Adding to the deposit does not change what has accrued and can be claimed at
/// the same ledger, whether or not the stream was still funded.
pub proof fn law_top_up_does_not_pay_at_once(
    stream: StreamView,
    deposited: i128,
    now: u32,
    who: Address,
)
    requires
        sound_stream(stream),
        stream.deposited <= deposited,
    ensures
        streamed(topped_up(stream, deposited, now), now) == streamed(stream, now),
        claimable(topped_up(stream, deposited, now), who, now) == claimable(stream, who, now),
{
    lemma_topped_up(stream, deposited, now, now);
    lemma_accrual(topped_up(stream, deposited, now), now);
    lemma_accrual(stream, now);
}

/// Adding to the deposit of a sound stream leaves it sound, and what it stores of
/// its pauses still fits between its start and now.
pub proof fn law_top_up_keeps_stream_sound(stream: StreamView, deposited: i128, now: u32)
    requires
        sound_stream(stream),
        stream.deposited <= deposited,
    ensures
        sound_stream(topped_up(stream, deposited, now)),
        timely(stream, now) ==> timely(topped_up(stream, deposited, now), now),
{
    let more = topped_up(stream, deposited, now);
    let out_of = weight_sum(stream.recipients);
    let rate = stream.rate_per_ledger as int;
    let before = stream.deposited as int / rate;
    let after = deposited as int / rate;
    lemma_topped_up(stream, deposited, now, now);
    lemma_full_accrual(stream);
    assert(rate * before <= rate * after) by (nonlinear_arith)
        requires
            rate > 0,
            before <= after,
    ;
    assert forall|i: int| 0 <= i < more.recipients.len() implies sound_share(
        #[trigger] more.recipients[i],
        full_accrual(more),
        out_of,
    ) by {
        let share = stream.recipients[i];
        assert(sound_share(share, full_accrual(stream), out_of));
        lemma_weight_in_sum(stream.recipients, i);
        lemma_share_of(full_accrual(stream), full_accrual(more), share.weight, out_of);
    }
}

/// Pausing and resuming leave a sound stream sound.
pub proof fn law_pausing_keeps_stream_sound(stream: StreamView, now: u32)
    requires
        sound_stream(stream),
    ensures
        sound_stream(suspended(stream, now)),
        sound_stream(resumed(stream, now)),
{
}

/// Adding to the deposit never takes away from what would have accrued, at any
/// later ledger.
pub proof fn law_top_up_never_takes_away(
    stream: StreamView,
    deposited: i128,
    now: u32,
    later: u32,
)
    requires
        sound_stream(stream),
        stream.deposited <= deposited,
        now <= later,
    ensures
        streamed(stream, later) is Ok,
        streamed(topped_up(stream, deposited, now), later) is Ok,
        streamed(stream, later)->Ok_0 <= streamed(topped_up(stream, deposited, now), later)->Ok_0,
{
    let more = topped_up(stream, deposited, now);
    lemma_accrual(stream, later);
    lemma_accrual(more, later);
    lemma_topped_up(stream, deposited, now, later);
    let rate = stream.rate_per_ledger as int;
    let before = least(run_for(stream, later), stream.deposited as int / rate);
    let after = least(run_for(more, later), deposited as int / rate);
    assert(rate * before <= rate * after) by (nonlinear_arith)
        requires
            rate > 0,
            before <= after,
    ;
}

/// After its deposit was added to, a stream that runs accrues its rate from where
/// it stood, for as long as the new deposit pays for.
pub proof fn law_top_up_extends_the_run(stream: StreamView, deposited: i128, now: u32, later: u32)
    requires
        sound_stream(stream),
        stream.deposited <= deposited,
        !stream.paused,
        timely(stream, now),
        now <= later,
    ensures
        ({
            let rate = stream.rate_per_ledger as int;
            let before = least(run_for(stream, now), stream.deposited as int / rate);
            let total = rate * least(before + (later - now), deposited as int / rate);
            streamed(topped_up(stream, deposited, now), later) == Ok::<i128, Trap>(total as i128)
        }),
{
    lemma_topped_up(stream, deposited, now, later);
    lemma_accrual(topped_up(stream, deposited, now), later);
}

/// It does not matter which of two recipients claims first.
pub proof fn law_claims_commute(stream: StreamView, one: Address, two: Address, now: u32)
    requires
        sound_stream(stream),
        !stream.closed,
        one != two,
        place(stream.recipients, one) is Some,
        place(stream.recipients, two) is Some,
        claimable(stream, one, now) is Ok,
        claimable(stream, two, now) is Ok,
    ensures
        ({
            let first = claimed_by(
                stream,
                place(stream.recipients, one)->0,
                claimable(stream, one, now)->Ok_0,
            );
            let second = claimed_by(
                stream,
                place(stream.recipients, two)->0,
                claimable(stream, two, now)->Ok_0,
            );
            claimed_by(
                first,
                place(first.recipients, two)->0,
                claimable(first, two, now)->Ok_0,
            ) == claimed_by(
                second,
                place(second.recipients, one)->0,
                claimable(second, one, now)->Ok_0,
            )
        }),
{
    let shares = stream.recipients;
    let i = place(shares, one)->0;
    let j = place(shares, two)->0;
    let x = claimable(stream, one, now)->Ok_0;
    let y = claimable(stream, two, now)->Ok_0;
    assert(is_first_place(shares, one, i));
    assert(is_first_place(shares, two, j));
    let first = claimed_by(stream, i, x);
    let second = claimed_by(stream, j, y);
    lemma_place_after_claim(stream, i, x, two);
    lemma_place_after_claim(stream, j, y, one);
    law_claims_are_independent(stream, one, two, now, now);
    law_claims_are_independent(stream, two, one, now, now);
    assert(claimed_by(first, j, y).recipients =~= claimed_by(second, i, x).recipients);
}

} // verus!
