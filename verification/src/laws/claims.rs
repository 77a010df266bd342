//! What holds of the shares of one stream: none is paid ahead of what has accrued,
//! so that it does not matter how often its holder claims.
use soroban_sdk::Address;
use vstd::prelude::*;

use crate::accrual::{claimable, is_first_place, lemma_place, place, run_for, streamed, weight_sum};
use crate::laws::accrual::{full_accrual, law_accrual_is_rate_times_ledgers,
    law_accrual_never_shrinks, law_claim_keeps_stream_sound, law_claimable_unless_out_of_range,
    law_top_up_does_not_pay_at_once, lemma_accrual, lemma_part, lemma_place_after_claim,
    lemma_same_weights, lemma_share_of, lemma_sound_weights, share_of, sound_share, sound_stream};
use crate::laws::closing::law_close_pays_out_the_deposit;
use crate::records::StreamView;
use crate::streams::{claimed_by, closing, resumed, suspended, topped_up};

verus! {

/// The part of the recipient at place `i` of what has accrued up to ledger `now`.
pub open spec fn part_at(stream: StreamView, i: int, now: u32) -> int {
    share_of(
        streamed(stream, now)->Ok_0 as int,
        stream.recipients[i].weight,
        weight_sum(stream.recipients),
    )
}

/// No share was paid more than its part of what has accrued up to ledger `now`.
pub open spec fn earned(stream: StreamView, now: u32) -> bool {
    forall|i: int|
        0 <= i < stream.recipients.len() ==> (#[trigger] stream.recipients[i]).claimed <= part_at(
            stream,
            i,
            now,
        )
}

/// A stream that is not paused stores no ledger at which a pause began.
pub open spec fn resting(stream: StreamView) -> bool {
    !stream.paused ==> stream.paused_at_ledger == 0
}

/// A stream that has paid nobody ahead has not when time has passed.
pub proof fn law_time_keeps_stream_earned(stream: StreamView, now: u32, later: u32)
    requires
        sound_stream(stream),
        earned(stream, now),
        now <= later,
    ensures
        earned(stream, later),
{
    law_accrual_never_shrinks(stream, now, later);
    law_accrual_is_rate_times_ledgers(stream, now);
    lemma_sound_weights(stream);
    assert forall|i: int| 0 <= i < stream.recipients.len() implies (
    #[trigger] stream.recipients[i]).claimed <= part_at(stream, i, later) by {
        lemma_share_of(
            streamed(stream, now)->Ok_0 as int,
            streamed(stream, later)->Ok_0 as int,
            stream.recipients[i].weight,
            weight_sum(stream.recipients),
        );
    }
}

/// What a recipient can claim from a sound stream that has paid nobody ahead is
/// the rest of its part.
pub proof fn law_claimable_is_the_rest_of_the_part(stream: StreamView, who: Address, now: u32)
    requires
        sound_stream(stream),
        earned(stream, now),
        !stream.closed,
        place(stream.recipients, who) is Some,
        claimable(stream, who, now) is Ok,
    ensures
        ({
            let index = place(stream.recipients, who)->0;
            &&& 0 <= index < stream.recipients.len()
            &&& claimable(stream, who, now)->Ok_0 == part_at(stream, index, now)
                - stream.recipients[index].claimed
        }),
{
    let index = place(stream.recipients, who)->0;
    assert(is_first_place(stream.recipients, who, index));
    let share = stream.recipients[index];
    law_accrual_is_rate_times_ledgers(stream, now);
    lemma_sound_weights(stream);
    assert(sound_share(share, full_accrual(stream), weight_sum(stream.recipients)));
    lemma_part(streamed(stream, now)->Ok_0, share.weight, weight_sum(stream.recipients));
    assert(share.claimed <= part_at(stream, index, now));
}

/// A claim, a change of the deposit, a pause and its end pay nobody ahead.
pub proof fn law_changes_pay_nobody_ahead(
    stream: StreamView,
    who: Address,
    deposited: i128,
    now: u32,
)
    requires
        sound_stream(stream),
        earned(stream, now),
        !stream.closed,
    ensures
        place(stream.recipients, who) is Some && claimable(stream, who, now) is Ok ==> earned(
            claimed_by(
                stream,
                place(stream.recipients, who)->0,
                claimable(stream, who, now)->Ok_0,
            ),
            now,
        ),
        stream.deposited <= deposited ==> earned(topped_up(stream, deposited, now), now),
        !stream.paused ==> earned(suspended(stream, now), now),
        stream.paused ==> earned(resumed(stream, now), now),
{
    lemma_accrual(stream, now);
    if place(stream.recipients, who) is Some && claimable(stream, who, now) is Ok {
        let index = place(stream.recipients, who)->0;
        let after = claimed_by(stream, index, claimable(stream, who, now)->Ok_0);
        law_claimable_is_the_rest_of_the_part(stream, who, now);
        law_claim_keeps_stream_sound(stream, who, now);
        assert(streamed(after, now) == streamed(stream, now));
        assert forall|i: int| 0 <= i < after.recipients.len() implies (
        #[trigger] after.recipients[i]).claimed <= part_at(after, i, now) by {
            assert(stream.recipients[i].claimed <= part_at(stream, i, now));
            assert(part_at(after, i, now) == part_at(stream, i, now));
        }
    }
    if stream.deposited <= deposited {
        let more = topped_up(stream, deposited, now);
        law_top_up_does_not_pay_at_once(stream, deposited, now, who);
        lemma_same_parts(stream, more, now);
    }
    if !stream.paused {
        let held = suspended(stream, now);
        assert(run_for(held, now) == run_for(stream, now));
        lemma_same_parts(stream, held, now);
    } else {
        let live = resumed(stream, now);
        assert(run_for(live, now) == run_for(stream, now));
        lemma_same_parts(stream, live, now);
    }
}

/// Whether a stream has paid somebody ahead depends on its shares and on what has
/// accrued alone.
proof fn lemma_same_parts(one: StreamView, two: StreamView, now: u32)
    requires
        earned(one, now),
        one.recipients == two.recipients,
        streamed(one, now) == streamed(two, now),
    ensures
        earned(two, now),
{
    assert forall|i: int| 0 <= i < two.recipients.len() implies (
    #[trigger] two.recipients[i]).claimed <= part_at(two, i, now) by {
        assert(one.recipients[i].claimed <= part_at(one, i, now));
    }
}

/// Ending a stream settles every recipient to exactly its part of what has
/// accrued.
pub proof fn law_close_settles_each_to_its_part(stream: StreamView, now: u32)
    requires
        sound_stream(stream),
        earned(stream, now),
        !stream.closed,
        closing(stream, now) is Ok,
    ensures
        ({
            let end = closing(stream, now)->Ok_0.stream;
            &&& end.recipients.len() == stream.recipients.len()
            &&& forall|i: int|
                0 <= i < stream.recipients.len() ==> (#[trigger] end.recipients[i]).claimed
                    == part_at(stream, i, now)
            &&& earned(end, now)
            &&& resting(stream) ==> resting(end)
        }),
{
    let end = closing(stream, now)->Ok_0.stream;
    let shares = stream.recipients;
    law_close_pays_out_the_deposit(stream, now);
    assert forall|i: int| 0 <= i < shares.len() implies (#[trigger] end.recipients[i]).claimed
        == part_at(stream, i, now) && end.recipients[i].weight == shares[i].weight by {
        let who = shares[i].recipient;
        assert(is_first_place(shares, who, i));
        lemma_place(shares, who, i);
        law_claimable_is_the_rest_of_the_part(stream, who, now);
    }
    lemma_same_weights(end.recipients, shares, 0, 1);
    assert(run_for(end, now) == run_for(stream, now));
    assert forall|i: int| 0 <= i < end.recipients.len() implies (
    #[trigger] end.recipients[i]).claimed <= part_at(end, i, now) by {
        assert(part_at(end, i, now) == part_at(stream, i, now));
    }
}

/// The stream once `who` has claimed at ledger `now`.
pub open spec fn claimed_at(stream: StreamView, who: Address, now: u32) -> StreamView {
    claimed_by(stream, place(stream.recipients, who)->0, claimable(stream, who, now)->Ok_0)
}

/// A claim that follows another one leaves what it alone would have left.
pub proof fn law_two_claims_pay_like_one(
    stream: StreamView,
    who: Address,
    earlier: u32,
    now: u32,
)
    requires
        sound_stream(stream),
        earned(stream, earlier),
        !stream.closed,
        place(stream.recipients, who) is Some,
        claimable(stream, who, now) is Ok,
        earlier <= now,
    ensures
        claimable(stream, who, earlier) is Ok,
        claimable(claimed_at(stream, who, earlier), who, now) is Ok,
        claimable(stream, who, earlier)->Ok_0 + claimable(
            claimed_at(stream, who, earlier),
            who,
            now,
        )->Ok_0 == claimable(stream, who, now)->Ok_0,
        claimed_at(claimed_at(stream, who, earlier), who, now) == claimed_at(stream, who, now),
{
    let index = place(stream.recipients, who)->0;
    assert(is_first_place(stream.recipients, who, index));
    let weight = stream.recipients[index].weight;
    let before = streamed(stream, earlier)->Ok_0;
    let total = streamed(stream, now)->Ok_0;
    law_accrual_is_rate_times_ledgers(stream, earlier);
    law_accrual_is_rate_times_ledgers(stream, now);
    law_accrual_never_shrinks(stream, earlier, now);
    assert(before * weight <= total * weight) by (nonlinear_arith)
        requires
            before <= total,
    ;
    law_claimable_unless_out_of_range(stream, who, earlier);
    law_claimable_unless_out_of_range(stream, who, now);
    law_time_keeps_stream_earned(stream, earlier, now);
    law_claimable_is_the_rest_of_the_part(stream, who, earlier);
    law_claimable_is_the_rest_of_the_part(stream, who, now);
    let first = claimed_at(stream, who, earlier);
    lemma_place_after_claim(stream, index, claimable(stream, who, earlier)->Ok_0, who);
    law_claim_keeps_stream_sound(stream, who, earlier);
    law_changes_pay_nobody_ahead(stream, who, stream.deposited, earlier);
    law_time_keeps_stream_earned(first, earlier, now);
    assert(streamed(first, now) == streamed(stream, now));
    law_claimable_unless_out_of_range(first, who, now);
    law_claimable_is_the_rest_of_the_part(first, who, now);
    assert(claimed_at(first, who, now).recipients =~= claimed_at(stream, who, now).recipients);
}

/// The stream once `who` has claimed at each of these ledgers.
pub open spec fn claimed_at_all(stream: StreamView, who: Address, ledgers: Seq<u32>) -> StreamView
    decreases ledgers.len(),
{
    if ledgers.len() == 0 {
        stream
    } else {
        claimed_at(claimed_at_all(stream, who, ledgers.drop_last()), who, ledgers.last())
    }
}

/// However often a recipient claims, it is paid what one claim at the last of
/// those ledgers pays.
pub proof fn law_many_claims_pay_like_one(stream: StreamView, who: Address, ledgers: Seq<u32>)
    requires
        sound_stream(stream),
        0 < ledgers.len(),
        earned(stream, ledgers[0]),
        forall|i: int, j: int| 0 <= i < j < ledgers.len() ==> ledgers[i] <= ledgers[j],
        !stream.closed,
        place(stream.recipients, who) is Some,
        claimable(stream, who, ledgers.last()) is Ok,
    ensures
        claimed_at_all(stream, who, ledgers) == claimed_at(stream, who, ledgers.last()),
    decreases ledgers.len(),
{
    let rest = ledgers.drop_last();
    if rest.len() == 0 {
        assert(claimed_at_all(stream, who, rest) == stream);
    } else {
        let before = rest.last();
        assert(before == ledgers[ledgers.len() - 2]);
        assert(rest[0] == ledgers[0]);
        assert forall|i: int, j: int| 0 <= i < j < rest.len() implies rest[i] <= rest[j] by {
            assert(rest[i] == ledgers[i] && rest[j] == ledgers[j]);
        }
        assert(ledgers[0] <= before <= ledgers.last());
        law_time_keeps_stream_earned(stream, ledgers[0], before);
        law_two_claims_pay_like_one(stream, who, before, ledgers.last());
        law_many_claims_pay_like_one(stream, who, rest);
    }
}

/// Pausing a running stream and resuming it at the same ledger leaves it as it was.
pub proof fn law_pause_and_resume_at_once_change_nothing(stream: StreamView, now: u32)
    requires
        !stream.paused,
        resting(stream),
    ensures
        resumed(suspended(stream, now), now) == stream,
{
}

} // verus!
