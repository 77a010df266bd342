//! What holds of the end of a stream: everybody gets what is theirs, and
//! nothing is left.
use soroban_sdk::Address;
use vstd::prelude::*;

use crate::accrual::{claimable, claimed_sum, is_first_place, lemma_place, part, run_for, streamed,
    weight_sum};
use crate::laws::accrual::{full_accrual, law_accrual_is_rate_times_ledgers,
    law_claimed_never_exceeds_deposited, lemma_claimed_sum_bound, lemma_part, lemma_same_run,
    lemma_same_weights, lemma_share_of, lemma_sound_weights, lemma_take_share_sum,
    lemma_weight_in_sum, sound_share, sound_stream};
use crate::laws::money::{lemma_net_push, net};
use crate::records::StreamView;
use crate::streams::{closing, paid_out, resumed, settled};
use crate::types::StreamRecipient;

verus! {

/// The stream that the settlement works on.
pub open spec fn running(stream: StreamView, now: u32) -> StreamView {
    if stream.paused {
        resumed(stream, now)
    } else {
        stream
    }
}

/// What a share has been paid once it was settled.
pub open spec fn paid_up(share: StreamRecipient, total: i128, out_of: nat) -> int {
    let entitled = part(total, share.weight, out_of)->Ok_0;
    if entitled > share.claimed {
        entitled as int
    } else {
        share.claimed as int
    }
}

/// The first `n` shares of a sound stream are settled unless an entitlement
/// leaves the range. Every share is then paid up, the transfers pay the
/// difference, and no share has more than its part.
pub proof fn lemma_settled(stream: StreamView, total: i128, n: nat)
    requires
        sound_stream(stream),
        0 <= total <= full_accrual(stream),
        n <= stream.recipients.len(),
    ensures
        settled(stream, total, n) is Ok <==> forall|i: int|
            0 <= i < n ==> part(
                total,
                (#[trigger] stream.recipients[i]).weight,
                weight_sum(stream.recipients),
            ) is Ok,
        settled(stream, total, n) matches Ok(s) ==> {
            &&& s.shares.len() == n
            &&& forall|i: int|
                0 <= i < n ==> (#[trigger] s.shares[i]).recipient == stream.recipients[i].recipient
                    && s.shares[i].weight == stream.recipients[i].weight && s.shares[i].claimed
                    == paid_up(stream.recipients[i], total, weight_sum(stream.recipients))
                    && sound_share(
                    s.shares[i],
                    full_accrual(stream),
                    weight_sum(stream.recipients),
                )
            &&& 0 <= s.owed == claimed_sum(s.shares) - claimed_sum(stream.recipients.take(n as int))
            &&& net(s.transfers, stream.token) == -s.owed
            &&& forall|token: Address|
                token != stream.token ==> #[trigger] net(s.transfers, token) == 0
            &&& forall|i: int|
                0 <= i < s.transfers.len() ==> (#[trigger] s.transfers[i]) is Transfer
                    && s.transfers[i]->from is Contract && s.transfers[i]->Transfer_amount > 0
        },
    decreases n,
{
    let shares = stream.recipients;
    if n == 0 {
        assert(shares.take(0) =~= Seq::empty());
    } else {
        let m = (n - 1) as nat;
        lemma_settled(stream, total, m);
        assert(shares.take(n as int).drop_last() =~= shares.take(m as int));
        let share = shares[m as int];
        lemma_weight_in_sum(shares, m as int);
        lemma_part(total, share.weight, weight_sum(shares));
        assert(sound_share(share, full_accrual(stream), weight_sum(shares)));
        lemma_share_of(total as int, full_accrual(stream), share.weight, weight_sum(shares));
        if settled(stream, total, m) is Ok && part(total, share.weight, weight_sum(shares)) is Ok {
            let before = settled(stream, total, m)->Ok_0;
            let entitled = part(total, share.weight, weight_sum(shares))->Ok_0;
            let new = StreamRecipient {
                claimed: paid_up(share, total, weight_sum(shares)) as i128,
                ..share
            };
            let paid = before.shares.push(new);
            assert(paid.drop_last() =~= before.shares);
            assert forall|i: int| 0 <= i < n implies sound_share(
                #[trigger] paid[i],
                full_accrual(stream),
                weight_sum(shares),
            ) by {
                if i < m {
                    assert(paid[i] == before.shares[i]);
                }
            }
            assert forall|i: int| 0 <= i < n implies (#[trigger] paid[i]).weight
                == shares[i].weight by {
                if i < m {
                    assert(paid[i] == before.shares[i]);
                }
            }
            lemma_prefix_bound(stream, paid, n);
            assert forall|i: int| 0 <= i < shares.len() implies 0 <= (
            #[trigger] shares[i]).claimed by {
                assert(sound_share(shares[i], full_accrual(stream), weight_sum(shares)));
            }
            lemma_claimed_not_negative(shares, m as int);
            lemma_claimed_not_negative(shares, n as int);
            let rest = entitled - share.claimed;
            if rest > 0 {
                let transfer = paid_out(stream, share.recipient, rest as i128);
                lemma_net_push(before.transfers, transfer, stream.token);
                assert forall|token: Address| token != stream.token implies #[trigger] net(
                    before.transfers.push(transfer),
                    token,
                ) == 0 by {
                    lemma_net_push(before.transfers, transfer, token);
                }
            }
        }
    }
}

/// The claims of sound shares are not negative.
pub proof fn lemma_claimed_not_negative(shares: Seq<StreamRecipient>, n: int)
    requires
        0 <= n <= shares.len(),
        forall|i: int| 0 <= i < shares.len() ==> 0 <= (#[trigger] shares[i]).claimed,
    ensures
        0 <= claimed_sum(shares.take(n)),
    decreases n,
{
    if n > 0 {
        assert(shares.take(n).drop_last() =~= shares.take(n - 1));
        lemma_claimed_not_negative(shares, n - 1);
        assert(0 <= shares[n - 1].claimed);
    }
}

/// Some of the shares were together paid no more than was deposited.
proof fn lemma_prefix_bound(stream: StreamView, paid: Seq<StreamRecipient>, n: nat)
    requires
        sound_stream(stream),
        n == paid.len() <= stream.recipients.len(),
        0 <= full_accrual(stream),
        forall|i: int|
            0 <= i < n ==> (#[trigger] paid[i]).weight == stream.recipients[i].weight,
        forall|i: int|
            0 <= i < n ==> sound_share(
                #[trigger] paid[i],
                full_accrual(stream),
                weight_sum(stream.recipients),
            ),
    ensures
        0 <= claimed_sum(paid) <= stream.deposited,
{
    let full = full_accrual(stream);
    let out_of = weight_sum(stream.recipients);
    let first = stream.recipients.take(n as int);
    lemma_claimed_sum_bound(paid, full, out_of);
    assert forall|i: int| 0 <= i < n implies (#[trigger] paid[i]).weight == first[i].weight by {}
    lemma_same_weights(paid, first, full, out_of);
    lemma_sound_weights(stream);
    lemma_take_share_sum(stream.recipients, n as int, full, out_of);
}

/// A stream whose shares were all paid up is sound.
proof fn lemma_settled_is_sound(stream: StreamView, paid: Seq<StreamRecipient>)
    requires
        sound_stream(stream),
        paid.len() == stream.recipients.len(),
        forall|i: int|
            0 <= i < paid.len() ==> (#[trigger] paid[i]).recipient
                == stream.recipients[i].recipient && paid[i].weight == stream.recipients[i].weight
                && sound_share(paid[i], full_accrual(stream), weight_sum(stream.recipients)),
    ensures
        sound_stream(StreamView { recipients: paid, closed: true, ..stream }),
{
    let end = StreamView { recipients: paid, closed: true, ..stream };
    assert forall|i: int| 0 <= i < paid.len() implies (#[trigger] paid[i]).weight
        == stream.recipients[i].weight by {}
    lemma_same_weights(
        paid,
        stream.recipients,
        full_accrual(stream),
        weight_sum(stream.recipients),
    );
    assert forall|i: int, j: int| 0 <= i < j < paid.len() implies (
    #[trigger] end.recipients[i]).recipient != (#[trigger] end.recipients[j]).recipient by {
        assert(stream.recipients[i].recipient != stream.recipients[j].recipient);
        assert(paid[i].recipient == stream.recipients[i].recipient);
        assert(paid[j].recipient == stream.recipients[j].recipient);
    }
    assert forall|i: int| 0 <= i < end.recipients.len() implies sound_share(
        #[trigger] end.recipients[i],
        full_accrual(end),
        weight_sum(end.recipients),
    ) by {
        assert(paid[i].weight == stream.recipients[i].weight);
    }
}

/// Ending a sound stream pays every recipient what it could claim at that
/// ledger and the payer the rest of the deposit. Nothing stays behind, and
/// nobody is paid out of another stream: what leaves the contract is what the
/// stream still held.
pub proof fn law_close_pays_out_the_deposit(stream: StreamView, now: u32)
    requires
        sound_stream(stream),
        !stream.closed,
        closing(stream, now) is Ok,
    ensures
        ({
            let end = closing(stream, now)->Ok_0;
            &&& end.stream.closed
            &&& sound_stream(end.stream)
            &&& end.stream.recipients.len() == stream.recipients.len()
            &&& forall|i: int|
                0 <= i < stream.recipients.len() ==> {
                    let share = #[trigger] stream.recipients[i];
                    &&& end.stream.recipients[i].recipient == share.recipient
                    &&& end.stream.recipients[i].weight == share.weight
                    &&& claimable(stream, share.recipient, now) is Ok
                    &&& end.stream.recipients[i].claimed == share.claimed + claimable(
                        stream,
                        share.recipient,
                        now,
                    )->Ok_0
                }
            &&& 0 <= end.refund == stream.deposited - claimed_sum(end.stream.recipients)
            &&& 0 <= end.owed == claimed_sum(end.stream.recipients) - claimed_sum(stream.recipients)
            &&& end.owed + end.refund == stream.deposited - claimed_sum(stream.recipients)
            &&& net(end.transfers, stream.token) == -(stream.deposited - claimed_sum(
                stream.recipients,
            ))
            &&& forall|token: Address|
                token != stream.token ==> #[trigger] net(end.transfers, token) == 0
            &&& forall|i: int|
                0 <= i < end.transfers.len() ==> (#[trigger] end.transfers[i]) is Transfer
                    && end.transfers[i]->from is Contract && end.transfers[i]->Transfer_amount > 0
        }),
{
    let live = running(stream, now);
    let shares = stream.recipients;
    let end = closing(stream, now)->Ok_0;
    assert(sound_stream(live));
    law_accrual_is_rate_times_ledgers(live, now);
    law_accrual_is_rate_times_ledgers(stream, now);
    let total = streamed(live, now)->Ok_0;
    lemma_settled(live, total, shares.len());
    assert(shares.take(shares.len() as int) =~= shares);
    let settlement = settled(live, total, shares.len())->Ok_0;
    lemma_settled_is_sound(live, settlement.shares);
    assert(sound_stream(end.stream));
    law_claimed_never_exceeds_deposited(end.stream);
    law_claimed_never_exceeds_deposited(stream);
    assert forall|i: int| 0 <= i < shares.len() implies {
        let share = #[trigger] shares[i];
        &&& end.stream.recipients[i].recipient == share.recipient
        &&& end.stream.recipients[i].weight == share.weight
        &&& claimable(stream, share.recipient, now) is Ok
        &&& end.stream.recipients[i].claimed == share.claimed + claimable(
            stream,
            share.recipient,
            now,
        )->Ok_0
    } by {
        let share = shares[i];
        assert(is_first_place(shares, share.recipient, i));
        lemma_place(shares, share.recipient, i);
        assert(run_for(live, now) == run_for(stream, now));
        lemma_same_run(live, stream, now, now, share.recipient);
        assert(settlement.shares[i].recipient == share.recipient);
        lemma_weight_in_sum(shares, i);
        assert(sound_share(share, full_accrual(stream), weight_sum(shares)));
        lemma_part(total, share.weight, weight_sum(shares));
    }
    if end.refund > 0 {
        let transfer = paid_out(stream, stream.payer, end.refund);
        lemma_net_push(settlement.transfers, transfer, stream.token);
        assert forall|token: Address| token != stream.token implies #[trigger] net(
            end.transfers,
            token,
        ) == 0 by {
            lemma_net_push(settlement.transfers, transfer, token);
        }
    }
}

/// A sound stream can be ended unless what has accrued times a weight leaves the
/// range of amounts.
pub proof fn law_close_unless_out_of_range(stream: StreamView, now: u32)
    requires
        sound_stream(stream),
        !stream.closed,
    ensures
        streamed(stream, now) is Ok,
        closing(stream, now) is Ok <==> forall|i: int|
            0 <= i < stream.recipients.len() ==> streamed(stream, now)->Ok_0 * (
            #[trigger] stream.recipients[i]).weight <= i128::MAX,
{
    let live = running(stream, now);
    let shares = stream.recipients;
    assert(sound_stream(live));
    law_accrual_is_rate_times_ledgers(live, now);
    law_accrual_is_rate_times_ledgers(stream, now);
    assert(run_for(live, now) == run_for(stream, now));
    let total = streamed(live, now)->Ok_0;
    assert forall|i: int| 0 <= i < shares.len() implies (part(
        total,
        (#[trigger] live.recipients[i]).weight,
        weight_sum(shares),
    ) is Ok <==> total * shares[i].weight <= i128::MAX) by {
        lemma_weight_in_sum(shares, i);
        assert(sound_share(shares[i], full_accrual(stream), weight_sum(shares)));
        lemma_part(total, shares[i].weight, weight_sum(shares));
    }
    lemma_settled(live, total, shares.len());
    assert(shares.take(shares.len() as int) =~= shares);
    if settled(live, total, shares.len()) is Ok {
        let settlement = settled(live, total, shares.len())->Ok_0;
        let end = StreamView { recipients: settlement.shares, closed: true, ..live };
        lemma_settled_is_sound(live, settlement.shares);
        law_claimed_never_exceeds_deposited(end);
        assert forall|i: int| 0 <= i < shares.len() implies total * (
        #[trigger] shares[i]).weight <= i128::MAX by {
            assert(part(total, live.recipients[i].weight, weight_sum(shares)) is Ok);
        }
    }
}

} // verus!
