//! What holds of all tips.
use soroban_sdk::Address;
use vstd::prelude::*;

use crate::laws::calls::{law_calls_keep_to_their_records, unchanged, Call, Family, PaymentCall};
use crate::outcome::Trap;
use crate::storage::Storage;
use crate::tips::{batch, batch_send_step, send_tip_step, tip_transfer, tipped};
use crate::types::{DataKey, TipRecord};

verus! {

/// The number of tips to `account`.
pub open spec fn tip_count(s: Storage, account: Address) -> u32 {
    s.number_or_zero(DataKey::TipCount(account))->Ok_0
}

/// The sum of the tips to `account`, as it is kept.
pub open spec fn tip_total(s: Storage, account: Address) -> i128 {
    s.amount_or_zero(DataKey::TipTotal(account))->Ok_0
}

/// A tip to `account`.
pub open spec fn tip_at(s: Storage, account: Address, index: u32) -> TipRecord {
    s.tip(DataKey::TipRecord(account, index), Trap::TipRecordNotFound)->Ok_0
}

/// There is a tip at this place, it went to `account`, and it was one.
pub open spec fn has_sound_tip(s: Storage, account: Address, index: u32) -> bool {
    &&& s.tip(DataKey::TipRecord(account, index), Trap::TipRecordNotFound) is Ok
    &&& tip_at(s, account, index).to == account
    &&& tip_at(s, account, index).amount > 0
}

/// The sum of the first `n` tips to `account`.
pub open spec fn tip_sum(s: Storage, account: Address, n: nat) -> int
    decreases n,
{
    if n == 0 {
        0
    } else {
        tip_sum(s, account, (n - 1) as nat) + tip_at(s, account, (n - 1) as u32).amount
    }
}

/// The tips to `account` are those below the count, and their sum is the total.
pub open spec fn account_tips_sound(s: Storage, account: Address) -> bool {
    &&& s.number_or_zero(DataKey::TipCount(account)) is Ok
    &&& s.amount_or_zero(DataKey::TipTotal(account)) is Ok
    &&& forall|i: u32|
        i < tip_count(s, account) ==> #[trigger] has_sound_tip(s, account, i)
    &&& forall|i: u32| #[trigger]
        s.has(DataKey::TipRecord(account, i)) <==> i < tip_count(s, account)
    &&& tip_total(s, account) == tip_sum(s, account, tip_count(s, account) as nat)
}

/// The tips to all accounts are sound.
pub open spec fn tips_sound(s: Storage) -> bool {
    forall|account: Address| #[trigger] account_tips_sound(s, account)
}

/// Sums over the same tips are the same.
proof fn lemma_same_sum(s: Storage, t: Storage, account: Address, n: nat)
    requires
        n <= u32::MAX,
        forall|i: u32| i < n ==> #[trigger] tip_at(t, account, i) == tip_at(s, account, i),
    ensures
        tip_sum(t, account, n) == tip_sum(s, account, n),
    decreases n,
{
    if n > 0 {
        lemma_same_sum(s, t, account, (n - 1) as nat);
        let last = (n - 1) as u32;
        assert(tip_at(t, account, last) == tip_at(s, account, last));
    }
}

/// The tips to an account depend on its own records alone.
proof fn lemma_same_tips(s: Storage, t: Storage, account: Address)
    requires
        unchanged(s, t, DataKey::TipCount(account)),
        unchanged(s, t, DataKey::TipTotal(account)),
        forall|i: u32| #[trigger] unchanged(s, t, DataKey::TipRecord(account, i)),
    ensures
        account_tips_sound(s, account) ==> account_tips_sound(t, account),
        tip_count(t, account) == tip_count(s, account),
        tip_total(t, account) == tip_total(s, account),
        forall|i: u32| #[trigger] tip_at(t, account, i) == tip_at(s, account, i),
{
    assert forall|i: u32| #[trigger] tip_at(t, account, i) == tip_at(s, account, i) by {
        assert(unchanged(s, t, DataKey::TipRecord(account, i)));
    }
    if account_tips_sound(s, account) {
        lemma_same_sum(s, t, account, tip_count(s, account) as nat);
        assert forall|i: u32| i < tip_count(t, account) implies #[trigger] has_sound_tip(
            t,
            account,
            i,
        ) by {
            assert(has_sound_tip(s, account, i));
            assert(unchanged(s, t, DataKey::TipRecord(account, i)));
        }
        assert forall|i: u32| #[trigger]
            t.has(DataKey::TipRecord(account, i)) <==> i < tip_count(t, account) by {
            assert(unchanged(s, t, DataKey::TipRecord(account, i)));
            assert(s.has(DataKey::TipRecord(account, i)) <==> i < tip_count(s, account));
        }
    }
}

/// A tip is recorded unless the total of the recipient leaves the range or
/// there is no number left. It is then the last tip of its recipient and part
/// of the total, the earlier tips are as they were, and so is all that others
/// were tipped.
pub proof fn law_tip_is_recorded(s: Storage, tip: TipRecord)
    requires
        tips_sound(s),
        tip.amount > 0,
    ensures
        tipped(s, tip) is Ok <==> tip_total(s, tip.to) + tip.amount <= i128::MAX && tip_count(
            s,
            tip.to,
        ) < u32::MAX,
        tipped(s, tip) matches Ok(t) ==> {
            let count = tip_count(s, tip.to);
            &&& tips_sound(t)
            &&& tip_count(t, tip.to) == count + 1
            &&& tip_total(t, tip.to) == tip_total(s, tip.to) + tip.amount
            &&& t.tip(DataKey::TipRecord(tip.to, count), Trap::TipRecordNotFound) == Ok::<
                TipRecord,
                Trap,
            >(tip)
            &&& forall|i: u32|
                i < count ==> #[trigger] tip_at(t, tip.to, i) == tip_at(s, tip.to, i)
            &&& forall|other: Address|
                other != tip.to ==> #[trigger] tip_count(t, other) == tip_count(s, other)
            &&& forall|other: Address|
                other != tip.to ==> #[trigger] tip_total(t, other) == tip_total(s, other)
            &&& forall|other: Address, i: u32|
                other != tip.to ==> #[trigger] tip_at(t, other, i) == tip_at(s, other, i)
        },
{
    assert(account_tips_sound(s, tip.to));
    let count = tip_count(s, tip.to);
    lemma_total_not_negative(s, tip.to, count as nat);
    if let Ok(t) = tipped(s, tip) {
        tip.lemma_round_trip();
        assert forall|i: u32| i < count implies #[trigger] tip_at(t, tip.to, i) == tip_at(
            s,
            tip.to,
            i,
        ) by {
            assert(unchanged(s, t, DataKey::TipRecord(tip.to, i)));
        }
        lemma_same_sum(s, t, tip.to, count as nat);
        assert forall|i: u32| i < count + 1 implies #[trigger] has_sound_tip(t, tip.to, i) by {
            if i < count {
                assert(has_sound_tip(s, tip.to, i));
                assert(unchanged(s, t, DataKey::TipRecord(tip.to, i)));
            }
        }
        assert forall|i: u32| #[trigger] t.has(DataKey::TipRecord(tip.to, i)) <==> i < count + 1 by {
            assert(s.has(DataKey::TipRecord(tip.to, i)) <==> i < count);
        }
        assert(account_tips_sound(t, tip.to));
        assert forall|other: Address| other != tip.to implies {
            &&& #[trigger] account_tips_sound(t, other)
            &&& tip_count(t, other) == tip_count(s, other)
            &&& tip_total(t, other) == tip_total(s, other)
            &&& forall|i: u32| #[trigger] tip_at(t, other, i) == tip_at(s, other, i)
        } by {
            assert(account_tips_sound(s, other));
            assert forall|i: u32| #[trigger] unchanged(s, t, DataKey::TipRecord(other, i)) by {}
            lemma_same_tips(s, t, other);
        }
        assert forall|account: Address| #[trigger] account_tips_sound(t, account) by {
            if account != tip.to {
                assert(account_tips_sound(t, account));
            }
        }
        assert forall|other: Address| other != tip.to implies #[trigger] tip_count(t, other)
            == tip_count(s, other) by {
            assert(account_tips_sound(t, other));
        }
        assert forall|other: Address| other != tip.to implies #[trigger] tip_total(t, other)
            == tip_total(s, other) by {
            assert(account_tips_sound(t, other));
        }
        assert forall|other: Address, i: u32| other != tip.to implies #[trigger] tip_at(
            t,
            other,
            i,
        ) == tip_at(s, other, i) by {
            assert(account_tips_sound(t, other));
        }
    }
}

proof fn lemma_total_not_negative(s: Storage, account: Address, n: nat)
    requires
        n <= u32::MAX,
        forall|i: u32| i < n ==> #[trigger] has_sound_tip(s, account, i),
    ensures
        0 <= tip_sum(s, account, n),
    decreases n,
{
    if n > 0 {
        lemma_total_not_negative(s, account, (n - 1) as nat);
        assert(has_sound_tip(s, account, (n - 1) as u32));
    }
}

/// A batch that was sent to the end left all tips sound.
proof fn lemma_batch_sound(
    s: Storage,
    token: Address,
    from: Address,
    recipients: Seq<Address>,
    amounts: Seq<i128>,
    now: u32,
    n: nat,
)
    requires
        tips_sound(s),
        n <= recipients.len() == amounts.len(),
    ensures
        tips_sound(batch(s, token, from, recipients, amounts, now, n).storage),
    decreases n,
{
    if n > 0 {
        let m = (n - 1) as nat;
        lemma_batch_sound(s, token, from, recipients, amounts, now, m);
        let before = batch(s, token, from, recipients, amounts, now, m);
        let tip = TipRecord {
            from,
            to: recipients[n - 1],
            amount: amounts[n - 1],
            ledger: now,
        };
        if before.trap is None && tip.amount > 0 {
            law_tip_is_recorded(before.storage, tip);
        }
    }
}

/// Whatever call is made, the tips of every account are counted and summed up.
pub proof fn law_tips_stay_sound(s: Storage, call: Call, now: u32)
    requires
        tips_sound(s),
    ensures
        tips_sound(call.effect(s, now).storage),
{
    let after = call.effect(s, now).storage;
    match call {
        Call::Payment(PaymentCall::SendTip { token, from, to, amount }) => {
            reveal(PaymentCall::effect);
            if amount > 0 {
                law_tip_is_recorded(s, TipRecord { from, to, amount, ledger: now });
            }
        },
        Call::Payment(PaymentCall::BatchSend { token, from, recipients, amounts }) => {
            reveal(PaymentCall::effect);
            if let (Some(recipients), Some(amounts)) = (recipients, amounts) {
                if recipients.len() == amounts.len() {
                    lemma_batch_sound(
                        s,
                        token,
                        from,
                        recipients,
                        amounts,
                        now,
                        recipients.len(),
                    );
                }
            }
        },
        _ => {
            law_calls_keep_to_their_records(s, call, now, Family::Tips);
            assert forall|account: Address| #[trigger] account_tips_sound(after, account) by {
                assert(account_tips_sound(s, account));
                assert(unchanged(s, after, DataKey::TipCount(account)));
                assert(unchanged(s, after, DataKey::TipTotal(account)));
                assert forall|i: u32| #[trigger]
                    unchanged(s, after, DataKey::TipRecord(account, i)) by {}
                lemma_same_tips(s, after, account);
            }
        },
    }
}

/// A batch is its tips sent one after the other: it goes as far as they go, and
/// leaves what they leave.
pub proof fn law_batch_is_tips_in_turn(
    s: Storage,
    token: Address,
    from: Address,
    recipients: Seq<Address>,
    amounts: Seq<i128>,
    now: u32,
    n: nat,
)
    requires
        n < recipients.len() == amounts.len(),
        batch(s, token, from, recipients, amounts, now, n).trap is None,
    ensures
        ({
            let before = batch(s, token, from, recipients, amounts, now, n);
            let after = batch(s, token, from, recipients, amounts, now, n + 1);
            let single = send_tip_step(
                before.storage,
                token,
                from,
                recipients[n as int],
                amounts[n as int],
                now,
            );
            let tip = TipRecord {
                from,
                to: recipients[n as int],
                amount: amounts[n as int],
                ledger: now,
            };
            &&& after.trap is None <==> single.outcome is Ok
            &&& after.storage == single.storage
            &&& after.trap is None ==> after.actions == before.actions.push(
                tip_transfer(token, tip),
            ) && single.actions.last() == tip_transfer(token, tip)
        }),
{
}

/// A batch is sent as a whole or not at all: it works exactly if all of its
/// tips go through.
pub proof fn law_batch_is_all_or_nothing(
    s: Storage,
    token: Address,
    from: Address,
    recipients: Seq<Address>,
    amounts: Seq<i128>,
    now: u32,
)
    requires
        recipients.len() == amounts.len(),
    ensures
        ({
            let step = batch_send_step(s, token, from, Some(recipients), Some(amounts), now);
            &&& step.outcome is Ok <==> forall|n: nat|
                n <= recipients.len() ==> #[trigger] batch(
                    s,
                    token,
                    from,
                    recipients,
                    amounts,
                    now,
                    n,
                ).trap is None
            &&& step.outcome is Ok ==> step.actions.len() == recipients.len()
            &&& step.outcome is Ok ==> forall|i: int|
                0 <= i < amounts.len() ==> #[trigger] amounts[i] > 0
        }),
{
    let all = batch(s, token, from, recipients, amounts, now, recipients.len());
    if all.trap is None {
        lemma_batch_prefix(s, token, from, recipients, amounts, now, recipients.len());
    }
}

proof fn lemma_batch_prefix(
    s: Storage,
    token: Address,
    from: Address,
    recipients: Seq<Address>,
    amounts: Seq<i128>,
    now: u32,
    n: nat,
)
    requires
        n <= recipients.len() == amounts.len(),
        batch(s, token, from, recipients, amounts, now, n).trap is None,
    ensures
        batch(s, token, from, recipients, amounts, now, n).actions.len() == n,
        forall|m: nat|
            m <= n ==> #[trigger] batch(s, token, from, recipients, amounts, now, m).trap is None,
        forall|i: int| 0 <= i < n ==> #[trigger] amounts[i] > 0,
    decreases n,
{
    if n > 0 {
        lemma_batch_prefix(s, token, from, recipients, amounts, now, (n - 1) as nat);
    }
}

} // verus!
