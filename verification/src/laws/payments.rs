//! What tips, batches and receipts do, in terms of what they are given.
use soroban_sdk::Address;
use vstd::prelude::*;

use crate::laws::entries::{holds, holds_amount, holds_number, same_entry};
use crate::laws::tips::{account_tips_sound, tips_sound};
use crate::outcome::{Action, Event, Failure, Party, Trap};
use crate::receipts::mint_receipt_step;
use crate::records::ReceiptView;
use crate::sdk::Datum;
use crate::storage::Storage;
use crate::tips::{batch, batch_send_step, send_tip_step};
use crate::types::{ContractError, DataKey, TipRecord, EVENT_SCHEMA_VERSION, MAX_RECEIPT_MEMO_BYTES};

verus! {

/// A tip of a positive amount goes through if the total and the number of the
/// recipient's tips stay in range, and the sender has to sign for it. It moves
/// exactly that amount of that token from the sender to the recipient, says so in
/// its event, adds that amount to the recipient's total, and is the recipient's
/// next record. Nothing else changes.
pub proof fn law_tip_moves_its_amount(
    s: Storage,
    token: Address,
    from: Address,
    to: Address,
    amount: i128,
    now: u32,
    total: i128,
    count: u32,
)
    requires
        holds_amount(s, DataKey::TipTotal(to), total),
        holds_number(s, DataKey::TipCount(to), count),
    ensures
        ({
            let step = send_tip_step(s, token, from, to, amount, now);
            let t = step.storage;
            &&& step.signer == Some(from)
            &&& step.outcome is Ok <==> amount > 0 && total + amount <= i128::MAX && count
                < u32::MAX
            &&& amount <= 0 ==> step.outcome == Err::<(), Failure>(
                Failure::Trap(Trap::TipAmountNotPositive),
            )
            &&& amount > 0 && step.outcome is Err ==> step.outcome == Err::<(), Failure>(
                Failure::Trap(Trap::AddOverflow),
            )
            &&& step.outcome is Err ==> t == s && step.actions.len() == 0
            &&& step.outcome is Ok ==> {
                &&& step.actions.len() == 2
                &&& step.actions[0] == Action::Publish {
                    version: EVENT_SCHEMA_VERSION,
                    event: Event::Tip { from, to, amount },
                }
                &&& step.actions[1] == Action::Transfer {
                    token,
                    from: Party::Account(from),
                    to: Party::Account(to),
                    amount,
                }
                &&& holds(t, DataKey::TipTotal(to), Datum::Amount((total + amount) as i128))
                &&& holds(t, DataKey::TipCount(to), Datum::Number((count + 1) as u32))
                &&& t.tip(DataKey::TipRecord(to, count), Trap::TipRecordNotFound) == Ok::<
                    TipRecord,
                    Trap,
                >(TipRecord { from, to, amount, ledger: now })
                &&& forall|key: DataKey|
                    key != DataKey::TipTotal(to) && key != DataKey::TipCount(to) && key
                        != DataKey::TipRecord(to, count) ==> #[trigger] same_entry(s, t, key)
            }
        }),
{
    TipRecord { from, to, amount, ledger: now }.lemma_round_trip();
}

/// A tip to an account whose entries are of other kinds than they should be is not
/// sent.
pub proof fn law_malformed_tips_are_refused(
    s: Storage,
    token: Address,
    from: Address,
    to: Address,
    amount: i128,
    now: u32,
)
    requires
        amount > 0,
        !(exists|n: i128| holds_amount(s, DataKey::TipTotal(to), n)) || !(exists|n: u32|
            holds_number(s, DataKey::TipCount(to), n)),
    ensures
        send_tip_step(s, token, from, to, amount, now).outcome == Err::<(), Failure>(
            Failure::Trap(Trap::MalformedEntry),
        ),
        send_tip_step(s, token, from, to, amount, now).actions.len() == 0,
{
    let total_key = DataKey::TipTotal(to);
    let count_key = DataKey::TipCount(to);
    if let Ok(n) = s.amount_or_zero(total_key) {
        assert(holds_amount(s, total_key, n));
    }
    if let Ok(n) = s.number_or_zero(count_key) {
        assert(holds_number(s, count_key, n));
    }
}

/// What the first `n` items of a batch are for `who`, in all.
pub open spec fn sum_for(
    recipients: Seq<Address>,
    amounts: Seq<i128>,
    who: Address,
    n: int,
) -> int
    decreases n,
{
    if n <= 0 {
        0
    } else {
        sum_for(recipients, amounts, who, n - 1) + if recipients[n - 1] == who {
            amounts[n - 1] as int
        } else {
            0
        }
    }
}

/// How many of the first `n` items of a batch are for `who`.
pub open spec fn number_for(recipients: Seq<Address>, who: Address, n: int) -> int
    decreases n,
{
    if n <= 0 {
        0
    } else {
        number_for(recipients, who, n - 1) + if recipients[n - 1] == who {
            1int
        } else {
            0
        }
    }
}

proof fn lemma_number_for(recipients: Seq<Address>, who: Address, i: int, n: int)
    requires
        0 <= i <= n,
    ensures
        0 <= number_for(recipients, who, i) <= number_for(recipients, who, n),
        i < n && recipients[i] == who ==> number_for(recipients, who, i) < number_for(
            recipients,
            who,
            n,
        ),
    decreases n,
{
    if i < n {
        lemma_number_for(recipients, who, i, n - 1);
    } else if n > 0 {
        lemma_number_for(recipients, who, n - 1, n - 1);
    }
}

proof fn lemma_sum_for(
    recipients: Seq<Address>,
    amounts: Seq<i128>,
    who: Address,
    i: int,
    n: int,
)
    requires
        0 <= i <= n <= amounts.len(),
        forall|j: int| 0 <= j < n ==> #[trigger] amounts[j] > 0,
    ensures
        0 <= sum_for(recipients, amounts, who, i) <= sum_for(recipients, amounts, who, n),
    decreases n,
{
    if i < n {
        lemma_sum_for(recipients, amounts, who, i, n - 1);
    } else if n > 0 {
        lemma_sum_for(recipients, amounts, who, n - 1, n - 1);
    }
}

/// The item at place `i` of a batch is on record.
pub open spec fn item_recorded(
    t: Storage,
    from: Address,
    recipients: Seq<Address>,
    amounts: Seq<i128>,
    now: u32,
    count: u32,
    i: int,
) -> bool {
    let to = recipients[i];
    t.tip(
        DataKey::TipRecord(to, (count + number_for(recipients, to, i)) as u32),
        Trap::TipRecordNotFound,
    ) == Ok::<TipRecord, Trap>(TipRecord { from, to, amount: amounts[i], ledger: now })
}

proof fn lemma_batch_for(
    s: Storage,
    token: Address,
    from: Address,
    recipients: Seq<Address>,
    amounts: Seq<i128>,
    now: u32,
    n: nat,
    who: Address,
    total: i128,
    count: u32,
)
    requires
        n <= recipients.len() == amounts.len(),
        batch(s, token, from, recipients, amounts, now, n).trap is None,
        holds_amount(s, DataKey::TipTotal(who), total),
        holds_number(s, DataKey::TipCount(who), count),
    ensures
        ({
            let t = batch(s, token, from, recipients, amounts, now, n).storage;
            let more = sum_for(recipients, amounts, who, n as int);
            let further = number_for(recipients, who, n as int);
            &&& total + more <= i128::MAX
            &&& count + further <= u32::MAX
            &&& 0 <= more
            &&& 0 <= further
            &&& holds_amount(t, DataKey::TipTotal(who), (total + more) as i128)
            &&& holds_number(t, DataKey::TipCount(who), (count + further) as u32)
            &&& forall|i: int|
                0 <= i < n && recipients[i] == who ==> #[trigger] item_recorded(
                    t,
                    from,
                    recipients,
                    amounts,
                    now,
                    count,
                    i,
                )
            &&& forall|i: u32| i < count ==> #[trigger] same_entry(s, t, DataKey::TipRecord(who, i))
        }),
    decreases n,
{
    if n > 0 {
        let m = (n - 1) as nat;
        lemma_batch_for(s, token, from, recipients, amounts, now, m, who, total, count);
        let u = batch(s, token, from, recipients, amounts, now, m).storage;
        let t = batch(s, token, from, recipients, amounts, now, n).storage;
        let to = recipients[n - 1];
        let amount = amounts[n - 1];
        let more = sum_for(recipients, amounts, who, m as int);
        let further = number_for(recipients, who, m as int);
        if to == who {
            law_tip_moves_its_amount(
                u,
                token,
                from,
                to,
                amount,
                now,
                (total + more) as i128,
                (count + further) as u32,
            );
        } else {
            let there = u.amount_or_zero(DataKey::TipTotal(to))->Ok_0;
            let number = u.number_or_zero(DataKey::TipCount(to))->Ok_0;
            law_tip_moves_its_amount(u, token, from, to, amount, now, there, number);
            assert(same_entry(u, t, DataKey::TipTotal(who)));
            assert(same_entry(u, t, DataKey::TipCount(who)));
        }
        assert forall|i: int| 0 <= i < n && recipients[i] == who implies #[trigger] item_recorded(
            t,
            from,
            recipients,
            amounts,
            now,
            count,
            i,
        ) by {
            if i < m {
                assert(item_recorded(u, from, recipients, amounts, now, count, i));
                lemma_number_for(recipients, who, i, m as int);
                let key = DataKey::TipRecord(
                    who,
                    (count + number_for(recipients, who, i)) as u32,
                );
                assert(same_entry(u, t, key));
            }
        }
        assert forall|i: u32| i < count implies #[trigger] same_entry(
            s,
            t,
            DataKey::TipRecord(who, i),
        ) by {
            assert(same_entry(s, u, DataKey::TipRecord(who, i)));
            assert(same_entry(u, t, DataKey::TipRecord(who, i)));
        }
    }
}

proof fn lemma_batch_transfers(
    s: Storage,
    token: Address,
    from: Address,
    recipients: Seq<Address>,
    amounts: Seq<i128>,
    now: u32,
    n: nat,
)
    requires
        n <= recipients.len() == amounts.len(),
        batch(s, token, from, recipients, amounts, now, n).trap is None,
    ensures
        ({
            let actions = batch(s, token, from, recipients, amounts, now, n).actions;
            &&& actions.len() == n
            &&& forall|i: int|
                0 <= i < n ==> #[trigger] actions[i] == (Action::Transfer {
                    token,
                    from: Party::Account(from),
                    to: Party::Account(recipients[i]),
                    amount: amounts[i],
                })
        }),
    decreases n,
{
    if n > 0 {
        lemma_batch_transfers(s, token, from, recipients, amounts, now, (n - 1) as nat);
    }
}

/// A batch that goes through moves, item by item, the item's amount of the token
/// from the sender to the item's recipient, and nothing else. Every account gets
/// the sum of its items added to its total, their number to its count, and one
/// record for each, in their order; its earlier records stay.
pub proof fn law_batch_moves_its_amounts(
    s: Storage,
    token: Address,
    from: Address,
    recipients: Seq<Address>,
    amounts: Seq<i128>,
    now: u32,
    who: Address,
    total: i128,
    count: u32,
)
    requires
        batch_send_step(s, token, from, Some(recipients), Some(amounts), now).outcome is Ok,
        holds_amount(s, DataKey::TipTotal(who), total),
        holds_number(s, DataKey::TipCount(who), count),
    ensures
        ({
            let step = batch_send_step(s, token, from, Some(recipients), Some(amounts), now);
            let t = step.storage;
            let n = recipients.len() as int;
            &&& amounts.len() == n
            &&& step.signer == Some(from)
            &&& step.actions.len() == n
            &&& forall|i: int|
                0 <= i < n ==> #[trigger] step.actions[i] == (Action::Transfer {
                    token,
                    from: Party::Account(from),
                    to: Party::Account(recipients[i]),
                    amount: amounts[i],
                })
            &&& total + sum_for(recipients, amounts, who, n) <= i128::MAX
            &&& count + number_for(recipients, who, n) <= u32::MAX
            &&& holds_amount(
                t,
                DataKey::TipTotal(who),
                (total + sum_for(recipients, amounts, who, n)) as i128,
            )
            &&& holds_number(
                t,
                DataKey::TipCount(who),
                (count + number_for(recipients, who, n)) as u32,
            )
            &&& forall|i: int|
                0 <= i < n && recipients[i] == who ==> #[trigger] item_recorded(
                    t,
                    from,
                    recipients,
                    amounts,
                    now,
                    count,
                    i,
                )
            &&& forall|i: u32| i < count ==> #[trigger] same_entry(s, t, DataKey::TipRecord(who, i))
        }),
{
    let n = recipients.len();
    lemma_batch_transfers(s, token, from, recipients, amounts, now, n);
    lemma_batch_for(s, token, from, recipients, amounts, now, n, who, total, count);
}

/// The item at place `n` of a batch that has come so far goes through where the
/// whole batch leaves all totals and counts in range.
proof fn lemma_batch_goes_on(
    s: Storage,
    token: Address,
    from: Address,
    recipients: Seq<Address>,
    amounts: Seq<i128>,
    now: u32,
    n: nat,
)
    requires
        tips_sound(s),
        n <= recipients.len() == amounts.len(),
        forall|i: int| 0 <= i < amounts.len() ==> #[trigger] amounts[i] > 0,
        forall|who: Address| #[trigger]
            fits_batch(s, recipients, amounts, who),
    ensures
        batch(s, token, from, recipients, amounts, now, n).trap is None,
    decreases n,
{
    if n > 0 {
        let m = (n - 1) as nat;
        lemma_batch_goes_on(s, token, from, recipients, amounts, now, m);
        let to = recipients[n - 1];
        let total = s.amount_or_zero(DataKey::TipTotal(to))->Ok_0;
        let count = s.number_or_zero(DataKey::TipCount(to))->Ok_0;
        assert(account_tips_sound(s, to));
        assert(fits_batch(s, recipients, amounts, to));
        lemma_batch_for(s, token, from, recipients, amounts, now, m, to, total, count);
        lemma_sum_for(recipients, amounts, to, n as int, recipients.len() as int);
        lemma_number_for(recipients, to, n as int, recipients.len() as int);
    }
}

/// The items of a batch for `who` leave its total and its count in range.
pub open spec fn fits_batch(
    s: Storage,
    recipients: Seq<Address>,
    amounts: Seq<i128>,
    who: Address,
) -> bool {
    let n = recipients.len() as int;
    exists|total: i128, count: u32| #[trigger]
        holds_amount(s, DataKey::TipTotal(who), total) && #[trigger] holds_number(
            s,
            DataKey::TipCount(who),
            count,
        ) && total + sum_for(recipients, amounts, who, n) <= i128::MAX && count + number_for(
            recipients,
            who,
            n,
        ) <= u32::MAX
}

/// A batch works exactly if it has an amount for every recipient, all amounts are
/// positive, and it leaves the total and the count of every account in range. A
/// batch that does not work moves nothing.
pub proof fn law_batch_works(
    s: Storage,
    token: Address,
    from: Address,
    recipients: Seq<Address>,
    amounts: Seq<i128>,
    now: u32,
)
    requires
        tips_sound(s),
    ensures
        ({
            let step = batch_send_step(s, token, from, Some(recipients), Some(amounts), now);
            &&& step.signer == Some(from)
            &&& step.outcome is Ok <==> {
                &&& recipients.len() == amounts.len()
                &&& forall|i: int| 0 <= i < amounts.len() ==> #[trigger] amounts[i] > 0
                &&& forall|who: Address| #[trigger] fits_batch(s, recipients, amounts, who)
            }
            &&& recipients.len() != amounts.len() ==> step.outcome == Err::<(), Failure>(
                Failure::Trap(Trap::UnequalArrays),
            )
            &&& step.outcome is Err ==> step.actions.len() == 0
        }),
{
    let step = batch_send_step(s, token, from, Some(recipients), Some(amounts), now);
    let n = recipients.len();
    if recipients.len() == amounts.len() {
        if step.outcome is Ok {
            lemma_batch_positive(s, token, from, recipients, amounts, now, n);
            assert forall|who: Address| #[trigger] fits_batch(s, recipients, amounts, who) by {
                assert(account_tips_sound(s, who));
                let total = s.amount_or_zero(DataKey::TipTotal(who))->Ok_0;
                let count = s.number_or_zero(DataKey::TipCount(who))->Ok_0;
                assert(holds_amount(s, DataKey::TipTotal(who), total));
                assert(holds_number(s, DataKey::TipCount(who), count));
                lemma_batch_for(s, token, from, recipients, amounts, now, n, who, total, count);
            }
        }
        if forall|i: int| 0 <= i < amounts.len() ==> #[trigger] amounts[i] > 0 {
            if forall|who: Address| #[trigger] fits_batch(s, recipients, amounts, who) {
                lemma_batch_goes_on(s, token, from, recipients, amounts, now, n);
            }
        }
    }
}

proof fn lemma_batch_positive(
    s: Storage,
    token: Address,
    from: Address,
    recipients: Seq<Address>,
    amounts: Seq<i128>,
    now: u32,
    n: nat,
)
    requires
        n <= recipients.len() == amounts.len(),
        batch(s, token, from, recipients, amounts, now, n).trap is None,
    ensures
        forall|i: int| 0 <= i < n ==> #[trigger] amounts[i] > 0,
    decreases n,
{
    if n > 0 {
        lemma_batch_positive(s, token, from, recipients, amounts, now, (n - 1) as nat);
    }
}

/// A batch whose lists hold something else than addresses and amounts is refused.
pub proof fn law_malformed_batches_are_refused(
    s: Storage,
    token: Address,
    from: Address,
    recipients: Option<Seq<Address>>,
    amounts: Option<Seq<i128>>,
    now: u32,
)
    requires
        recipients is None || amounts is None,
    ensures
        ({
            let step = batch_send_step(s, token, from, recipients, amounts, now);
            &&& step.outcome == Err::<(), Failure>(Failure::Trap(Trap::MalformedArgument))
            &&& step.actions.len() == 0
            &&& step.signer == Some(from)
        }),
{
}

/// A receipt is minted if its amount is positive, its memo is not too long and there
/// is a number left for it, and the payer has to sign for it. It moves no tokens.
/// Reading it back gives what was passed, its event names it, and nothing else
/// changes.
pub proof fn law_receipt_holds_what_was_passed(
    s: Storage,
    from: Address,
    to: Address,
    amount: i128,
    timestamp: u64,
    memo: Seq<u8>,
    now: u32,
    count: u32,
)
    requires
        holds_number(s, DataKey::ReceiptCount(from), count),
    ensures
        ({
            let receipt = ReceiptView { from, to, amount, timestamp, memo, ledger: now };
            let step = mint_receipt_step(s, receipt);
            let t = step.storage;
            &&& step.signer == Some(from)
            &&& step.outcome is Ok <==> amount > 0 && memo.len() <= MAX_RECEIPT_MEMO_BYTES && count
                < u32::MAX
            &&& amount <= 0 ==> step.outcome == Err::<u32, Failure>(
                Failure::Trap(Trap::ReceiptAmountNotPositive),
            )
            &&& amount > 0 && memo.len() > MAX_RECEIPT_MEMO_BYTES ==> step.outcome == Err::<
                u32,
                Failure,
            >(Failure::Error(ContractError::ReceiptMemoTooLong))
            &&& amount > 0 && memo.len() <= MAX_RECEIPT_MEMO_BYTES && count == u32::MAX
                ==> step.outcome == Err::<u32, Failure>(Failure::Trap(Trap::AddOverflow))
            &&& step.outcome is Err ==> t == s && step.actions.len() == 0
            &&& step.outcome is Ok ==> {
                &&& step.outcome == Ok::<u32, Failure>(count)
                &&& step.actions.len() == 1
                &&& step.actions[0] == Action::Publish {
                    version: EVENT_SCHEMA_VERSION,
                    event: Event::Receipt { from, index: count },
                }
                &&& t.receipt(DataKey::ReceiptRecordV2(from, count), Trap::ReceiptNotFound)
                    == Ok::<ReceiptView, Trap>(receipt)
                &&& holds(t, DataKey::ReceiptCount(from), Datum::Number((count + 1) as u32))
                &&& forall|key: DataKey|
                    key != DataKey::ReceiptCount(from) && key != DataKey::ReceiptRecordV2(
                        from,
                        count,
                    ) ==> #[trigger] same_entry(s, t, key)
            }
        }),
{
    ReceiptView { from, to, amount, timestamp, memo, ledger: now }.lemma_round_trip();
}

} // verus!
