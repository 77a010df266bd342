//! Streams: payments that accrue ledger by ledger.
use soroban_sdk::{Address, Env, Val};
use vstd::prelude::*;

use crate::accrual::{all_recipients_read, claimable, claimable_amount, claimed_total, dry_for,
    dry_ledgers, entitlement, find_recipient, part, place, streamed, total_claimed,
    total_streamed_amount, total_weight, weight_sum};
use crate::arith::{checked_minus, checked_next, checked_plus, least, less, minus, next, plus};
use crate::clock::{current_ledger, is_current_ledger};
use crate::outcome::{published, Action, Answer, Event, Party, Step, Trap};
use crate::records::{contents, odd_items, read_stream, share_items, StreamView};
use crate::sdk::{address_items, datum, further_levels, list_of_addresses,
    list_of_numbers, nests, number_items, number_value, same_address, Datum};
use crate::storage::{extend_persistent_ttl, number_or_zero, put, storage, Storage};
use crate::types::{DataKey, MicroPayContract, Stream, StreamRecipient, EVENT_SCHEMA_VERSION,
    MIN_STREAM_DEPOSIT, MIN_STREAM_DURATION_LEDGERS};

verus! {

/// Why a stream with these terms is not opened, if it is not.
pub open spec fn refusal(
    recipients: Seq<Address>,
    weights: Seq<u32>,
    rate_per_ledger: i128,
    deposit: i128,
) -> Option<Trap> {
    if recipients.len() != weights.len() {
        Some(Trap::UnequalRecipientsAndWeights)
    } else if recipients.len() == 0 {
        Some(Trap::NoRecipients)
    } else if weights.contains(0u32) {
        Some(Trap::WeightNotPositive)
    } else if !recipients.no_duplicates() {
        Some(Trap::DuplicateRecipient)
    } else if rate_per_ledger <= 0 {
        Some(Trap::RateNotPositive)
    } else if deposit <= 0 {
        Some(Trap::DepositNotPositive)
    } else if deposit < MIN_STREAM_DEPOSIT {
        Some(Trap::DepositBelowMinimum)
    } else if (deposit as int / rate_per_ledger as int) < MIN_STREAM_DURATION_LEDGERS {
        Some(Trap::DurationBelowMinimum)
    } else {
        None
    }
}

/// The shares of a new stream.
pub open spec fn fresh_shares(recipients: Seq<Address>, weights: Seq<u32>) -> Seq<StreamRecipient> {
    Seq::new(
        recipients.len(),
        |i: int| StreamRecipient { recipient: recipients[i], weight: weights[i], claimed: 0 },
    )
}

/// A stream that was opened at ledger `now`.
pub open spec fn fresh_stream(
    token: Address,
    payer: Address,
    recipients: Seq<Address>,
    weights: Seq<u32>,
    rate_per_ledger: i128,
    deposit: i128,
    now: u32,
) -> StreamView {
    StreamView {
        payer,
        recipients: fresh_shares(recipients, weights),
        odd: None,
        rate_per_ledger,
        deposited: deposit,
        start_ledger: now,
        token,
        paused: false,
        paused_at_ledger: 0,
        paused_ledgers: 0,
        closed: false,
    }
}

/// The transfer of `amount` from the payer of a stream to the contract.
pub open spec fn paid_in(stream: StreamView, amount: i128) -> Action {
    Action::Transfer {
        token: stream.token,
        from: Party::Account(stream.payer),
        to: Party::Contract,
        amount,
    }
}

/// The transfer of `amount` from the contract to `to`.
pub open spec fn paid_out(stream: StreamView, to: Address, amount: i128) -> Action {
    Action::Transfer {
        token: stream.token,
        from: Party::Contract,
        to: Party::Account(to),
        amount,
    }
}

/// Opening a stream at ledger `now`. `recipients` and `weights` are host
/// lists.
pub open spec fn open_stream_step(
    s: Storage,
    token: Address,
    payer: Address,
    recipients: soroban_sdk::Vec<Address>,
    weights: soroban_sdk::Vec<u32>,
    rate_per_ledger: i128,
    deposit: i128,
    now: u32,
) -> Step<u32> {
    let signer = Some(payer);
    match (address_items(recipients), number_items(weights)) {
        (Some(tos), Some(parts)) => match refusal(tos, parts, rate_per_ledger, deposit) {
            Some(trap) => Step::trapped(s, signer, trap),
            None => match s.number_or_zero(DataKey::StreamCount) {
                Err(trap) => Step::trapped(s, signer, trap),
                Ok(id) => match next(id) {
                    Err(trap) => Step::trapped(s, signer, trap),
                    Ok(new_count) => {
                        let stream = fresh_stream(
                            token,
                            payer,
                            tos,
                            parts,
                            rate_per_ledger,
                            deposit,
                            now,
                        );
                        Step::done(
                            s.put(DataKey::Stream(id), stream.encoded()).put(
                                DataKey::StreamCount,
                                Datum::Number(new_count),
                            ),
                            signer,
                            id,
                            seq![
                                paid_in(stream, deposit),
                                published(
                                    Event::StreamOpen {
                                        id,
                                        payer,
                                        recipients,
                                        weights,
                                        rate_per_ledger,
                                        deposit,
                                    },
                                ),
                            ],
                        )
                    },
                },
            },
        },
        _ => Step::trapped(s, signer, Trap::MalformedArgument),
    }
}

/// The stream once the recipient at place `index` was paid `amount`.
pub open spec fn claimed_by(stream: StreamView, index: int, amount: i128) -> StreamView {
    let share = stream.recipients[index];
    let paid = StreamRecipient { claimed: (share.claimed + amount) as i128, ..share };
    let recipients = stream.recipients.update(index, paid);
    StreamView {
        recipients,
        odd: match stream.odd {
            Some(items) => odd_items(recipients, items.update(index, paid.encoded())),
            None => None,
        },
        ..stream
    }
}

/// Claiming from a stream at ledger `now`.
pub open spec fn claim_stream_step(s: Storage, id: u32, who: Address, now: u32) -> Step<i128> {
    let signer = Some(who);
    match s.stream(DataKey::Stream(id), Trap::StreamNotFound) {
        Err(trap) => Step::trapped(s, signer, trap),
        Ok(stream) => match place(stream.recipients, who) {
            None => if stream.is_whole() {
                Step::trapped(s, signer, Trap::NotStreamParty)
            } else {
                Step::trapped(s, signer, Trap::MalformedEntry)
            },
            Some(index) => if stream.closed {
                Step::trapped(s, signer, Trap::StreamClosed)
            } else {
                match claimable(stream, who, now) {
                    Err(trap) => Step::trapped(s, signer, trap),
                    Ok(amount) => if amount == 0 {
                        Step::done(s, signer, 0, Seq::empty())
                    } else {
                        Step::done(
                            s.put(
                                DataKey::Stream(id),
                                claimed_by(stream, index, amount).encoded(),
                            ),
                            signer,
                            amount,
                            seq![
                                paid_out(stream, who, amount),
                                published(Event::StreamClaim { id, recipient: who, amount }),
                            ],
                        )
                    },
                }
            },
        },
    }
}

/// Why `payer` cannot change a stream, if it cannot.
pub open spec fn payer_refusal(stream: StreamView, payer: Address) -> Option<Trap> {
    if stream.payer != payer {
        Some(Trap::NotStreamParty)
    } else if stream.closed {
        Some(Trap::StreamClosed)
    } else {
        None
    }
}

/// The stream with the deposit `deposited` from ledger `now` on. The ledgers that
/// it ran without being funded count as a pause: the new deposit pays for none of
/// them.
pub open spec fn topped_up(stream: StreamView, deposited: i128, now: u32) -> StreamView {
    StreamView {
        deposited,
        paused_ledgers: (stream.paused_ledgers + dry_for(stream, now)) as u32,
        ..stream
    }
}

/// Adding to the deposit of a stream at ledger `now`.
pub open spec fn top_up_stream_step(
    s: Storage,
    id: u32,
    payer: Address,
    amount: i128,
    now: u32,
) -> Step<()> {
    let signer = Some(payer);
    match s.stream(DataKey::Stream(id), Trap::StreamNotFound) {
        Err(trap) => Step::trapped(s, signer, trap),
        Ok(stream) => match payer_refusal(stream, payer) {
            Some(trap) => Step::trapped(s, signer, trap),
            None => if amount <= 0 {
                Step::trapped(s, signer, Trap::AmountNotPositive)
            } else {
                match plus(stream.deposited, amount) {
                    Err(trap) => Step::trapped(s, signer, trap),
                    Ok(deposited) => Step::done(
                        s.put(DataKey::Stream(id), topped_up(stream, deposited, now).encoded()),
                        signer,
                        (),
                        seq![
                            paid_in(stream, amount),
                            published(Event::StreamTopUp { id, payer, amount, deposited }),
                        ],
                    ),
                }
            },
        },
    }
}

/// The stream with a pause that begins at ledger `now`.
pub open spec fn suspended(stream: StreamView, now: u32) -> StreamView {
    StreamView { paused: true, paused_at_ledger: now, ..stream }
}

/// The length of the running pause, up to ledger `now`.
pub open spec fn pause_length(stream: StreamView, now: u32) -> u32 {
    less(now as int, stream.paused_at_ledger as int) as u32
}

/// The stream with its running pause ended at ledger `now`.
pub open spec fn resumed(stream: StreamView, now: u32) -> StreamView {
    StreamView {
        paused: false,
        paused_at_ledger: 0,
        paused_ledgers: least(
            stream.paused_ledgers + pause_length(stream, now),
            u32::MAX as int,
        ) as u32,
        ..stream
    }
}

/// Pausing a stream at ledger `now`.
pub open spec fn pause_stream_step(s: Storage, id: u32, payer: Address, now: u32) -> Step<()> {
    let signer = Some(payer);
    match s.stream(DataKey::Stream(id), Trap::StreamNotFound) {
        Err(trap) => Step::trapped(s, signer, trap),
        Ok(stream) => match payer_refusal(stream, payer) {
            Some(trap) => Step::trapped(s, signer, trap),
            None => if stream.paused {
                Step::trapped(s, signer, Trap::StreamAlreadyPaused)
            } else {
                Step::done(
                    s.put(DataKey::Stream(id), suspended(stream, now).encoded()),
                    signer,
                    (),
                    seq![published(Event::StreamPause { id, payer, paused_at_ledger: now })],
                )
            },
        },
    }
}

/// Resuming a stream at ledger `now`.
pub open spec fn resume_stream_step(s: Storage, id: u32, payer: Address, now: u32) -> Step<()> {
    let signer = Some(payer);
    match s.stream(DataKey::Stream(id), Trap::StreamNotFound) {
        Err(trap) => Step::trapped(s, signer, trap),
        Ok(stream) => match payer_refusal(stream, payer) {
            Some(trap) => Step::trapped(s, signer, trap),
            None => if !stream.paused {
                Step::trapped(s, signer, Trap::StreamNotPaused)
            } else {
                Step::done(
                    s.put(DataKey::Stream(id), resumed(stream, now).encoded()),
                    signer,
                    (),
                    seq![
                        published(
                            Event::StreamResume {
                                id,
                                payer,
                                pause_length: pause_length(stream, now),
                            },
                        ),
                    ],
                )
            },
        },
    }
}

/// The settlement of some of the shares of a stream.
pub struct Settlement {
    /// The shares, with what they were owed added to what they have claimed.
    pub shares: Seq<StreamRecipient>,
    /// The sum of what they were owed.
    pub owed: i128,
    /// The transfers that pay it.
    pub transfers: Seq<Action>,
}

/// A settlement with one more share, which is entitled to `entitled`.
pub open spec fn settled_one(
    before: Settlement,
    stream: StreamView,
    share: StreamRecipient,
    entitled: i128,
) -> Result<Settlement, Trap> {
    match minus(entitled, share.claimed) {
        Err(trap) => Err(trap),
        Ok(rest) => if rest > 0 {
            match plus(before.owed, rest) {
                Err(trap) => Err(trap),
                Ok(owed) => Ok(
                    Settlement {
                        shares: before.shares.push(StreamRecipient { claimed: entitled, ..share }),
                        owed,
                        transfers: before.transfers.push(paid_out(stream, share.recipient, rest)),
                    },
                ),
            }
        } else {
            Ok(Settlement { shares: before.shares.push(share), ..before })
        },
    }
}

/// The first `n` shares of a stream settled, when `total` has accrued.
pub open spec fn settled(stream: StreamView, total: i128, n: nat) -> Result<Settlement, Trap>
    decreases n,
{
    if n == 0 {
        Ok(Settlement { shares: Seq::empty(), owed: 0, transfers: Seq::empty() })
    } else {
        match settled(stream, total, (n - 1) as nat) {
            Err(trap) => Err(trap),
            Ok(before) => {
                let share = stream.recipients[n - 1];
                match part(total, share.weight, weight_sum(stream.recipients)) {
                    Err(trap) => Err(trap),
                    Ok(entitled) => settled_one(before, stream, share, entitled),
                }
            },
        }
    }
}

/// The items of a list of recipients once the shares `before` became `after`: an
/// item whose share was paid nothing stays as it is.
pub open spec fn settled_items(
    items: Seq<Datum>,
    before: Seq<StreamRecipient>,
    after: Seq<StreamRecipient>,
) -> Seq<Datum> {
    Seq::new(
        items.len(),
        |i: int|
            if after[i].claimed == before[i].claimed {
                items[i]
            } else {
                after[i].encoded()
            },
    )
}

/// All shares of a stream settled, when `total` has accrued.
pub open spec fn settled_whole(stream: StreamView, total: i128) -> Result<Settlement, Trap> {
    if stream.is_whole() {
        settled(stream, total, stream.recipients.len())
    } else {
        Err(Trap::MalformedEntry)
    }
}

/// The stream once it was closed with the shares `shares`.
pub open spec fn left_behind(stream: StreamView, shares: Seq<StreamRecipient>) -> StreamView {
    StreamView {
        recipients: shares,
        odd: match stream.odd {
            Some(items) => odd_items(shares, settled_items(items, stream.recipients, shares)),
            None => None,
        },
        closed: true,
        ..stream
    }
}

/// The end of a stream.
pub struct Closing {
    /// The stream that is left behind.
    pub stream: StreamView,
    /// What the recipients were still owed.
    pub owed: i128,
    /// What goes back to the payer.
    pub refund: i128,
    /// The transfers that pay both.
    pub transfers: Seq<Action>,
}

/// Ending a stream at ledger `now`: every recipient gets what it is owed, and
/// the payer gets the rest.
pub open spec fn closing(stream: StreamView, now: u32) -> Result<Closing, Trap> {
    let running = if stream.paused {
        resumed(stream, now)
    } else {
        stream
    };
    match streamed(running, now) {
        Err(trap) => Err(trap),
        Ok(total) => match settled_whole(running, total) {
            Err(trap) => Err(trap),
            Ok(settlement) => match claimed_total(settlement.shares) {
                Err(trap) => Err(trap),
                Ok(claimed) => match minus(running.deposited, claimed) {
                    Err(trap) => Err(trap),
                    Ok(refund) => Ok(
                        Closing {
                            stream: left_behind(running, settlement.shares),
                            owed: settlement.owed,
                            refund,
                            transfers: if refund > 0 {
                                settlement.transfers.push(paid_out(stream, stream.payer, refund))
                            } else {
                                settlement.transfers
                            },
                        },
                    ),
                },
            },
        },
    }
}

/// Closing a stream at ledger `now`.
pub open spec fn close_stream_step(s: Storage, id: u32, payer: Address, now: u32) -> Step<()> {
    let signer = Some(payer);
    match s.stream(DataKey::Stream(id), Trap::StreamNotFound) {
        Err(trap) => Step::trapped(s, signer, trap),
        Ok(stream) => match payer_refusal(stream, payer) {
            Some(trap) => Step::trapped(s, signer, trap),
            None => match closing(stream, now) {
                Err(trap) => Step::trapped(s, signer, trap),
                Ok(end) => Step::done(
                    s.put(DataKey::Stream(id), end.stream.encoded()),
                    signer,
                    (),
                    end.transfers.push(
                        published(Event::StreamClose { id, owed: end.owed, refund: end.refund }),
                    ),
                ),
            },
        },
    }
}

/// What `who` could claim from a stream at ledger `now`.
pub open spec fn claimable_at(s: Storage, id: u32, who: Address, now: u32) -> Result<i128, Trap> {
    match s.stream(DataKey::Stream(id), Trap::StreamNotFound) {
        Err(trap) => Err(trap),
        Ok(stream) => claimable(stream, who, now),
    }
}

/// Reads a stream.
fn load_stream(env: &Env, stream_id: u32) -> (r: Result<Stream, Trap>)
    ensures
        match storage(*env).stream(DataKey::Stream(stream_id), Trap::StreamNotFound) {
            Ok(stream) => r is Ok && r->Ok_0@ == stream,
            Err(trap) => r is Err && r->Err_0 == trap,
        },
        r is Ok ==> r->Ok_0.can_be_stored(*env),
{
    read_stream(env, &DataKey::Stream(stream_id), Trap::StreamNotFound)
}

/// Writes a stream.
fn save_stream(env: &mut Env, stream_id: u32, stream: &Stream)
    requires
        stream.can_be_stored(*old(env)),
    ensures
        storage(*final(env)) == storage(*old(env)).put(
            DataKey::Stream(stream_id),
            stream@.encoded(),
        ),
{
    let stream_value = stream.encode(env);
    put(env, &DataKey::Stream(stream_id), &stream_value);
}

/// Whether a weight is zero.
fn has_zero(weights: &Vec<u32>) -> (r: bool)
    ensures
        r == weights@.contains(0u32),
{
    for i in 0..weights.len()
        invariant
            forall|j: int| 0 <= j < i ==> weights@[j] != 0,
    {
        if weights[i] == 0 {
            assert(weights@[i as int] == 0);
            return true;
        }
    }
    false
}

/// Whether an address occurs twice.
fn has_duplicates(recipients: &Vec<Address>) -> (r: bool)
    ensures
        r == !recipients@.no_duplicates(),
{
    for i in 0..recipients.len()
        invariant
            forall|k: int, l: int|
                0 <= k < i && k < l < recipients@.len() ==> recipients@[k] != recipients@[l],
    {
        for j in (i + 1)..recipients.len()
            invariant
                i < recipients@.len(),
                forall|l: int| i < l < j ==> recipients@[i as int] != recipients@[l],
        {
            if same_address(&recipients[i], &recipients[j]) {
                return true;
            }
        }
    }
    false
}

/// Why a stream with these terms is not opened, if it is not.
fn check_terms(
    recipients: &Vec<Address>,
    weights: &Vec<u32>,
    rate_per_ledger: i128,
    deposit: i128,
) -> (r: Option<Trap>)
    ensures
        r == refusal(recipients@, weights@, rate_per_ledger, deposit),
{
    if recipients.len() != weights.len() {
        return Some(Trap::UnequalRecipientsAndWeights);
    }
    if recipients.len() == 0 {
        return Some(Trap::NoRecipients);
    }
    if has_zero(weights) {
        return Some(Trap::WeightNotPositive);
    }
    if has_duplicates(recipients) {
        return Some(Trap::DuplicateRecipient);
    }
    if rate_per_ledger <= 0 {
        return Some(Trap::RateNotPositive);
    }
    if deposit <= 0 {
        return Some(Trap::DepositNotPositive);
    }
    if deposit < MIN_STREAM_DEPOSIT {
        return Some(Trap::DepositBelowMinimum);
    }
    let funded_ledgers: i128 = deposit / rate_per_ledger;
    if funded_ledgers < MIN_STREAM_DURATION_LEDGERS as i128 {
        return Some(Trap::DurationBelowMinimum);
    }
    None
}

/// The stream with its running pause ended at ledger `now`.
fn end_pause(stream: Stream, now: u32) -> (r: Stream)
    ensures
        r@ == resumed(stream@, now),
        r.recipients == stream.recipients,
        r.stored == stream.stored,
{
    let length: u32 = now.saturating_sub(stream.paused_at_ledger);
    let paused_ledgers: u32 = stream.paused_ledgers.saturating_add(length);
    Stream { paused: false, paused_at_ledger: 0, paused_ledgers, ..stream }
}

/// A settlement that stopped stays stopped.
proof fn lemma_settled_trap(stream: StreamView, total: i128, n: nat, m: nat)
    requires
        n <= m,
        settled(stream, total, n) is Err,
    ensures
        settled(stream, total, m) == settled(stream, total, n),
    decreases m,
{
    if n < m {
        lemma_settled_trap(stream, total, n, (m - 1) as nat);
    }
}

/// Settles all shares of a stream when `total` has accrued: the shares that
/// are left behind, what they were owed, and the transfers that pay it.
fn settle(stream: &Stream, total: i128) -> (r: Result<
    (Vec<StreamRecipient>, i128, Vec<Action>),
    Trap,
>)
    ensures
        match settled(stream@, total, stream@.recipients.len()) {
            Ok(settlement) => {
                &&& r is Ok
                &&& r->Ok_0.0@ == settlement.shares
                &&& r->Ok_0.0@.len() == stream.recipients@.len()
                &&& r->Ok_0.1 == settlement.owed
                &&& r->Ok_0.2@ == settlement.transfers
            },
            Err(trap) => r is Err && r->Err_0 == trap,
        },
{
    let out_of: i128 = total_weight(&stream.recipients);
    let mut shares: Vec<StreamRecipient> = Vec::new();
    let mut owed: i128 = 0;
    let mut transfers: Vec<Action> = Vec::new();
    for i in 0..stream.recipients.len()
        invariant
            out_of == weight_sum(stream@.recipients),
            shares@.len() == i,
            settled(stream@, total, i as nat) == Ok::<Settlement, Trap>(
                Settlement { shares: shares@, owed, transfers: transfers@ },
            ),
    {
        proof {
            if settled(stream@, total, (i + 1) as nat) is Err {
                lemma_settled_trap(stream@, total, (i + 1) as nat, stream@.recipients.len());
            }
        }
        let entry = &stream.recipients[i];
        let entitled: i128 = entitlement(total, entry.weight, out_of)?;
        let share: i128 = checked_minus(entitled, entry.claimed)?;
        if share > 0 {
            owed = checked_plus(owed, share)?;
            shares.push(
                StreamRecipient {
                    recipient: entry.recipient.clone(),
                    weight: entry.weight,
                    claimed: entitled,
                },
            );
            transfers.push(
                Action::Transfer {
                    token: stream.token.clone(),
                    from: Party::Contract,
                    to: Party::Account(entry.recipient.clone()),
                    amount: share,
                },
            );
        } else {
            shares.push(
                StreamRecipient {
                    recipient: entry.recipient.clone(),
                    weight: entry.weight,
                    claimed: entry.claimed,
                },
            );
        }
    }
    Ok((shares, owed, transfers))
}

/// A share that was settled without being paid stays as it is.
proof fn lemma_settled_shares(stream: StreamView, total: i128, n: nat)
    requires
        n <= stream.recipients.len(),
        settled(stream, total, n) is Ok,
    ensures
        ({
            let shares = settled(stream, total, n)->Ok_0.shares;
            &&& shares.len() == n
            &&& forall|i: int|
                0 <= i < n && (#[trigger] shares[i]).claimed == stream.recipients[i].claimed
                    ==> shares[i] == stream.recipients[i]
        }),
    decreases n,
{
    if n > 0 {
        lemma_settled_shares(stream, total, (n - 1) as nat);
    }
}

/// The stream once the recipient at place `index` was paid `amount`.
fn pay_share(env: &Env, stream: Stream, index: usize, amount: i128) -> (r: Stream)
    requires
        stream.can_be_stored(*env),
        stream@.is_whole(),
        index < stream.recipients@.len(),
        i128::MIN <= stream.recipients@[index as int].claimed + amount <= i128::MAX,
    ensures
        r@ == claimed_by(stream@, index as int, amount),
        r.can_be_stored(*env),
        r.token == stream.token,
{
    let ghost before = stream;
    let mut stream = stream;
    let entry = &stream.recipients[index];
    let entry = StreamRecipient {
        recipient: entry.recipient.clone(),
        weight: entry.weight,
        claimed: entry.claimed + amount,
    };
    let ghost shares = before.recipients@.update(index as int, entry);
    stream.stored = match stream.stored {
        Some(items) => {
            let mut items = items;
            let ghost old_items = items@;
            proof {
                assert(contents(old_items).len() == old_items.len());
                assert(share_items(before.recipients@).len() == before.recipients@.len());
            }
            items.set(index, entry.encode(env));
            proof {
                assert(contents(items@) =~= contents(old_items).update(
                    index as int,
                    entry.encoded(),
                ));
                assert(share_items(shares) =~= share_items(before.recipients@).update(
                    index as int,
                    entry.encoded(),
                ));
            }
            Some(items)
        },
        None => None,
    };
    stream.recipients.set(index, entry);
    assert(stream@ =~= claimed_by(before@, index as int, amount));
    stream
}

/// The stream once it was closed with the shares `shares`.
fn leave_behind(env: &Env, stream: Stream, shares: Vec<StreamRecipient>) -> (r: Stream)
    requires
        stream.can_be_stored(*env),
        stream@.is_whole(),
        shares@.len() == stream.recipients@.len(),
        forall|i: int|
            0 <= i < shares@.len() && (#[trigger] shares@[i]).claimed
                == stream.recipients@[i].claimed ==> shares@[i] == stream.recipients@[i],
    ensures
        r@ == left_behind(stream@, shares@),
        r.can_be_stored(*env),
        r.token == stream.token,
{
    let ghost before = stream;
    let stored: Option<Vec<Val>> = match &stream.stored {
        Some(items) => {
            let ghost data = contents(items@);
            let ghost wanted = settled_items(data, stream.recipients@, shares@);
            proof {
                assert(data.len() == items@.len());
                assert(share_items(stream.recipients@).len() == stream.recipients@.len());
            }
            let mut kept: Vec<Val> = Vec::new();
            for i in 0..shares.len()
                invariant
                    shares@.len() == stream.recipients@.len() == items@.len(),
                    data == contents(items@),
                    wanted == settled_items(data, stream.recipients@, shares@),
                    kept@.len() == i,
                    forall|j: int| 0 <= j < i ==> datum(#[trigger] kept@[j]) == wanted[j],
                    forall|j: int|
                        0 <= j < items@.len() ==> nests(
                            datum(#[trigger] items@[j]),
                            1 + further_levels(*env),
                        ),
                    forall|j: int|
                        0 <= j < i ==> nests(
                            datum(#[trigger] kept@[j]),
                            1 + further_levels(*env),
                        ),
            {
                if shares[i].claimed == stream.recipients[i].claimed {
                    kept.push(items[i]);
                } else {
                    kept.push(shares[i].encode(env));
                }
            }
            proof {
                assert(contents(kept@) =~= wanted);
                if data == share_items(stream.recipients@) {
                    assert(wanted =~= share_items(shares@));
                }
            }
            Some(kept)
        },
        None => None,
    };
    let stream = Stream { recipients: shares, stored, closed: true, ..stream };
    assert(stream@ =~= left_behind(before@, shares@));
    stream
}

impl MicroPayContract {
    /// Opens a stream at the current ledger, and returns its id.
    pub fn open_stream(
        env: &mut Env,
        token_address: Address,
        payer: Address,
        recipients: soroban_sdk::Vec<Address>,
        weights: soroban_sdk::Vec<u32>,
        rate_per_ledger: i128,
        deposit: i128,
    ) -> (r: Answer<u32>)
        ensures
            exists|now: u32|
                is_current_ledger(*old(env), now) && #[trigger]
                open_stream_step(
                    storage(*old(env)),
                    token_address,
                    payer,
                    recipients,
                    weights,
                    rate_per_ledger,
                    deposit,
                    now,
                ).gives(storage(*final(env)), r),
    {
        let now: u32 = current_ledger(env);
        MicroPayContract::open_stream_at(
            env,
            token_address,
            payer,
            recipients,
            weights,
            rate_per_ledger,
            deposit,
            now,
        )
    }

    /// Opens a stream at ledger `now`, and returns its id. The deposit is
    /// locked in the contract and pays out to `recipients` by `weights`.
    pub fn open_stream_at(
        env: &mut Env,
        token_address: Address,
        payer: Address,
        recipients: soroban_sdk::Vec<Address>,
        weights: soroban_sdk::Vec<u32>,
        rate_per_ledger: i128,
        deposit: i128,
        now: u32,
    ) -> (r: Answer<u32>)
        ensures
            open_stream_step(
                storage(*old(env)),
                token_address,
                payer,
                recipients,
                weights,
                rate_per_ledger,
                deposit,
                now,
            ).gives(storage(*final(env)), r),
    {
        let (tos, parts) = match (list_of_addresses(&recipients), list_of_numbers(&weights)) {
            (Some(tos), Some(parts)) => (tos, parts),
            _ => {
                return Answer::trapped(Some(payer), Trap::MalformedArgument);
            },
        };
        if let Some(trap) = check_terms(&tos, &parts, rate_per_ledger, deposit) {
            return Answer::trapped(Some(payer), trap);
        }
        let id: u32 = match number_or_zero(env, &DataKey::StreamCount) {
            Ok(id) => id,
            Err(trap) => {
                return Answer::trapped(Some(payer), trap);
            },
        };
        let new_count: u32 = match checked_next(id) {
            Ok(new_count) => new_count,
            Err(trap) => {
                return Answer::trapped(Some(payer), trap);
            },
        };
        let mut shares: Vec<StreamRecipient> = Vec::new();
        for i in 0..tos.len()
            invariant
                tos@.len() == parts@.len(),
                shares@ == fresh_shares(tos@, parts@).take(i as int),
        {
            shares.push(
                StreamRecipient { recipient: tos[i].clone(), weight: parts[i], claimed: 0 },
            );
        }
        let stream = Stream {
            payer: payer.clone(),
            recipients: shares,
            stored: None,
            rate_per_ledger,
            deposited: deposit,
            start_ledger: now,
            token: token_address.clone(),
            paused: false,
            paused_at_ledger: 0,
            paused_ledgers: 0,
            closed: false,
        };
        assert(stream@ =~= fresh_stream(
            token_address,
            payer,
            tos@,
            parts@,
            rate_per_ledger,
            deposit,
            now,
        ));
        save_stream(env, id, &stream);
        let count_value = number_value(env, new_count);
        put(env, &DataKey::StreamCount, &count_value);
        let event = Event::StreamOpen {
            id,
            payer: payer.clone(),
            recipients,
            weights,
            rate_per_ledger,
            deposit,
        };
        let actions: Vec<Action> = vec![
            Action::Transfer {
                token: token_address,
                from: Party::Account(payer.clone()),
                to: Party::Contract,
                amount: deposit,
            },
            Action::Publish { version: EVENT_SCHEMA_VERSION, event },
        ];
        Answer { signer: Some(payer), actions, outcome: Ok(id) }
    }

    /// Pays `recipient` what it can claim at the current ledger, and returns
    /// the amount.
    pub fn claim_stream(env: &mut Env, stream_id: u32, recipient: Address) -> (r: Answer<i128>)
        ensures
            exists|now: u32|
                is_current_ledger(*old(env), now) && #[trigger]
                claim_stream_step(storage(*old(env)), stream_id, recipient, now).gives(
                    storage(*final(env)),
                    r,
                ),
    {
        let now: u32 = current_ledger(env);
        MicroPayContract::claim_stream_at(env, stream_id, recipient, now)
    }

    /// Pays `recipient` what it can claim at ledger `now`, and returns the
    /// amount.
    pub fn claim_stream_at(env: &mut Env, stream_id: u32, recipient: Address, now: u32) -> (r: Answer<
        i128,
    >)
        ensures
            claim_stream_step(storage(*old(env)), stream_id, recipient, now).gives(
                storage(*final(env)),
                r,
            ),
    {
        let stream = match load_stream(env, stream_id) {
            Ok(stream) => stream,
            Err(trap) => {
                return Answer::trapped(Some(recipient), trap);
            },
        };
        let index: usize = match find_recipient(&stream.recipients, &recipient) {
            Some(index) => index,
            None => {
                return if all_recipients_read(&stream) {
                    Answer::trapped(Some(recipient), Trap::NotStreamParty)
                } else {
                    Answer::trapped(Some(recipient), Trap::MalformedEntry)
                };
            },
        };
        if stream.closed {
            return Answer::trapped(Some(recipient), Trap::StreamClosed);
        }
        let amount: i128 = match claimable_amount(&stream, &recipient, now) {
            Ok(amount) => amount,
            Err(trap) => {
                return Answer::trapped(Some(recipient), trap);
            },
        };
        if amount == 0 {
            return Answer { signer: Some(recipient), actions: Vec::new(), outcome: Ok(0) };
        }
        let stream = pay_share(env, stream, index, amount);
        save_stream(env, stream_id, &stream);
        let event = Event::StreamClaim { id: stream_id, recipient: recipient.clone(), amount };
        let actions: Vec<Action> = vec![
            Action::Transfer {
                token: stream.token,
                from: Party::Contract,
                to: Party::Account(recipient.clone()),
                amount,
            },
            Action::Publish { version: EVENT_SCHEMA_VERSION, event },
        ];
        Answer { signer: Some(recipient), actions, outcome: Ok(amount) }
    }

    /// Adds to the deposit of an open stream, at the current ledger.
    pub fn top_up_stream(env: &mut Env, stream_id: u32, payer: Address, amount: i128) -> (r: Answer<
        (),
    >)
        ensures
            exists|now: u32|
                is_current_ledger(*old(env), now) && #[trigger]
                top_up_stream_step(storage(*old(env)), stream_id, payer, amount, now).gives(
                    storage(*final(env)),
                    r,
                ),
    {
        let now: u32 = current_ledger(env);
        MicroPayContract::top_up_stream_at(env, stream_id, payer, amount, now)
    }

    /// Adds to the deposit of an open stream, at ledger `now`. The stream can then
    /// run for longer; what can be claimed at this ledger stays as it is.
    pub fn top_up_stream_at(
        env: &mut Env,
        stream_id: u32,
        payer: Address,
        amount: i128,
        now: u32,
    ) -> (r: Answer<()>)
        ensures
            top_up_stream_step(storage(*old(env)), stream_id, payer, amount, now).gives(
                storage(*final(env)),
                r,
            ),
    {
        let stream = match load_stream(env, stream_id) {
            Ok(stream) => stream,
            Err(trap) => {
                return Answer::trapped(Some(payer), trap);
            },
        };
        if !same_address(&stream.payer, &payer) {
            return Answer::trapped(Some(payer), Trap::NotStreamParty);
        }
        if stream.closed {
            return Answer::trapped(Some(payer), Trap::StreamClosed);
        }
        if amount <= 0 {
            return Answer::trapped(Some(payer), Trap::AmountNotPositive);
        }
        let deposited: i128 = match checked_plus(stream.deposited, amount) {
            Ok(deposited) => deposited,
            Err(trap) => {
                return Answer::trapped(Some(payer), trap);
            },
        };
        let paused_ledgers: u32 = stream.paused_ledgers + dry_ledgers(&stream, now);
        let stream = Stream { deposited, paused_ledgers, ..stream };
        save_stream(env, stream_id, &stream);
        let event = Event::StreamTopUp { id: stream_id, payer: payer.clone(), amount, deposited };
        let actions: Vec<Action> = vec![
            Action::Transfer {
                token: stream.token,
                from: Party::Account(payer.clone()),
                to: Party::Contract,
                amount,
            },
            Action::Publish { version: EVENT_SCHEMA_VERSION, event },
        ];
        Answer { signer: Some(payer), actions, outcome: Ok(()) }
    }

    /// Suspends accrual, at the current ledger.
    pub fn pause_stream(env: &mut Env, stream_id: u32, payer: Address) -> (r: Answer<()>)
        ensures
            exists|now: u32|
                is_current_ledger(*old(env), now) && #[trigger]
                pause_stream_step(storage(*old(env)), stream_id, payer, now).gives(
                    storage(*final(env)),
                    r,
                ),
    {
        let now: u32 = current_ledger(env);
        MicroPayContract::pause_stream_at(env, stream_id, payer, now)
    }

    /// Suspends accrual, at ledger `now`. The ledgers until the stream is
    /// resumed do not count toward what can be claimed.
    pub fn pause_stream_at(env: &mut Env, stream_id: u32, payer: Address, now: u32) -> (r: Answer<
        (),
    >)
        ensures
            pause_stream_step(storage(*old(env)), stream_id, payer, now).gives(
                storage(*final(env)),
                r,
            ),
    {
        let stream = match load_stream(env, stream_id) {
            Ok(stream) => stream,
            Err(trap) => {
                return Answer::trapped(Some(payer), trap);
            },
        };
        if !same_address(&stream.payer, &payer) {
            return Answer::trapped(Some(payer), Trap::NotStreamParty);
        }
        if stream.closed {
            return Answer::trapped(Some(payer), Trap::StreamClosed);
        }
        if stream.paused {
            return Answer::trapped(Some(payer), Trap::StreamAlreadyPaused);
        }
        let stream = Stream { paused: true, paused_at_ledger: now, ..stream };
        save_stream(env, stream_id, &stream);
        let event = Event::StreamPause {
            id: stream_id,
            payer: payer.clone(),
            paused_at_ledger: now,
        };
        let actions: Vec<Action> = vec![Action::Publish { version: EVENT_SCHEMA_VERSION, event }];
        Answer { signer: Some(payer), actions, outcome: Ok(()) }
    }

    /// Takes accrual up again, at the current ledger.
    pub fn resume_stream(env: &mut Env, stream_id: u32, payer: Address) -> (r: Answer<()>)
        ensures
            exists|now: u32|
                is_current_ledger(*old(env), now) && #[trigger]
                resume_stream_step(storage(*old(env)), stream_id, payer, now).gives(
                    storage(*final(env)),
                    r,
                ),
    {
        let now: u32 = current_ledger(env);
        MicroPayContract::resume_stream_at(env, stream_id, payer, now)
    }

    /// Takes accrual up again where it was suspended, at ledger `now`.
    pub fn resume_stream_at(env: &mut Env, stream_id: u32, payer: Address, now: u32) -> (r: Answer<
        (),
    >)
        ensures
            resume_stream_step(storage(*old(env)), stream_id, payer, now).gives(
                storage(*final(env)),
                r,
            ),
    {
        let stream = match load_stream(env, stream_id) {
            Ok(stream) => stream,
            Err(trap) => {
                return Answer::trapped(Some(payer), trap);
            },
        };
        if !same_address(&stream.payer, &payer) {
            return Answer::trapped(Some(payer), Trap::NotStreamParty);
        }
        if stream.closed {
            return Answer::trapped(Some(payer), Trap::StreamClosed);
        }
        if !stream.paused {
            return Answer::trapped(Some(payer), Trap::StreamNotPaused);
        }
        let length: u32 = now.saturating_sub(stream.paused_at_ledger);
        let stream = end_pause(stream, now);
        save_stream(env, stream_id, &stream);
        let event = Event::StreamResume {
            id: stream_id,
            payer: payer.clone(),
            pause_length: length,
        };
        let actions: Vec<Action> = vec![Action::Publish { version: EVENT_SCHEMA_VERSION, event }];
        Answer { signer: Some(payer), actions, outcome: Ok(()) }
    }

    /// Ends a stream, at the current ledger.
    pub fn close_stream(env: &mut Env, stream_id: u32, payer: Address) -> (r: Answer<()>)
        ensures
            exists|now: u32|
                is_current_ledger(*old(env), now) && #[trigger]
                close_stream_step(storage(*old(env)), stream_id, payer, now).gives(
                    storage(*final(env)),
                    r,
                ),
    {
        let now: u32 = current_ledger(env);
        MicroPayContract::close_stream_at(env, stream_id, payer, now)
    }

    /// Ends a stream, at ledger `now`: pays every recipient what it is owed by
    /// its weight, and the rest of the deposit back to the payer.
    pub fn close_stream_at(env: &mut Env, stream_id: u32, payer: Address, now: u32) -> (r: Answer<
        (),
    >)
        ensures
            close_stream_step(storage(*old(env)), stream_id, payer, now).gives(
                storage(*final(env)),
                r,
            ),
    {
        let stream = match load_stream(env, stream_id) {
            Ok(stream) => stream,
            Err(trap) => {
                return Answer::trapped(Some(payer), trap);
            },
        };
        if !same_address(&stream.payer, &payer) {
            return Answer::trapped(Some(payer), Trap::NotStreamParty);
        }
        if stream.closed {
            return Answer::trapped(Some(payer), Trap::StreamClosed);
        }
        let stream = if stream.paused {
            end_pause(stream, now)
        } else {
            stream
        };
        let total: i128 = match total_streamed_amount(&stream, now) {
            Ok(total) => total,
            Err(trap) => {
                return Answer::trapped(Some(payer), trap);
            },
        };
        if !all_recipients_read(&stream) {
            return Answer::trapped(Some(payer), Trap::MalformedEntry);
        }
        let (shares, owed, transfers) = match settle(&stream, total) {
            Ok(settlement) => settlement,
            Err(trap) => {
                return Answer::trapped(Some(payer), trap);
            },
        };
        let claimed: i128 = match total_claimed(&shares) {
            Ok(claimed) => claimed,
            Err(trap) => {
                return Answer::trapped(Some(payer), trap);
            },
        };
        let refund: i128 = match checked_minus(stream.deposited, claimed) {
            Ok(refund) => refund,
            Err(trap) => {
                return Answer::trapped(Some(payer), trap);
            },
        };
        proof {
            lemma_settled_shares(stream@, total, stream@.recipients.len());
        }
        let stream = leave_behind(env, stream, shares);
        save_stream(env, stream_id, &stream);
        let mut actions = transfers;
        if refund > 0 {
            actions.push(
                Action::Transfer {
                    token: stream.token,
                    from: Party::Contract,
                    to: Party::Account(payer.clone()),
                    amount: refund,
                },
            );
        }
        let event = Event::StreamClose { id: stream_id, owed, refund };
        actions.push(Action::Publish { version: EVENT_SCHEMA_VERSION, event });
        Answer { signer: Some(payer), actions, outcome: Ok(()) }
    }

    /// A stream.
    pub fn get_stream(env: &mut Env, stream_id: u32) -> (r: Result<Stream, Trap>)
        ensures
            match storage(*old(env)).stream(DataKey::Stream(stream_id), Trap::StreamNotFound) {
                Ok(stream) => {
                    &&& r is Ok
                    &&& r->Ok_0@ == stream
                    &&& storage(*final(env)) == storage(*old(env)).renew(DataKey::Stream(stream_id))
                },
                Err(trap) => {
                    &&& r is Err
                    &&& r->Err_0 == trap
                    &&& storage(*final(env)) == storage(*old(env))
                },
            },
    {
        let stream = load_stream(env, stream_id)?;
        extend_persistent_ttl(env, &DataKey::Stream(stream_id));
        Ok(stream)
    }

    /// What `recipient` could claim at the current ledger.
    pub fn get_claimable(env: &Env, stream_id: u32, recipient: Address) -> (r: Result<i128, Trap>)
        ensures
            exists|now: u32|
                is_current_ledger(*env, now) && r == #[trigger] claimable_at(
                    storage(*env),
                    stream_id,
                    recipient,
                    now,
                ),
    {
        let now: u32 = current_ledger(env);
        MicroPayContract::get_claimable_at(env, stream_id, recipient, now)
    }

    /// What `recipient` could claim at ledger `now`. Zero if the stream is
    /// closed or `recipient` is not one of its recipients.
    pub fn get_claimable_at(env: &Env, stream_id: u32, recipient: Address, now: u32) -> (r: Result<
        i128,
        Trap,
    >)
        ensures
            r == claimable_at(storage(*env), stream_id, recipient, now),
    {
        let stream = load_stream(env, stream_id)?;
        claimable_amount(&stream, &recipient, now)
    }

    /// The number of streams ever opened.
    pub fn get_stream_count(env: &Env) -> (r: Result<u32, Trap>)
        ensures
            r == storage(*env).number_or_zero(DataKey::StreamCount),
    {
        number_or_zero(env, &DataKey::StreamCount)
    }
}

} // verus!
