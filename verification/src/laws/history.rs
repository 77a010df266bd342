//! What holds after any sequence of calls on a new contract.
use soroban_sdk::Address;
use vstd::prelude::*;

use crate::accrual::{claimable, claimed_sum, is_first_place, place};
use crate::escrows::Role;
use crate::laws::accrual::{lemma_place_after_claim, sound_stream};
use crate::laws::admin::{current, law_admin_changes_by_own_hand, law_layout_stays_current};
use crate::laws::calls::{law_calls_keep_to_their_records, unchanged, AdminCall, Call, Family,
    StreamCall};
use crate::laws::claims::{claimed_at, earned, law_close_settles_each_to_its_part,
    law_pause_and_resume_at_once_change_nothing, law_time_keeps_stream_earned,
    law_two_claims_pay_like_one, part_at, resting};
use crate::laws::escrows::{escrows_sound, ids_below, law_escrows_stay_sound, law_lists_stay_sound,
    list_ids, list_len, list_sound, lists_sound};
use crate::laws::money::{lemma_net_few, net};
use crate::laws::receipts::{law_receipts_stay_sound, payer_receipts_sound, receipts_sound};
use crate::laws::solvency::{held, law_held_is_not_negative, law_transfers_match_what_is_held};
use crate::laws::streams::{changed_stream, has_sound_stream, law_calls_leave_no_pause_behind,
    law_calls_pay_nobody_ahead, law_streams_stay_sound, law_time_keeps_streams_earned,
    law_time_keeps_streams_timely, lemma_changed_stream, lemma_stream_written, stream_at,
    stream_count, streams_earned, streams_resting, streams_sound, streams_timely};
use crate::laws::tips::{account_tips_sound, law_tips_stay_sound, tip_count, tips_sound};
use crate::outcome::Trap;
use crate::storage::Storage;
use crate::streams::{claim_stream_step, close_stream_step, pause_stream_step, resume_stream_step};
use crate::types::DataKey;

verus! {

/// A storage without entries.
pub open spec fn is_new(s: Storage) -> bool {
    forall|key: DataKey| !(#[trigger] s.has(key))
}

/// The contract has no administrator yet, or one and the current layout.
pub open spec fn admin_sound(s: Storage) -> bool {
    s.has(DataKey::Admin) ==> s.account(DataKey::Admin, Trap::NotInitialized) is Ok && current(
        s,
        s.account(DataKey::Admin, Trap::NotInitialized)->Ok_0,
    )
}

/// All records of the contract are in order.
pub open spec fn sound(s: Storage) -> bool {
    &&& admin_sound(s)
    &&& tips_sound(s)
    &&& receipts_sound(s)
    &&& escrows_sound(s)
    &&& lists_sound(s)
    &&& streams_sound(s)
}

/// A call, and the ledger at which it was made.
pub struct Entry {
    pub call: Call,
    pub now: u32,
}

/// The storage after a sequence of calls.
pub open spec fn after(s: Storage, history: Seq<Entry>) -> Storage
    decreases history.len(),
{
    if history.len() == 0 {
        s
    } else {
        let entry = history.last();
        entry.call.effect(after(s, history.drop_last()), entry.now).storage
    }
}

/// What the transfers of a sequence of calls have moved into the contract.
pub open spec fn moved(s: Storage, history: Seq<Entry>, token: Address) -> int
    decreases history.len(),
{
    if history.len() == 0 {
        0
    } else {
        let entry = history.last();
        moved(s, history.drop_last(), token) + net(
            entry.call.effect(after(s, history.drop_last()), entry.now).actions,
            token,
        )
    }
}

/// The ledgers of the calls never go back, and are no later than `now`.
pub open spec fn in_time(history: Seq<Entry>, now: u32) -> bool {
    &&& forall|i: int, j: int|
        0 <= i < j < history.len() ==> (#[trigger] history[i]).now <= (#[trigger] history[j]).now
    &&& forall|i: int| 0 <= i < history.len() ==> (#[trigger] history[i]).now <= now
}

/// A new contract holds nothing.
pub proof fn law_new_contract_holds_nothing(s: Storage, token: Address)
    requires
        is_new(s),
    ensures
        held(s, token) == 0,
{
    assert(!s.has(DataKey::EscrowCount));
    assert(!s.has(DataKey::StreamCount));
}

/// All records of a new contract are in order.
pub proof fn law_new_contract_is_sound(s: Storage)
    requires
        is_new(s),
    ensures
        sound(s),
{
    assert(!s.has(DataKey::Admin));
    assert(!s.has(DataKey::EscrowCount));
    assert(!s.has(DataKey::StreamCount));
    assert forall|account: Address| #[trigger] account_tips_sound(s, account) by {
        assert(!s.has(DataKey::TipCount(account)));
        assert(!s.has(DataKey::TipTotal(account)));
        assert(tip_count(s, account) == 0);
    }
    assert forall|payer: Address| #[trigger] payer_receipts_sound(s, payer) by {
        assert(!s.has(DataKey::ReceiptCount(payer)));
    }
    assert forall|role: Role, account: Address| #[trigger] list_sound(s, role, account) by {
        assert(!s.has(role.count_key(account)));
        assert(list_len(s, role, account) == 0);
        assert(list_ids(s, role, account) =~= ids_below(s, role, account, 0));
    }
}

/// Whatever call is made, all records of the contract stay in order.
pub proof fn law_contract_stays_sound(s: Storage, call: Call, now: u32)
    requires
        sound(s),
    ensures
        sound(call.effect(s, now).storage),
{
    let t = call.effect(s, now).storage;
    law_tips_stay_sound(s, call, now);
    law_receipts_stay_sound(s, call, now);
    law_escrows_stay_sound(s, call, now);
    law_streams_stay_sound(s, call, now);
    if s.has(DataKey::Admin) {
        let admin = s.account(DataKey::Admin, Trap::NotInitialized)->Ok_0;
        law_admin_changes_by_own_hand(s, call, now, admin);
        law_layout_stays_current(s, call, now, admin);
        law_lists_stay_sound(s, call, now);
    } else if let Call::Admin(inner) = call {
        reveal(AdminCall::effect);
        if inner is Migrate {
            assert(t == s);
        } else {
            law_lists_stay_sound(s, call, now);
        }
    } else {
        law_calls_keep_to_their_records(s, call, now, Family::Admin);
        assert(unchanged(s, t, DataKey::Admin));
        law_lists_stay_sound(s, call, now);
    }
}

/// After any sequence of calls on a new contract all its records are in order.
/// In particular no stream has paid out more than was deposited.
pub proof fn law_contract_is_always_sound(s: Storage, history: Seq<Entry>)
    requires
        is_new(s),
    ensures
        sound(after(s, history)),
        forall|id: u32|
            id < stream_count(after(s, history)) ==> 0 <= claimed_sum(
                (#[trigger] stream_at(after(s, history), id)).recipients,
            ) <= stream_at(after(s, history), id).deposited,
    decreases history.len(),
{
    if history.len() == 0 {
        law_new_contract_is_sound(s);
    } else {
        let entry = history.last();
        let rest = history.drop_last();
        law_contract_is_always_sound(s, rest);
        law_contract_stays_sound(after(s, rest), entry.call, entry.now);
        law_streams_stay_sound(after(s, rest), entry.call, entry.now);
    }
}

/// What the calls on a new contract have moved into it and not out again is
/// exactly what it still holds for its escrows and streams: the contract can
/// always pay what it owes.
pub proof fn law_contract_is_always_solvent(s: Storage, history: Seq<Entry>, token: Address)
    requires
        is_new(s),
    ensures
        moved(s, history, token) == held(after(s, history), token),
        0 <= moved(s, history, token),
    decreases history.len(),
{
    law_contract_is_always_sound(s, history);
    if history.len() == 0 {
        law_new_contract_holds_nothing(s, token);
    } else {
        let entry = history.last();
        let rest = history.drop_last();
        law_contract_is_always_sound(s, rest);
        law_contract_is_always_solvent(s, rest, token);
        law_transfers_match_what_is_held(after(s, rest), entry.call, entry.now, token);
    }
    law_held_is_not_negative(after(s, history), token);
}

/// The first of some calls in order are in order.
proof fn lemma_in_time(history: Seq<Entry>, now: u32)
    requires
        in_time(history, now),
        0 < history.len(),
    ensures
        in_time(history.drop_last(), history.last().now),
        history.last().now <= now,
{
    let entry = history.last();
    let rest = history.drop_last();
    assert(entry == history[history.len() - 1]);
    assert forall|i: int| 0 <= i < rest.len() implies (#[trigger] rest[i]).now <= entry.now by {
        assert(rest[i] == history[i]);
    }
}

/// After any sequence of calls in the order of their ledgers, the pauses of
/// every stream fit between its start and now.
pub proof fn law_streams_are_always_timely(s: Storage, history: Seq<Entry>, now: u32)
    requires
        is_new(s),
        in_time(history, now),
    ensures
        streams_timely(after(s, history), now),
    decreases history.len(),
{
    if history.len() == 0 {
        assert(!s.has(DataKey::StreamCount));
    } else {
        let entry = history.last();
        let rest = history.drop_last();
        lemma_in_time(history, now);
        law_streams_are_always_timely(s, rest, entry.now);
        law_contract_is_always_sound(s, rest);
        law_streams_stay_sound(after(s, rest), entry.call, entry.now);
        law_time_keeps_streams_timely(after(s, history), entry.now, now);
    }
}

/// After any sequence of calls in the order of their ledgers, no recipient of a
/// stream was paid more than its part of what has accrued by now.
pub proof fn law_nobody_is_ever_paid_ahead(s: Storage, history: Seq<Entry>, now: u32)
    requires
        is_new(s),
        in_time(history, now),
    ensures
        streams_earned(after(s, history), now),
    decreases history.len(),
{
    law_contract_is_always_sound(s, history);
    if history.len() == 0 {
        assert(!s.has(DataKey::StreamCount));
    } else {
        let entry = history.last();
        let rest = history.drop_last();
        lemma_in_time(history, now);
        law_nobody_is_ever_paid_ahead(s, rest, entry.now);
        law_contract_is_always_sound(s, rest);
        law_calls_pay_nobody_ahead(after(s, rest), entry.call, entry.now);
        law_time_keeps_streams_earned(after(s, history), entry.now, now);
    }
}

/// After any sequence of calls, a stream that is not paused stores no ledger at
/// which a pause began.
pub proof fn law_running_streams_store_no_pause(s: Storage, history: Seq<Entry>)
    requires
        is_new(s),
    ensures
        streams_resting(after(s, history)),
    decreases history.len(),
{
    if history.len() == 0 {
        assert(!s.has(DataKey::StreamCount));
    } else {
        let entry = history.last();
        let rest = history.drop_last();
        law_running_streams_store_no_pause(s, rest);
        law_contract_is_always_sound(s, rest);
        law_calls_leave_no_pause_behind(after(s, rest), entry.call, entry.now);
    }
}

/// Whatever calls were made before, closing a stream leaves every recipient paid
/// exactly its part of what has accrued.
pub proof fn law_closing_settles_each_to_its_part(
    s: Storage,
    history: Seq<Entry>,
    id: u32,
    payer: Address,
    now: u32,
)
    requires
        is_new(s),
        in_time(history, now),
        close_stream_step(after(s, history), id, payer, now).outcome is Ok,
    ensures
        ({
            let t = after(s, history);
            let stream = stream_at(t, id);
            let end = stream_at(close_stream_step(t, id, payer, now).storage, id);
            &&& end.closed
            &&& end.recipients.len() == stream.recipients.len()
            &&& forall|i: int|
                0 <= i < stream.recipients.len() ==> (#[trigger] end.recipients[i]).claimed
                    == part_at(stream, i, now)
        }),
{
    let t = after(s, history);
    law_nobody_is_ever_paid_ahead(s, history, now);
    law_contract_is_always_sound(s, history);
    let call = StreamCall::Close { id, payer };
    reveal(StreamCall::effect);
    lemma_changed_stream(t, call, id, now);
    lemma_stream_written(t, id, changed_stream(t, call, id, now));
    assert(has_sound_stream(t, id));
    assert(earned(stream_at(t, id), now));
    law_close_settles_each_to_its_part(stream_at(t, id), now);
}

/// A recipient that claims at one ledger and then at another: the second claim
/// works, the two pay what the second alone would have paid, and they leave the
/// same stream behind.
pub proof fn law_claiming_twice_pays_like_once(
    s: Storage,
    history: Seq<Entry>,
    id: u32,
    who: Address,
    earlier: u32,
    now: u32,
)
    requires
        is_new(s),
        in_time(history, earlier),
        earlier <= now,
        claim_stream_step(after(s, history), id, who, now).outcome is Ok,
    ensures
        ({
            let t = after(s, history);
            let once = claim_stream_step(t, id, who, now);
            let first = claim_stream_step(t, id, who, earlier);
            let second = claim_stream_step(first.storage, id, who, now);
            &&& first.outcome is Ok
            &&& second.outcome is Ok
            &&& first.outcome->Ok_0 + second.outcome->Ok_0 == once.outcome->Ok_0
            &&& stream_at(second.storage, id) == stream_at(once.storage, id)
        }),
{
    let t = after(s, history);
    law_nobody_is_ever_paid_ahead(s, history, earlier);
    law_contract_is_always_sound(s, history);
    let stream = stream_at(t, id);
    lemma_claim_at(t, id, who, now);
    assert(earned(stream, earlier));
    law_two_claims_pay_like_one(stream, who, earlier, now);
    lemma_claim_at(t, id, who, earlier);
    lemma_claim_at(claim_stream_step(t, id, who, earlier).storage, id, who, now);
}

/// A claim works exactly if the stream is open, `who` is among its recipients and
/// what they can claim is there; it leaves the stream with the claim made.
proof fn lemma_claim_at(s: Storage, id: u32, who: Address, now: u32)
    requires
        streams_sound(s),
    ensures
        claim_stream_step(s, id, who, now).outcome is Ok <==> {
            let stream = stream_at(s, id);
            &&& id < stream_count(s)
            &&& !stream.closed
            &&& place(stream.recipients, who) is Some
            &&& claimable(stream, who, now) is Ok
        },
        claim_stream_step(s, id, who, now).outcome is Ok ==> {
            let step = claim_stream_step(s, id, who, now);
            let stream = stream_at(s, id);
            &&& sound_stream(stream)
            &&& step.outcome->Ok_0 == claimable(stream, who, now)->Ok_0
            &&& stream_count(step.storage) == stream_count(s)
            &&& stream_at(step.storage, id) == claimed_at(stream, who, now)
            &&& place(claimed_at(stream, who, now).recipients, who) is Some
            &&& streams_sound(step.storage)
        },
{
    assert(s.has(DataKey::Stream(id)) <==> id < stream_count(s));
    if id < stream_count(s) {
        assert(has_sound_stream(s, id));
    }
    let call = StreamCall::Claim { id, recipient: who };
    reveal(StreamCall::effect);
    if claim_stream_step(s, id, who, now).outcome is Ok {
        let stream = stream_at(s, id);
        let index = place(stream.recipients, who)->0;
        assert(is_first_place(stream.recipients, who, index));
        lemma_changed_stream(s, call, id, now);
        lemma_stream_written(s, id, changed_stream(s, call, id, now));
        lemma_place_after_claim(stream, index, claimable(stream, who, now)->Ok_0, who);
    }
}

/// A claim moves what it pays out of the contract.
proof fn lemma_claim_moves(s: Storage, id: u32, who: Address, now: u32, token: Address)
    requires
        claim_stream_step(s, id, who, now).outcome is Ok,
    ensures
        net(claim_stream_step(s, id, who, now).actions, token) == if stream_at(s, id).token
            == token {
            -claim_stream_step(s, id, who, now).outcome->Ok_0
        } else {
            0
        },
{
    let actions = claim_stream_step(s, id, who, now).actions;
    if actions.len() > 0 {
        lemma_net_few(actions[0], actions[1], token);
        assert(actions =~= seq![actions[0], actions[1]]);
    }
}

/// A claim of `who` from a stream at each of these ledgers.
pub open spec fn claims(id: u32, who: Address, ledgers: Seq<u32>) -> Seq<Entry> {
    Seq::new(
        ledgers.len(),
        |i: int| Entry {
            call: Call::Stream(StreamCall::Claim { id, recipient: who }),
            now: ledgers[i],
        },
    )
}

/// However often a recipient claims from a stream, it leaves the same stream
/// behind and was paid the same as with one claim at the last of those ledgers.
pub proof fn law_claiming_often_pays_like_once(
    s: Storage,
    history: Seq<Entry>,
    id: u32,
    who: Address,
    ledgers: Seq<u32>,
    token: Address,
)
    requires
        is_new(s),
        0 < ledgers.len(),
        in_time(history, ledgers[0]),
        forall|i: int, j: int| 0 <= i < j < ledgers.len() ==> ledgers[i] <= ledgers[j],
        claim_stream_step(after(s, history), id, who, ledgers.last()).outcome is Ok,
    ensures
        ({
            let t = after(s, history);
            let once = claim_stream_step(t, id, who, ledgers.last());
            &&& stream_at(after(t, claims(id, who, ledgers)), id) == stream_at(once.storage, id)
            &&& moved(t, claims(id, who, ledgers), token) == net(once.actions, token)
        }),
{
    let t = after(s, history);
    let stream = stream_at(t, id);
    law_nobody_is_ever_paid_ahead(s, history, ledgers[0]);
    law_contract_is_always_sound(s, history);
    lemma_claim_at(t, id, who, ledgers.last());
    assert(earned(stream, ledgers[0]));
    lemma_claims(t, id, who, ledgers, token);
    lemma_claim_moves(t, id, who, ledgers.last(), token);
}

/// The stream after several claims.
proof fn lemma_claims(s: Storage, id: u32, who: Address, ledgers: Seq<u32>, token: Address)
    requires
        streams_sound(s),
        id < stream_count(s),
        !stream_at(s, id).closed,
        place(stream_at(s, id).recipients, who) is Some,
        0 < ledgers.len(),
        earned(stream_at(s, id), ledgers[0]),
        forall|i: int, j: int| 0 <= i < j < ledgers.len() ==> ledgers[i] <= ledgers[j],
        claimable(stream_at(s, id), who, ledgers.last()) is Ok,
    ensures
        streams_sound(after(s, claims(id, who, ledgers))),
        stream_count(after(s, claims(id, who, ledgers))) == stream_count(s),
        stream_at(after(s, claims(id, who, ledgers)), id) == claimed_at(
            stream_at(s, id),
            who,
            ledgers.last(),
        ),
        moved(s, claims(id, who, ledgers), token) == if stream_at(s, id).token == token {
            -claimable(stream_at(s, id), who, ledgers.last())->Ok_0
        } else {
            0
        },
    decreases ledgers.len(),
{
    let stream = stream_at(s, id);
    let rest = ledgers.drop_last();
    let entries = claims(id, who, ledgers);
    assert(entries.drop_last() =~= claims(id, who, rest));
    let before = after(s, entries.drop_last());
    assert(has_sound_stream(s, id));
    reveal(StreamCall::effect);
    if rest.len() == 0 {
        assert(entries.drop_last() =~= Seq::empty());
        assert(before == s);
        lemma_claim_at(s, id, who, ledgers.last());
        lemma_claim_moves(s, id, who, ledgers.last(), token);
        assert(moved(s, entries.drop_last(), token) == 0);
    } else {
        let last = rest.last();
        assert(last == ledgers[ledgers.len() - 2]);
        assert(rest[0] == ledgers[0]);
        assert forall|i: int, j: int| 0 <= i < j < rest.len() implies rest[i] <= rest[j] by {
            assert(rest[i] == ledgers[i] && rest[j] == ledgers[j]);
        }
        assert(ledgers[0] <= last <= ledgers.last());
        law_time_keeps_stream_earned(stream, ledgers[0], last);
        law_two_claims_pay_like_one(stream, who, last, ledgers.last());
        lemma_claims(s, id, who, rest, token);
        lemma_claim_at(s, id, who, last);
        lemma_claim_at(before, id, who, ledgers.last());
        lemma_claim_moves(before, id, who, ledgers.last(), token);
    }
}

/// Whatever calls were made before, pausing a stream and resuming it at the same
/// ledger leaves the record as it was.
pub proof fn law_pausing_and_resuming_at_once_changes_nothing(
    s: Storage,
    history: Seq<Entry>,
    id: u32,
    payer: Address,
    now: u32,
)
    requires
        is_new(s),
        pause_stream_step(after(s, history), id, payer, now).outcome is Ok,
    ensures
        ({
            let t = after(s, history);
            let pause = pause_stream_step(t, id, payer, now);
            let resume = resume_stream_step(pause.storage, id, payer, now);
            &&& resume.outcome is Ok
            &&& stream_at(resume.storage, id) == stream_at(t, id)
        }),
{
    let t = after(s, history);
    law_running_streams_store_no_pause(s, history);
    law_contract_is_always_sound(s, history);
    reveal(StreamCall::effect);
    let pause = StreamCall::Pause { id, payer };
    lemma_changed_stream(t, pause, id, now);
    let paused = changed_stream(t, pause, id, now);
    lemma_stream_written(t, id, paused);
    let u = pause_stream_step(t, id, payer, now).storage;
    let resume = StreamCall::Resume { id, payer };
    lemma_changed_stream(u, resume, id, now);
    lemma_stream_written(u, id, changed_stream(u, resume, id, now));
    assert(resting(stream_at(t, id)));
    law_pause_and_resume_at_once_change_nothing(stream_at(t, id), now);
}

} // verus!
