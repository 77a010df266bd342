//! What the calls on escrows do, in terms of what they are given.
use soroban_sdk::Address;
use vstd::prelude::*;

use crate::escrows::{appended, cancel_escrow_step, claim_escrow_step, create_escrow_step, listed,
    page, page_end, page_start, Role};
use crate::laws::calls::{law_reads_change_no_record, unchanged, Read};
use crate::laws::entries::{holds, holds_number, same_entry};
use crate::laws::escrows::{has_list_entry, lemma_listed, lemma_same_list, list_entry, list_ids,
    list_len};
use crate::outcome::{Action, Event, Failure, Party, Trap};
use crate::sdk::Datum;
use crate::storage::Storage;
use crate::types::{ContractError, DataKey, Escrow, EscrowStatus, EVENT_SCHEMA_VERSION,
    MAX_ESCROW_PAGE_SIZE, PERSISTENT_LIFETIME_THRESHOLD};

verus! {

/// An escrow of a positive amount that is released at a ledger to come is created,
/// as long as there is a number left for it, and the sender has to sign for it. It
/// moves exactly that amount of that token from the sender to the contract, waits
/// with what was passed under the next id, and is the last one in the lists of its
/// sender and of its recipient. Nothing else changes.
pub proof fn law_create_locks_the_amount(
    s: Storage,
    token: Address,
    from: Address,
    to: Address,
    amount: i128,
    release_ledger: u32,
    now: u32,
    id: u32,
    sent: u32,
    received: u32,
)
    requires
        holds_number(s, DataKey::EscrowCount, id),
        holds_number(s, DataKey::EscrowSenderCount(from), sent),
        holds_number(s, DataKey::EscrowRecipientCount(to), received),
    ensures
        ({
            let step = create_escrow_step(s, token, from, to, amount, release_ledger, now);
            let t = step.storage;
            &&& step.signer == Some(from)
            &&& step.outcome is Ok <==> {
                &&& amount > 0
                &&& release_ledger > now
                &&& id < u32::MAX
                &&& sent < u32::MAX
                &&& received < u32::MAX
            }
            &&& amount <= 0 ==> step.outcome == Err::<u32, Failure>(
                Failure::Trap(Trap::AmountNotPositive),
            )
            &&& amount > 0 && release_ledger <= now ==> step.outcome == Err::<u32, Failure>(
                Failure::Trap(Trap::ReleaseNotInFuture),
            )
            &&& amount > 0 && release_ledger > now && step.outcome is Err ==> step.outcome == Err::<
                u32,
                Failure,
            >(Failure::Trap(Trap::AddOverflow))
            &&& step.outcome is Err ==> step.actions.len() == 0
            &&& step.outcome is Ok ==> {
                &&& step.outcome == Ok::<u32, Failure>(id)
                &&& step.actions.len() == 2
                &&& step.actions[0] == Action::Transfer {
                    token,
                    from: Party::Account(from),
                    to: Party::Contract,
                    amount,
                }
                &&& step.actions[1] == Action::Publish {
                    version: EVENT_SCHEMA_VERSION,
                    event: Event::EscrowCreate { id, from, to, amount, release_ledger },
                }
                &&& t.escrow(DataKey::Escrow(id), Trap::EscrowNotFound) == Ok::<Escrow, Trap>(
                    Escrow {
                        id,
                        from,
                        to,
                        token,
                        amount,
                        release_ledger,
                        status: EscrowStatus::Pending,
                    },
                )
                &&& holds(t, DataKey::EscrowCount, Datum::Number((id + 1) as u32))
                &&& holds(t, DataKey::EscrowSenderIndex(from, sent), Datum::Number(id))
                &&& holds(t, DataKey::EscrowSenderCount(from), Datum::Number((sent + 1) as u32))
                &&& holds(t, DataKey::EscrowRecipientIndex(to, received), Datum::Number(id))
                &&& holds(
                    t,
                    DataKey::EscrowRecipientCount(to),
                    Datum::Number((received + 1) as u32),
                )
                &&& forall|key: DataKey|
                    key != DataKey::Escrow(id) && key != DataKey::EscrowCount && key
                        != DataKey::EscrowSenderIndex(from, sent) && key
                        != DataKey::EscrowSenderCount(from) && key
                        != DataKey::EscrowRecipientIndex(to, received) && key
                        != DataKey::EscrowRecipientCount(to) ==> #[trigger] same_entry(s, t, key)
            }
        }),
{
    let escrow = Escrow {
        id,
        from,
        to,
        token,
        amount,
        release_ledger,
        status: EscrowStatus::Pending,
    };
    escrow.lemma_round_trip();
    let written = s.put(DataKey::Escrow(id), escrow.encoded()).put(
        DataKey::EscrowCount,
        Datum::Number((id + 1) as u32),
    );
    assert(written.number_or_zero(DataKey::EscrowSenderCount(from)) == Ok::<u32, Trap>(sent));
    if let Ok(indexed) = appended(written, Role::Sender, from, id) {
        assert(indexed.number_or_zero(DataKey::EscrowRecipientCount(to)) == Ok::<u32, Trap>(
            received,
        ));
    }
}

/// A waiting escrow is paid, in full and in its token, to its recipient, who has to
/// sign for it, from its release ledger on. It is then released, and nothing else
/// changes. Before that ledger it is too early, and an escrow that does not wait
/// cannot be claimed.
pub proof fn law_claim_pays_the_recipient(s: Storage, id: u32, now: u32, escrow: Escrow)
    requires
        s.escrow(DataKey::Escrow(id), Trap::EscrowNotFound) == Ok::<Escrow, Trap>(escrow),
    ensures
        ({
            let step = claim_escrow_step(s, id, now);
            let t = step.storage;
            &&& step.outcome is Ok <==> escrow.status == EscrowStatus::Pending && now
                >= escrow.release_ledger
            &&& escrow.status != EscrowStatus::Pending ==> step.outcome == Err::<(), Failure>(
                Failure::Trap(Trap::EscrowNotPending),
            )
            &&& escrow.status == EscrowStatus::Pending && now < escrow.release_ledger
                ==> step.outcome == Err::<(), Failure>(
                Failure::Error(ContractError::EscrowClaimTooEarly),
            )
            &&& step.outcome is Err ==> t == s && step.actions.len() == 0 && step.signer is None
            &&& step.outcome is Ok ==> {
                &&& step.signer == Some(escrow.to)
                &&& step.actions.len() == 2
                &&& step.actions[0] == Action::Publish {
                    version: EVENT_SCHEMA_VERSION,
                    event: Event::EscrowClaim { id, to: escrow.to, amount: escrow.amount },
                }
                &&& step.actions[1] == Action::Transfer {
                    token: escrow.token,
                    from: Party::Contract,
                    to: Party::Account(escrow.to),
                    amount: escrow.amount,
                }
                &&& t.escrow(DataKey::Escrow(id), Trap::EscrowNotFound) == Ok::<Escrow, Trap>(
                    Escrow {
                        id: escrow.id,
                        from: escrow.from,
                        to: escrow.to,
                        token: escrow.token,
                        amount: escrow.amount,
                        release_ledger: escrow.release_ledger,
                        status: EscrowStatus::Released,
                    },
                )
                &&& forall|key: DataKey|
                    key != DataKey::Escrow(id) ==> #[trigger] same_entry(s, t, key)
            }
        }),
{
    Escrow { status: EscrowStatus::Released, ..escrow }.lemma_round_trip();
}

/// A waiting escrow is paid back, in full and in its token, to its sender, who has
/// to sign for it, before its release ledger. It is then cancelled, and nothing
/// else changes. From that ledger on it is too late, and an escrow that does not
/// wait cannot be cancelled.
pub proof fn law_cancel_pays_the_sender_back(s: Storage, id: u32, now: u32, escrow: Escrow)
    requires
        s.escrow(DataKey::Escrow(id), Trap::EscrowNotFound) == Ok::<Escrow, Trap>(escrow),
    ensures
        ({
            let step = cancel_escrow_step(s, id, now);
            let t = step.storage;
            &&& step.outcome is Ok <==> escrow.status == EscrowStatus::Pending && now
                < escrow.release_ledger
            &&& escrow.status != EscrowStatus::Pending ==> step.outcome == Err::<(), Failure>(
                Failure::Trap(Trap::EscrowNotPending),
            )
            &&& escrow.status == EscrowStatus::Pending && now >= escrow.release_ledger
                ==> step.outcome == Err::<(), Failure>(
                Failure::Error(ContractError::EscrowCancelTooLate),
            )
            &&& step.outcome is Err ==> t == s && step.actions.len() == 0 && step.signer is None
            &&& step.outcome is Ok ==> {
                &&& step.signer == Some(escrow.from)
                &&& step.actions.len() == 2
                &&& step.actions[0] == Action::Publish {
                    version: EVENT_SCHEMA_VERSION,
                    event: Event::EscrowCancel { id, from: escrow.from, amount: escrow.amount },
                }
                &&& step.actions[1] == Action::Transfer {
                    token: escrow.token,
                    from: Party::Contract,
                    to: Party::Account(escrow.from),
                    amount: escrow.amount,
                }
                &&& t.escrow(DataKey::Escrow(id), Trap::EscrowNotFound) == Ok::<Escrow, Trap>(
                    Escrow {
                        id: escrow.id,
                        from: escrow.from,
                        to: escrow.to,
                        token: escrow.token,
                        amount: escrow.amount,
                        release_ledger: escrow.release_ledger,
                        status: EscrowStatus::Cancelled,
                    },
                )
                &&& forall|key: DataKey|
                    key != DataKey::Escrow(id) ==> #[trigger] same_entry(s, t, key)
            }
        }),
{
    Escrow { status: EscrowStatus::Cancelled, ..escrow }.lemma_round_trip();
}

/// What is no escrow cannot be settled.
pub proof fn law_missing_escrow_is_not_settled(s: Storage, id: u32, now: u32)
    ensures
        s.escrow(DataKey::Escrow(id), Trap::EscrowNotFound) matches Err(trap) ==> {
            let claim = claim_escrow_step(s, id, now);
            let cancel = cancel_escrow_step(s, id, now);
            &&& claim.outcome == Err::<(), Failure>(Failure::Trap(trap))
            &&& cancel.outcome == Err::<(), Failure>(Failure::Trap(trap))
            &&& claim.actions.len() == 0
            &&& cancel.actions.len() == 0
            &&& !s.slots.contains_key(DataKey::Escrow(id)) ==> trap == Trap::EscrowNotFound
        },
{
}

/// A page of a list of escrows: from the offset on, as many of its entries as are
/// asked for and there, in their order. No limit asks for as many as a page can
/// hold, and so does one beyond that.
pub open spec fn is_page(
    s: Storage,
    entry: spec_fn(u32) -> DataKey,
    total: u32,
    offset: u32,
    limit: u32,
    ids: Seq<u32>,
) -> bool {
    let most: u32 = if 0 < limit < MAX_ESCROW_PAGE_SIZE {
        limit
    } else {
        MAX_ESCROW_PAGE_SIZE
    };
    &&& offset >= total ==> ids.len() == 0
    &&& offset < total && total - offset <= most ==> ids.len() == total - offset
    &&& offset < total && total - offset > most ==> ids.len() == most
    &&& forall|i: int|
        0 <= i < ids.len() ==> holds(
            s,
            entry((offset + i) as u32),
            Datum::Number(#[trigger] ids[i]),
        )
}

proof fn lemma_page(
    s: Storage,
    role: Role,
    account: Address,
    offset: u32,
    limit: u32,
    total: u32,
)
    requires
        holds_number(s, role.count_key(account), total),
        forall|i: u32|
            i < total ==> #[trigger] s.slots.contains_key(role.index_key(account, i))
                && s.slots[role.index_key(account, i)].value is Number,
    ensures
        page(s, role, account, offset, limit).trap is None,
        is_page(
            s,
            |i: u32| role.index_key(account, i),
            total,
            offset,
            limit,
            page(s, role, account, offset, limit).ids,
        ),
        forall|key: DataKey| #[trigger]
            same_entry(s, page(s, role, account, offset, limit).storage, key),
{
    let entry = |i: u32| role.index_key(account, i);
    let start = page_start(total, offset);
    let end = page_end(total, offset, limit);
    let n = (end - start) as nat;
    let key = role.count_key(account);
    assert forall|i: u32| i < list_len(s, role, account) implies #[trigger] has_list_entry(
        s,
        role,
        account,
        i,
    ) by {
        assert(s.slots.contains_key(role.index_key(account, i)));
    }
    let renewed = s.renew_present(key);
    assert(unchanged(s, renewed, key));
    assert forall|i: u32| #[trigger] unchanged(s, renewed, role.index_key(account, i)) by {}
    lemma_same_list(s, renewed, role, account);
    lemma_listed(renewed, role, account, start, n);
    let listing = page(s, role, account, offset, limit);
    let ids = list_ids(s, role, account);
    assert(listing.ids == ids.subrange(start as int, end as int));
    assert forall|i: int| 0 <= i < listing.ids.len() implies holds(
        s,
        entry((offset + i) as u32),
        Datum::Number(#[trigger] listing.ids[i]),
    ) by {
        let at = (offset + i) as u32;
        assert(listing.ids[i] == ids[start + i]);
        assert(s.slots.contains_key(role.index_key(account, at)));
        assert(has_list_entry(s, role, account, at));
        assert(ids[at as int] == list_entry(s, role, account, at));
    }
    assert forall|other: DataKey| #[trigger] same_entry(s, listing.storage, other) by {
        law_reads_change_no_record(s, Read::EscrowPage(role, account, offset, limit), other);
    }
}

/// A page of the escrows that an account has sent is that part of their list, and
/// listing it changes no entry.
pub proof fn law_page_of_sent_escrows(
    s: Storage,
    sender: Address,
    offset: u32,
    limit: u32,
    total: u32,
)
    requires
        holds_number(s, DataKey::EscrowSenderCount(sender), total),
        forall|i: u32|
            i < total ==> #[trigger] s.slots.contains_key(DataKey::EscrowSenderIndex(sender, i))
                && s.slots[DataKey::EscrowSenderIndex(sender, i)].value is Number,
    ensures
        ({
            let listing = page(s, Role::Sender, sender, offset, limit);
            &&& listing.trap is None
            &&& is_page(
                s,
                |i: u32| DataKey::EscrowSenderIndex(sender, i),
                total,
                offset,
                limit,
                listing.ids,
            )
            &&& forall|key: DataKey| #[trigger] same_entry(s, listing.storage, key)
        }),
{
    lemma_page(s, Role::Sender, sender, offset, limit, total);
}

/// A page of the escrows that are payable to an account is that part of their list,
/// and listing it changes no entry.
pub proof fn law_page_of_received_escrows(
    s: Storage,
    recipient: Address,
    offset: u32,
    limit: u32,
    total: u32,
)
    requires
        holds_number(s, DataKey::EscrowRecipientCount(recipient), total),
        forall|i: u32|
            i < total ==> #[trigger] s.slots.contains_key(
                DataKey::EscrowRecipientIndex(recipient, i),
            ) && s.slots[DataKey::EscrowRecipientIndex(recipient, i)].value is Number,
    ensures
        ({
            let listing = page(s, Role::Recipient, recipient, offset, limit);
            &&& listing.trap is None
            &&& is_page(
                s,
                |i: u32| DataKey::EscrowRecipientIndex(recipient, i),
                total,
                offset,
                limit,
                listing.ids,
            )
            &&& forall|key: DataKey| #[trigger] same_entry(s, listing.storage, key)
        }),
{
    lemma_page(s, Role::Recipient, recipient, offset, limit, total);
}

/// An entry that lives for more ledgers than the threshold, or for as many as the host
/// allows.
pub open spec fn lives_long(s: Storage, key: DataKey) -> bool {
    &&& s.slots.contains_key(key)
    &&& s.slots[key].lifetime > PERSISTENT_LIFETIME_THRESHOLD || s.slots[key].lifetime >= s.longest
}

proof fn lemma_listed_renews(s: Storage, role: Role, account: Address, start: u32, n: nat)
    requires
        listed(s, role, account, start, n).trap is None,
        start + n <= u32::MAX,
    ensures
        ({
            let t = listed(s, role, account, start, n).storage;
            &&& t.longest == s.longest
            &&& forall|i: u32|
                start <= i < start + n ==> #[trigger] lives_long(t, role.index_key(account, i))
            &&& lives_long(s, role.count_key(account)) ==> lives_long(t, role.count_key(account))
        }),
    decreases n,
{
    if n > 0 {
        let m = (n - 1) as nat;
        lemma_listed_renews(s, role, account, start, m);
        let before = listed(s, role, account, start, m).storage;
        let t = listed(s, role, account, start, n).storage;
        assert forall|i: u32| start <= i < start + n implies #[trigger] lives_long(
            t,
            role.index_key(account, i),
        ) by {
            if i < start + m {
                assert(lives_long(before, role.index_key(account, i)));
            }
        }
    }
}

/// Listing a page renews the length of the list and every entry that is on the page.
pub proof fn law_page_renews_what_it_lists(
    s: Storage,
    role: Role,
    account: Address,
    offset: u32,
    limit: u32,
    total: u32,
)
    requires
        holds_number(s, role.count_key(account), total),
        page(s, role, account, offset, limit).trap is None,
    ensures
        ({
            let listing = page(s, role, account, offset, limit);
            &&& s.slots.contains_key(role.count_key(account)) ==> lives_long(
                listing.storage,
                role.count_key(account),
            )
            &&& forall|i: u32|
                offset <= i < offset + listing.ids.len() ==> #[trigger] lives_long(
                    listing.storage,
                    role.index_key(account, i),
                )
        }),
{
    let start = page_start(total, offset);
    let n = (page_end(total, offset, limit) - start) as nat;
    let counted = s.renew_present(role.count_key(account));
    lemma_listed_renews(counted, role, account, start, n);
    lemma_listed_len(counted, role, account, start, n);
}

proof fn lemma_listed_len(s: Storage, role: Role, account: Address, start: u32, n: nat)
    requires
        listed(s, role, account, start, n).trap is None,
    ensures
        listed(s, role, account, start, n).ids.len() == n,
    decreases n,
{
    if n > 0 {
        lemma_listed_len(s, role, account, start, (n - 1) as nat);
    }
}

proof fn lemma_listed_stops(
    s: Storage,
    role: Role,
    account: Address,
    start: u32,
    k: nat,
    n: nat,
    trap: Trap,
)
    requires
        k < n,
        start + n <= u32::MAX,
        forall|i: u32|
            start <= i < start + k ==> #[trigger] s.slots.contains_key(role.index_key(account, i))
                && s.slots[role.index_key(account, i)].value is Number,
        s.number(role.index_key(account, (start + k) as u32), Trap::EscrowIndexMissing) == Err::<
            u32,
            Trap,
        >(trap),
    ensures
        listed(s, role, account, start, n).trap == Some(trap),
    decreases n,
{
    if k < n - 1 {
        lemma_listed_stops(s, role, account, start, k, (n - 1) as nat, trap);
    } else {
        lemma_listed_so_far(s, role, account, start, k);
        let before = listed(s, role, account, start, k).storage;
        assert(same_entry(s, before, role.index_key(account, (start + k) as u32)));
    }
}

#[verifier::spinoff_prover]
proof fn lemma_listed_so_far(s: Storage, role: Role, account: Address, start: u32, k: nat)
    requires
        start + k <= u32::MAX,
        forall|i: u32|
            start <= i < start + k ==> #[trigger] s.slots.contains_key(role.index_key(account, i))
                && s.slots[role.index_key(account, i)].value is Number,
    ensures
        listed(s, role, account, start, k).trap is None,
        forall|key: DataKey| #[trigger]
            same_entry(s, listed(s, role, account, start, k).storage, key),
    decreases k,
{
    if k > 0 {
        assert forall|i: u32| start <= i < start + (k - 1) implies (
        #[trigger] s.slots.contains_key(role.index_key(account, i)) && s.slots[role.index_key(
            account,
            i,
        )].value is Number) by {
            assert(start <= i < start + k);
        }
        lemma_listed_so_far(s, role, account, start, (k - 1) as nat);
        let before = listed(s, role, account, start, (k - 1) as nat).storage;
        let key = role.index_key(account, (start + k - 1) as u32);
        assert(s.slots.contains_key(key));
        assert(same_entry(s, before, key));
        let t = listed(s, role, account, start, k).storage;
        assert forall|other: DataKey| #[trigger] same_entry(s, t, other) by {
            assert(same_entry(s, before, other));
        }
    }
}

/// A page with an entry that is missing is not listed, nor one with an entry that is
/// no number; the first such entry is what is told.
pub proof fn law_page_needs_its_entries(
    s: Storage,
    role: Role,
    account: Address,
    offset: u32,
    limit: u32,
    total: u32,
    at: u32,
)
    requires
        holds_number(s, role.count_key(account), total),
        offset <= at < total,
        at - offset < MAX_ESCROW_PAGE_SIZE,
        limit == 0 || at - offset < limit,
        forall|i: u32|
            offset <= i < at ==> #[trigger] s.slots.contains_key(role.index_key(account, i))
                && s.slots[role.index_key(account, i)].value is Number,
    ensures
        ({
            let key = role.index_key(account, at);
            let listing = page(s, role, account, offset, limit);
            &&& !s.slots.contains_key(key) ==> listing.trap == Some(Trap::EscrowIndexMissing)
            &&& s.slots.contains_key(key) && !(s.slots[key].value is Number) ==> listing.trap
                == Some(Trap::MalformedEntry)
        }),
{
    let start = page_start(total, offset);
    let n = (page_end(total, offset, limit) - start) as nat;
    let counted = s.renew_present(role.count_key(account));
    let key = role.index_key(account, at);
    if let Err(trap) = s.number(key, Trap::EscrowIndexMissing) {
        assert forall|i: u32| start <= i < start + (at - offset) implies (
        #[trigger] counted.slots.contains_key(role.index_key(account, i))
            && counted.slots[role.index_key(account, i)].value is Number) by {
            assert(s.slots.contains_key(role.index_key(account, i)));
        }
        lemma_listed_stops(counted, role, account, start, (at - offset) as nat, n, trap);
    }
}

} // verus!
