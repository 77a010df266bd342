//! What holds of all escrows of the contract, and of the lists of them.
use soroban_sdk::Address;
use vstd::prelude::*;

use crate::escrows::{appended, cancel_escrow_step, claim_escrow_step, create_escrow_step, indexed,
    listed, page, page_end, page_size, page_start, Role};
use crate::laws::calls::{law_calls_keep_to_their_records, lemma_indexed_frame, lemma_listed_frame,
    same_family, unchanged, AdminCall, Call, EscrowCall, Family};
use crate::outcome::{published, Action, Event, Failure, Party, Trap};
use crate::schema::ESCROW_LISTS_VERSION;
use crate::sdk::Datum;
use crate::storage::Storage;
use crate::types::{ContractError, DataKey, Escrow, EscrowStatus, MAX_ESCROW_PAGE_SIZE};

verus! {

/// The number of escrows.
pub open spec fn escrow_count(s: Storage) -> u32 {
    s.number_or_zero(DataKey::EscrowCount)->Ok_0
}

/// An escrow.
pub open spec fn escrow_at(s: Storage, id: u32) -> Escrow {
    s.escrow(DataKey::Escrow(id), Trap::EscrowNotFound)->Ok_0
}

/// There is an escrow with this id, and it holds an amount.
pub open spec fn has_sound_escrow(s: Storage, id: u32) -> bool {
    &&& s.escrow(DataKey::Escrow(id), Trap::EscrowNotFound) is Ok
    &&& escrow_at(s, id).id == id
    &&& escrow_at(s, id).amount > 0
}

/// The escrows are those below the count, and every one of them is sound.
pub open spec fn escrows_sound(s: Storage) -> bool {
    &&& s.number_or_zero(DataKey::EscrowCount) is Ok
    &&& forall|id: u32| #[trigger]
        s.has(DataKey::Escrow(id)) <==> id < escrow_count(s)
    &&& forall|id: u32| id < escrow_count(s) ==> #[trigger] has_sound_escrow(s, id)
}

/// The account on one side of an escrow.
pub open spec fn side(escrow: Escrow, role: Role) -> Address {
    match role {
        Role::Sender => escrow.from,
        Role::Recipient => escrow.to,
    }
}

/// The ids below `n` of the escrows that have `account` on this side, in the
/// order in which they were created.
pub open spec fn ids_below(s: Storage, role: Role, account: Address, n: nat) -> Seq<u32>
    decreases n,
{
    if n == 0 {
        Seq::empty()
    } else {
        let before = ids_below(s, role, account, (n - 1) as nat);
        let id = (n - 1) as u32;
        if side(escrow_at(s, id), role) == account {
            before.push(id)
        } else {
            before
        }
    }
}

/// The length of a list.
pub open spec fn list_len(s: Storage, role: Role, account: Address) -> u32 {
    s.number_or_zero(role.count_key(account))->Ok_0
}

/// The entry at a place of a list.
pub open spec fn list_entry(s: Storage, role: Role, account: Address, index: u32) -> u32 {
    s.number(role.index_key(account, index), Trap::EscrowIndexMissing)->Ok_0
}

/// The ids in a list.
pub open spec fn list_ids(s: Storage, role: Role, account: Address) -> Seq<u32> {
    Seq::new(
        list_len(s, role, account) as nat,
        |i: int| list_entry(s, role, account, i as u32),
    )
}

/// There is an entry at this place of a list.
pub open spec fn has_list_entry(s: Storage, role: Role, account: Address, index: u32) -> bool {
    s.number(role.index_key(account, index), Trap::EscrowIndexMissing) is Ok
}

/// All entries of a list are there.
pub open spec fn list_readable(s: Storage, role: Role, account: Address) -> bool {
    &&& s.number_or_zero(role.count_key(account)) is Ok
    &&& forall|i: u32|
        i < list_len(s, role, account) ==> #[trigger] has_list_entry(s, role, account, i)
}

/// A list holds the ids of exactly the escrows of the account, oldest first.
pub open spec fn list_sound(s: Storage, role: Role, account: Address) -> bool {
    &&& list_readable(s, role, account)
    &&& list_ids(s, role, account) == ids_below(s, role, account, escrow_count(s) as nat)
}

/// All lists are sound.
pub open spec fn lists_sound(s: Storage) -> bool {
    forall|role: Role, account: Address| #[trigger] list_sound(s, role, account)
}

/// There are no more ids of an account than escrows.
pub proof fn lemma_ids_below_len(s: Storage, role: Role, account: Address, n: nat)
    ensures
        ids_below(s, role, account, n).len() <= n,
    decreases n,
{
    if n > 0 {
        lemma_ids_below_len(s, role, account, (n - 1) as nat);
    }
}

/// The ids of an account are in order, below `n`, and those of its escrows.
pub proof fn law_ids_are_in_order(s: Storage, role: Role, account: Address, n: nat)
    requires
        n <= u32::MAX,
    ensures
        ({
            let ids = ids_below(s, role, account, n);
            &&& forall|i: int, j: int| 0 <= i < j < ids.len() ==> ids[i] < ids[j]
            &&& forall|i: int|
                0 <= i < ids.len() ==> (#[trigger] ids[i]) < n && side(escrow_at(s, ids[i]), role)
                    == account
            &&& forall|id: u32|
                id < n && side(#[trigger] escrow_at(s, id), role) == account ==> ids.contains(id)
        }),
    decreases n,
{
    if n > 0 {
        let before = ids_below(s, role, account, (n - 1) as nat);
        let ids = ids_below(s, role, account, n);
        let last = (n - 1) as u32;
        law_ids_are_in_order(s, role, account, (n - 1) as nat);
        assert forall|id: u32|
            id < n && side(#[trigger] escrow_at(s, id), role) == account implies ids.contains(
            id,
        ) by {
            if id == last {
                assert(ids[ids.len() - 1] == id);
            } else {
                let at = choose|at: int| 0 <= at < before.len() && before[at] == id;
                assert(before.contains(id));
                assert(ids[at] == id);
            }
        }
    }
}

/// The ids of an account depend on the sides of the escrows alone.
pub proof fn lemma_same_ids(s: Storage, t: Storage, role: Role, account: Address, n: nat)
    requires
        n <= u32::MAX,
        forall|id: u32|
            id < n ==> side(#[trigger] escrow_at(t, id), role) == side(escrow_at(s, id), role),
    ensures
        ids_below(t, role, account, n) == ids_below(s, role, account, n),
    decreases n,
{
    if n > 0 {
        lemma_same_ids(s, t, role, account, (n - 1) as nat);
        let id = (n - 1) as u32;
        assert(side(escrow_at(t, id), role) == side(escrow_at(s, id), role));
    }
}

/// A list depends on its own entries alone.
pub proof fn lemma_same_list(s: Storage, t: Storage, role: Role, account: Address)
    requires
        unchanged(s, t, role.count_key(account)),
        forall|i: u32| #[trigger] unchanged(s, t, role.index_key(account, i)),
    ensures
        list_readable(s, role, account) ==> list_readable(t, role, account),
        list_readable(s, role, account) ==> list_len(t, role, account) == list_len(
            s,
            role,
            account,
        ),
        list_readable(s, role, account) ==> list_ids(t, role, account) == list_ids(
            s,
            role,
            account,
        ),
{
    if list_readable(s, role, account) {
        assert forall|i: u32| i < list_len(t, role, account) implies #[trigger] has_list_entry(
            t,
            role,
            account,
            i,
        ) by {
            assert(has_list_entry(s, role, account, i));
            assert(unchanged(s, t, role.index_key(account, i)));
        }
        assert forall|i: int| 0 <= i < list_len(s, role, account) implies #[trigger] list_ids(
            t,
            role,
            account,
        )[i] == list_ids(s, role, account)[i] by {
            assert(has_list_entry(s, role, account, i as u32));
            assert(unchanged(s, t, role.index_key(account, i as u32)));
        }
        assert(list_ids(t, role, account) =~= list_ids(s, role, account));
    }
}

/// Appending an id to a list that has room adds it at the end, and changes no
/// other list.
pub proof fn lemma_appended(
    s: Storage,
    role: Role,
    account: Address,
    id: u32,
    any_role: Role,
    any_account: Address,
)
    requires
        list_readable(s, role, account),
        list_readable(s, any_role, any_account),
        list_len(s, role, account) < u32::MAX,
    ensures
        appended(s, role, account, id) is Ok,
        ({
            let t = appended(s, role, account, id)->Ok_0;
            &&& list_readable(t, any_role, any_account)
            &&& list_ids(t, any_role, any_account) == if any_role == role && any_account == account {
                list_ids(s, any_role, any_account).push(id)
            } else {
                list_ids(s, any_role, any_account)
            }
        }),
{
    let count = list_len(s, role, account);
    let t = appended(s, role, account, id)->Ok_0;
    if any_role == role && any_account == account {
        assert(list_len(t, role, account) == count + 1);
        assert forall|i: u32| i < count + 1 implies #[trigger] has_list_entry(
            t,
            role,
            account,
            i,
        ) && list_entry(t, role, account, i) == if i < count {
            list_entry(s, role, account, i)
        } else {
            id
        } by {
            if i < count {
                assert(has_list_entry(s, role, account, i));
            }
        }
        assert forall|i: int| 0 <= i < count + 1 implies #[trigger] list_ids(t, role, account)[i]
            == list_ids(s, role, account).push(id)[i] by {
            assert(has_list_entry(t, role, account, i as u32));
        }
        assert(list_ids(t, role, account) =~= list_ids(s, role, account).push(id));
    } else {
        assert(unchanged(s, t, any_role.count_key(any_account)));
        assert forall|i: u32| #[trigger]
            unchanged(s, t, any_role.index_key(any_account, i)) by {}
        lemma_same_list(s, t, any_role, any_account);
    }
}

/// Putting an escrow into the lists of both its sides, where these have room.
pub proof fn lemma_indexed(
    s: Storage,
    from: Address,
    to: Address,
    id: u32,
    any_role: Role,
    any_account: Address,
)
    requires
        forall|role: Role, account: Address| #[trigger] list_readable(s, role, account),
        list_len(s, Role::Sender, from) < u32::MAX,
        list_len(s, Role::Recipient, to) < u32::MAX,
    ensures
        indexed(s, from, to, id).trap is None,
        ({
            let t = indexed(s, from, to, id).storage;
            let account = match any_role {
                Role::Sender => from,
                Role::Recipient => to,
            };
            &&& list_readable(t, any_role, any_account)
            &&& list_ids(t, any_role, any_account) == if any_account == account {
                list_ids(s, any_role, any_account).push(id)
            } else {
                list_ids(s, any_role, any_account)
            }
        }),
{
    assert(list_readable(s, Role::Sender, from));
    assert(list_readable(s, Role::Recipient, to));
    assert(list_readable(s, any_role, any_account));
    lemma_appended(s, Role::Sender, from, id, any_role, any_account);
    lemma_appended(s, Role::Sender, from, id, Role::Recipient, to);
    let sent = appended(s, Role::Sender, from, id)->Ok_0;
    assert(list_ids(sent, Role::Recipient, to).len() == list_ids(s, Role::Recipient, to).len());
    lemma_appended(sent, Role::Recipient, to, id, any_role, any_account);
}

/// Reading the escrows back after one was written.
pub proof fn lemma_escrow_written(s: Storage, id: u32, escrow: Escrow)
    requires
        escrows_sound(s),
        id < escrow_count(s),
        escrow.id == id,
        escrow.amount > 0,
    ensures
        ({
            let after = s.put(DataKey::Escrow(id), escrow.encoded());
            &&& escrows_sound(after)
            &&& escrow_count(after) == escrow_count(s)
            &&& after.escrow(DataKey::Escrow(id), Trap::EscrowNotFound) == Ok::<Escrow, Trap>(
                escrow,
            )
            &&& forall|other: u32|
                other != id ==> #[trigger] escrow_at(after, other) == escrow_at(s, other)
        }),
{
    let after = s.put(DataKey::Escrow(id), escrow.encoded());
    escrow.lemma_round_trip();
    assert(s.has(DataKey::Escrow(id)));
    assert forall|other: u32| #[trigger]
        after.has(DataKey::Escrow(other)) <==> other < escrow_count(after) by {
        assert(s.has(DataKey::Escrow(other)) <==> other < escrow_count(s));
    }
    assert forall|other: u32| other != id implies #[trigger] escrow_at(after, other) == escrow_at(
        s,
        other,
    ) by {
        assert(after.has(DataKey::Escrow(other)) == s.has(DataKey::Escrow(other)));
        assert(after.value(DataKey::Escrow(other)) == s.value(DataKey::Escrow(other)));
    }
    assert forall|other: u32| other < escrow_count(after) implies #[trigger] has_sound_escrow(
        after,
        other,
    ) by {
        if other != id {
            assert(has_sound_escrow(s, other));
            assert(escrow_at(after, other) == escrow_at(s, other));
        }
    }
}

/// The storage with one escrow more, before it is in the lists.
pub open spec fn with_escrow(s: Storage, escrow: Escrow) -> Storage {
    s.put(DataKey::Escrow(escrow.id), escrow.encoded()).put(
        DataKey::EscrowCount,
        Datum::Number((escrow.id + 1) as u32),
    )
}

/// Reading the escrows back after one was added.
pub proof fn lemma_escrow_added(s: Storage, escrow: Escrow)
    requires
        escrows_sound(s),
        escrow_count(s) < u32::MAX,
        escrow.id == escrow_count(s),
        escrow.amount > 0,
    ensures
        ({
            let id = escrow_count(s);
            let after = with_escrow(s, escrow);
            &&& escrows_sound(after)
            &&& escrow_count(after) == id + 1
            &&& after.escrow(DataKey::Escrow(id), Trap::EscrowNotFound) == Ok::<Escrow, Trap>(
                escrow,
            )
            &&& forall|other: u32|
                other != id ==> #[trigger] escrow_at(after, other) == escrow_at(s, other)
        }),
{
    let id = escrow_count(s);
    let after = with_escrow(s, escrow);
    escrow.lemma_round_trip();
    assert forall|other: u32| #[trigger]
        after.has(DataKey::Escrow(other)) <==> other < escrow_count(after) by {
        assert(s.has(DataKey::Escrow(other)) <==> other < escrow_count(s));
    }
    assert forall|other: u32| other != id implies #[trigger] escrow_at(after, other) == escrow_at(
        s,
        other,
    ) by {
        assert(after.has(DataKey::Escrow(other)) == s.has(DataKey::Escrow(other)));
        assert(after.value(DataKey::Escrow(other)) == s.value(DataKey::Escrow(other)));
    }
    assert forall|other: u32| other < escrow_count(after) implies #[trigger] has_sound_escrow(
        after,
        other,
    ) by {
        if other != id {
            assert(has_sound_escrow(s, other));
            assert(escrow_at(after, other) == escrow_at(s, other));
        }
    }
}

/// Storages with the same escrow records have the same escrows.
pub proof fn lemma_same_escrows(s: Storage, t: Storage)
    requires
        same_family(s, t, Family::Escrows),
    ensures
        t.number_or_zero(DataKey::EscrowCount) == s.number_or_zero(DataKey::EscrowCount),
        forall|id: u32| #[trigger] escrow_at(t, id) == escrow_at(s, id),
        forall|id: u32, missing: Trap| #[trigger]
            t.escrow(DataKey::Escrow(id), missing) == s.escrow(DataKey::Escrow(id), missing),
        escrows_sound(s) ==> escrows_sound(t),
{
    assert(unchanged(s, t, DataKey::EscrowCount));
    assert forall|id: u32| #[trigger] escrow_at(t, id) == escrow_at(s, id) by {
        assert(unchanged(s, t, DataKey::Escrow(id)));
    }
    assert forall|id: u32, missing: Trap| #[trigger]
        t.escrow(DataKey::Escrow(id), missing) == s.escrow(DataKey::Escrow(id), missing) by {
        assert(unchanged(s, t, DataKey::Escrow(id)));
    }
    if escrows_sound(s) {
        assert forall|id: u32| #[trigger] t.has(DataKey::Escrow(id)) <==> id < escrow_count(t) by {
            assert(unchanged(s, t, DataKey::Escrow(id)));
            assert(s.has(DataKey::Escrow(id)) <==> id < escrow_count(s));
        }
        assert forall|id: u32| id < escrow_count(t) implies #[trigger] has_sound_escrow(t, id) by {
            assert(has_sound_escrow(s, id));
            assert(escrow_at(t, id) == escrow_at(s, id));
        }
    }
}

/// Creating an escrow works exactly if the amount is positive, the release
/// ledger is to come, and there is a number left for it. The escrow then has
/// the next id and waits; it is the last one in the lists of its two sides; and
/// nothing else has changed.
pub proof fn law_create_adds_the_escrow(
    s: Storage,
    token: Address,
    from: Address,
    to: Address,
    amount: i128,
    release_ledger: u32,
    now: u32,
)
    requires
        escrows_sound(s),
        lists_sound(s),
    ensures
        ({
            let id = escrow_count(s);
            let step = create_escrow_step(s, token, from, to, amount, release_ledger, now);
            let escrow = Escrow {
                id,
                from,
                to,
                token,
                amount,
                release_ledger,
                status: EscrowStatus::Pending,
            };
            &&& step.outcome is Ok <==> amount > 0 && release_ledger > now && id < u32::MAX
            &&& step.outcome is Ok ==> {
                &&& step.outcome->Ok_0 == id
                &&& step.storage == indexed(with_escrow(s, escrow), from, to, id).storage
                &&& escrow_count(step.storage) == id + 1
                &&& step.storage.escrow(DataKey::Escrow(id), Trap::EscrowNotFound) == Ok::<
                    Escrow,
                    Trap,
                >(escrow)
                &&& forall|other: u32|
                    other != id ==> #[trigger] escrow_at(step.storage, other) == escrow_at(s, other)
                &&& forall|role: Role, account: Address| #[trigger]
                    list_ids(step.storage, role, account) == if account == side(escrow, role) {
                        list_ids(s, role, account).push(id)
                    } else {
                        list_ids(s, role, account)
                    }
                &&& escrows_sound(step.storage)
                &&& lists_sound(step.storage)
            }
        }),
{
    let id = escrow_count(s);
    let step = create_escrow_step(s, token, from, to, amount, release_ledger, now);
    let escrow = Escrow {
        id,
        from,
        to,
        token,
        amount,
        release_ledger,
        status: EscrowStatus::Pending,
    };
    if amount > 0 && release_ledger > now && id < u32::MAX {
        let written = with_escrow(s, escrow);
        let after = indexed(written, from, to, id).storage;
        lemma_escrow_added(s, escrow);
        lemma_lists_of(s, written);
        assert(list_sound(s, Role::Sender, from));
        assert(list_sound(s, Role::Recipient, to));
        lemma_ids_below_len(s, Role::Sender, from, id as nat);
        lemma_ids_below_len(s, Role::Recipient, to, id as nat);
        assert(list_ids(written, Role::Sender, from).len() <= id);
        assert(list_ids(written, Role::Recipient, to).len() <= id);
        lemma_indexed(written, from, to, id, Role::Sender, from);
        lemma_indexed_frame(written, from, to, id, Family::Escrows);
        lemma_same_escrows(written, after);
        assert forall|other: u32| other != id implies #[trigger] escrow_at(after, other)
            == escrow_at(s, other) by {
            assert(escrow_at(written, other) == escrow_at(s, other));
        }
        assert forall|role: Role, account: Address| #[trigger]
            list_ids(after, role, account) == if account == side(escrow, role) {
                list_ids(s, role, account).push(id)
            } else {
                list_ids(s, role, account)
            } by {
            assert(list_sound(s, role, account));
            lemma_indexed(written, from, to, id, role, account);
        }
        assert forall|role: Role, account: Address| #[trigger] list_sound(after, role, account) by {
            assert(list_sound(s, role, account));
            lemma_indexed(written, from, to, id, role, account);
            lemma_same_ids(s, after, role, account, id as nat);
            assert(escrow_at(after, id) == escrow);
            assert(list_ids(after, role, account) == if account == side(escrow, role) {
                list_ids(s, role, account).push(id)
            } else {
                list_ids(s, role, account)
            });
        }
    }
}

/// A storage that differs in the escrows has the same lists.
proof fn lemma_lists_of(s: Storage, t: Storage)
    requires
        lists_sound(s),
        same_family(s, t, Family::Lists),
    ensures
        forall|role: Role, account: Address| #[trigger] list_readable(t, role, account),
        forall|role: Role, account: Address| #[trigger]
            list_ids(t, role, account) == list_ids(s, role, account),
{
    assert forall|role: Role, account: Address|
        #![trigger list_readable(t, role, account)]
        #![trigger list_ids(t, role, account)]
        list_readable(t, role, account) && list_ids(t, role, account) == list_ids(
            s,
            role,
            account,
        ) by {
        assert(list_sound(s, role, account));
        assert(unchanged(s, t, role.count_key(account)));
        assert forall|i: u32| #[trigger] unchanged(s, t, role.index_key(account, i)) by {}
        lemma_same_list(s, t, role, account);
    }
}

/// At every ledger a waiting escrow can be settled in exactly one way: claimed
/// from the release ledger on, and cancelled before it. The other way is
/// refused with the error for it.
pub proof fn law_one_way_to_settle(s: Storage, id: u32, now: u32)
    requires
        escrows_sound(s),
        id < escrow_count(s),
        escrow_at(s, id).status == EscrowStatus::Pending,
    ensures
        claim_escrow_step(s, id, now).outcome == if now >= escrow_at(s, id).release_ledger {
            Ok::<(), Failure>(())
        } else {
            Err::<(), Failure>(Failure::Error(ContractError::EscrowClaimTooEarly))
        },
        cancel_escrow_step(s, id, now).outcome == if now < escrow_at(s, id).release_ledger {
            Ok::<(), Failure>(())
        } else {
            Err::<(), Failure>(Failure::Error(ContractError::EscrowCancelTooLate))
        },
        claim_escrow_step(s, id, now).outcome is Ok <==> cancel_escrow_step(
            s,
            id,
            now,
        ).outcome is Err,
{
    assert(has_sound_escrow(s, id));
}

/// Claiming pays the whole amount to the recipient, who has to sign; cancelling
/// pays it back to the sender, who has to sign. Both leave the escrow settled,
/// and change nothing else.
pub proof fn law_settling_pays_the_amount(s: Storage, id: u32, now: u32)
    requires
        escrows_sound(s),
    ensures
        ({
            let step = claim_escrow_step(s, id, now);
            let escrow = escrow_at(s, id);
            step.outcome is Ok ==> {
                &&& id < escrow_count(s)
                &&& step.signer == Some(escrow.to)
                &&& step.actions == seq![
                    published(Event::EscrowClaim { id, to: escrow.to, amount: escrow.amount }),
                    Action::Transfer {
                        token: escrow.token,
                        from: Party::Contract,
                        to: Party::Account(escrow.to),
                        amount: escrow.amount,
                    },
                ]
                &&& escrow_at(step.storage, id) == Escrow {
                    status: EscrowStatus::Released,
                    ..escrow
                }
                &&& escrow_count(step.storage) == escrow_count(s)
                &&& forall|other: u32|
                    other != id ==> #[trigger] escrow_at(step.storage, other) == escrow_at(s, other)
            }
        }),
        ({
            let step = cancel_escrow_step(s, id, now);
            let escrow = escrow_at(s, id);
            step.outcome is Ok ==> {
                &&& id < escrow_count(s)
                &&& step.signer == Some(escrow.from)
                &&& step.actions == seq![
                    published(Event::EscrowCancel { id, from: escrow.from, amount: escrow.amount }),
                    Action::Transfer {
                        token: escrow.token,
                        from: Party::Contract,
                        to: Party::Account(escrow.from),
                        amount: escrow.amount,
                    },
                ]
                &&& escrow_at(step.storage, id) == Escrow {
                    status: EscrowStatus::Cancelled,
                    ..escrow
                }
                &&& escrow_count(step.storage) == escrow_count(s)
                &&& forall|other: u32|
                    other != id ==> #[trigger] escrow_at(step.storage, other) == escrow_at(s, other)
            }
        }),
{
    if s.has(DataKey::Escrow(id)) {
        assert(has_sound_escrow(s, id));
        let escrow = escrow_at(s, id);
        lemma_escrow_written(s, id, Escrow { status: EscrowStatus::Released, ..escrow });
        lemma_escrow_written(s, id, Escrow { status: EscrowStatus::Cancelled, ..escrow });
    }
}

/// An escrow is settled once: afterwards it can neither be claimed nor be
/// cancelled, at any ledger.
pub proof fn law_settled_once(s: Storage, id: u32, now: u32)
    requires
        escrows_sound(s),
        id < escrow_count(s),
        escrow_at(s, id).status != EscrowStatus::Pending,
    ensures
        claim_escrow_step(s, id, now).outcome == Err::<(), Failure>(
            Failure::Trap(Trap::EscrowNotPending),
        ),
        cancel_escrow_step(s, id, now).outcome == Err::<(), Failure>(
            Failure::Trap(Trap::EscrowNotPending),
        ),
{
    assert(has_sound_escrow(s, id));
}

/// What an escrow call leaves in the storage.
proof fn lemma_escrow_call(s: Storage, call: EscrowCall, now: u32)
    requires
        escrows_sound(s),
    ensures
        escrows_sound(call.effect(s, now).storage),
        forall|id: u32|
            id < escrow_count(s) ==> {
                let after = #[trigger] escrow_at(call.effect(s, now).storage, id);
                let before = escrow_at(s, id);
                &&& after == Escrow { status: after.status, ..before }
                &&& before.status != EscrowStatus::Pending ==> after == before
            },
        escrow_count(call.effect(s, now).storage) >= escrow_count(s),
{
    reveal(EscrowCall::effect);
    let effect = call.effect(s, now);
    if effect.failure is None {
        match call {
            EscrowCall::Create { token, from, to, amount, release_ledger } => {
                let id = escrow_count(s);
                let escrow = Escrow {
                    id,
                    from,
                    to,
                    token,
                    amount,
                    release_ledger,
                    status: EscrowStatus::Pending,
                };
                let written = with_escrow(s, escrow);
                lemma_escrow_added(s, escrow);
                lemma_indexed_frame(written, from, to, id, Family::Escrows);
                lemma_same_escrows(written, effect.storage);
                assert forall|other: u32| other < id implies #[trigger] escrow_at(
                    effect.storage,
                    other,
                ) == escrow_at(s, other) by {
                    assert(escrow_at(written, other) == escrow_at(s, other));
                }
            },
            EscrowCall::Claim { id } | EscrowCall::Cancel { id } => {
                assert(s.has(DataKey::Escrow(id)));
                law_settling_pays_the_amount(s, id, now);
                assert(has_sound_escrow(s, id));
                let escrow = escrow_at(s, id);
                lemma_escrow_written(s, id, Escrow { status: EscrowStatus::Released, ..escrow });
                lemma_escrow_written(s, id, Escrow { status: EscrowStatus::Cancelled, ..escrow });
            },
        }
    }
}

/// Whatever call is made, all escrows stay as they were created but for being
/// settled, and a settled one stays as it is.
pub proof fn law_escrows_stay_sound(s: Storage, call: Call, now: u32)
    requires
        escrows_sound(s),
    ensures
        escrows_sound(call.effect(s, now).storage),
        escrow_count(call.effect(s, now).storage) >= escrow_count(s),
        forall|id: u32|
            id < escrow_count(s) ==> {
                let after = #[trigger] escrow_at(call.effect(s, now).storage, id);
                let before = escrow_at(s, id);
                &&& after == Escrow { status: after.status, ..before }
                &&& before.status != EscrowStatus::Pending ==> after == before
            },
{
    match call {
        Call::Escrow(call) => {
            lemma_escrow_call(s, call, now);
        },
        _ => {
            law_calls_keep_to_their_records(s, call, now, Family::Escrows);
            lemma_same_escrows(s, call.effect(s, now).storage);
        },
    }
}

/// A call that leaves the lists alone, on escrows that keep their sides.
proof fn lemma_lists_kept(s: Storage, t: Storage)
    requires
        lists_sound(s),
        same_family(s, t, Family::Lists),
        escrow_count(t) == escrow_count(s),
        forall|id: u32, role: Role|
            id < escrow_count(s) ==> #[trigger] side(escrow_at(t, id), role) == side(
                escrow_at(s, id),
                role,
            ),
    ensures
        lists_sound(t),
        forall|role: Role, account: Address| #[trigger]
            list_ids(t, role, account) == list_ids(s, role, account),
{
    lemma_lists_of(s, t);
    assert forall|role: Role, account: Address| #[trigger] list_sound(t, role, account) by {
        assert(list_sound(s, role, account));
        assert(list_readable(t, role, account));
        assert(list_ids(t, role, account) == list_ids(s, role, account));
        assert forall|id: u32| id < escrow_count(s) implies side(
            #[trigger] escrow_at(t, id),
            role,
        ) == side(escrow_at(s, id), role) by {}
        lemma_same_ids(s, t, role, account, escrow_count(s) as nat);
    }
}

/// The lists exist: a migration will not write them again.
pub open spec fn lists_exist(s: Storage) -> bool {
    s.number_or_zero(DataKey::SchemaVersion) matches Ok(version) && version
        >= ESCROW_LISTS_VERSION
}

/// Whatever call is made, the lists hold exactly the escrows of each account,
/// oldest first. Ids are only ever added, and at the end; claiming and
/// cancelling leave them in place.
pub proof fn law_lists_stay_sound(s: Storage, call: Call, now: u32)
    requires
        escrows_sound(s),
        lists_sound(s),
        call matches Call::Admin(AdminCall::Migrate { .. }) ==> lists_exist(s),
    ensures
        lists_sound(call.effect(s, now).storage),
        forall|role: Role, account: Address|
            list_ids(s, role, account).is_prefix_of(
                #[trigger] list_ids(call.effect(s, now).storage, role, account),
            ),
        !(call matches Call::Escrow(EscrowCall::Create { .. })) ==> forall|
            role: Role,
            account: Address,
        | #[trigger]
            list_ids(call.effect(s, now).storage, role, account) == list_ids(s, role, account),
{
    let after = call.effect(s, now).storage;
    law_escrows_stay_sound(s, call, now);
    if let Call::Escrow(EscrowCall::Create { token, from, to, amount, release_ledger }) = call {
        law_create_adds_the_escrow(s, token, from, to, amount, release_ledger, now);
        reveal(EscrowCall::effect);
    } else {
        if let Call::Admin(AdminCall::Migrate { admin }) = call {
            reveal(AdminCall::effect);
        } else {
            law_calls_keep_to_their_records(s, call, now, Family::Lists);
        }
        assert(escrow_count(after) == escrow_count(s)) by {
            match call {
                Call::Escrow(EscrowCall::Claim { id }) | Call::Escrow(EscrowCall::Cancel { id }) => {
                    reveal(EscrowCall::effect);
                    law_settling_pays_the_amount(s, id, now);
                },
                _ => {
                    law_calls_keep_to_their_records(s, call, now, Family::Escrows);
                    lemma_same_escrows(s, after);
                },
            }
        }
        assert forall|id: u32, role: Role| id < escrow_count(s) implies #[trigger] side(
            escrow_at(after, id),
            role,
        ) == side(escrow_at(s, id), role) by {}
        lemma_lists_kept(s, after);
    }
}

/// Reading some places of a list whose entries are all there.
pub proof fn lemma_listed(s: Storage, role: Role, account: Address, start: u32, n: nat)
    requires
        list_readable(s, role, account),
        start + n <= list_len(s, role, account),
    ensures
        listed(s, role, account, start, n).trap is None,
        listed(s, role, account, start, n).ids == list_ids(s, role, account).subrange(
            start as int,
            start + n,
        ),
    decreases n,
{
    let ids = list_ids(s, role, account);
    if n == 0 {
        assert(ids.subrange(start as int, start + 0) =~= Seq::empty());
    } else {
        let m = (n - 1) as nat;
        let index = (start + m) as u32;
        let before = listed(s, role, account, start, m).storage;
        lemma_listed(s, role, account, start, m);
        assert(has_list_entry(s, role, account, index));
        lemma_listed_frame(
            s,
            role,
            account,
            start,
            m,
            role.index_key(account, index),
        );
        assert(ids.subrange(start as int, start + n) =~= ids.subrange(
            start as int,
            start + m,
        ).push(ids[index as int]));
    }
}

/// A page of a sound list is the part of the list that was asked for, and has
/// no more than the largest number of ids.
pub proof fn law_page_is_part_of_the_list(
    s: Storage,
    role: Role,
    account: Address,
    offset: u32,
    limit: u32,
)
    requires
        lists_sound(s),
    ensures
        ({
            let listing = page(s, role, account, offset, limit);
            let ids = list_ids(s, role, account);
            let start = page_start(ids.len() as u32, offset);
            let end = page_end(ids.len() as u32, offset, limit);
            &&& listing.trap is None
            &&& start <= end <= ids.len() <= u32::MAX
            &&& listing.ids == ids.subrange(start as int, end as int)
            &&& listing.ids.len() <= page_size(limit) <= MAX_ESCROW_PAGE_SIZE
        }),
{
    assert(list_sound(s, role, account));
    let total = list_len(s, role, account);
    let start = page_start(total, offset);
    let n = (page_end(total, offset, limit) - start) as nat;
    let key = role.count_key(account);
    let renewed = s.renew_present(key);
    assert(unchanged(s, renewed, key));
    assert forall|i: u32| #[trigger] unchanged(s, renewed, role.index_key(account, i)) by {}
    lemma_same_list(s, renewed, role, account);
    lemma_listed(renewed, role, account, start, n);
}

/// A page and the next one make up the part of the list that both cover: no id
/// is skipped and none comes twice.
pub proof fn law_pages_join(s: Storage, role: Role, account: Address, offset: u32, limit: u32)
    requires
        lists_sound(s),
        offset + page_size(limit) <= u32::MAX,
    ensures
        ({
            let ids = list_ids(s, role, account);
            let next = (offset + page_size(limit)) as u32;
            let start = page_start(ids.len() as u32, offset);
            let end = page_end(ids.len() as u32, next, limit);
            page(s, role, account, offset, limit).ids + page(s, role, account, next, limit).ids
                == ids.subrange(start as int, end as int)
        }),
{
    let ids = list_ids(s, role, account);
    let next = (offset + page_size(limit)) as u32;
    law_page_is_part_of_the_list(s, role, account, offset, limit);
    law_page_is_part_of_the_list(s, role, account, next, limit);
    let first = page(s, role, account, offset, limit).ids;
    let second = page(s, role, account, next, limit).ids;
    let start = page_start(ids.len() as u32, offset) as int;
    let end = page_end(ids.len() as u32, next, limit) as int;
    assert(first + second =~= ids.subrange(start, end));
}

/// Nothing but a call that the recipient or the sender of an escrow signs
/// changes the escrow.
pub proof fn law_only_parties_settle_an_escrow(s: Storage, call: Call, now: u32, id: u32)
    requires
        escrows_sound(s),
        id < escrow_count(s),
        escrow_at(call.effect(s, now).storage, id) != escrow_at(s, id),
    ensures
        call.effect(s, now).signer == Some(escrow_at(s, id).to) || call.effect(s, now).signer
            == Some(escrow_at(s, id).from),
{
    match call {
        Call::Escrow(EscrowCall::Create { token, from, to, amount, release_ledger }) => {
            reveal(EscrowCall::effect);
            let next = escrow_count(s);
            let escrow = Escrow {
                id: next,
                from,
                to,
                token,
                amount,
                release_ledger,
                status: EscrowStatus::Pending,
            };
            if call.effect(s, now).failure is None {
                let written = with_escrow(s, escrow);
                lemma_escrow_added(s, escrow);
                lemma_indexed_frame(written, from, to, next, Family::Escrows);
                lemma_same_escrows(written, call.effect(s, now).storage);
                assert(escrow_at(written, id) == escrow_at(s, id));
            }
        },
        Call::Escrow(EscrowCall::Claim { id: at }) | Call::Escrow(EscrowCall::Cancel { id: at }) => {
            reveal(EscrowCall::effect);
            law_settling_pays_the_amount(s, at, now);
        },
        _ => {
            law_calls_keep_to_their_records(s, call, now, Family::Escrows);
            lemma_same_escrows(s, call.effect(s, now).storage);
        },
    }
}

} // verus!
