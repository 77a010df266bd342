//! What the transfers of a call move in and out of the contract.
use soroban_sdk::Address;
use vstd::prelude::*;

use crate::outcome::Action;

verus! {

/// What one action adds to the contract's balance of `token`.
pub open spec fn gain(action: Action, token: Address) -> int {
    match action {
        Action::Transfer { token: moved, from, to, amount } => if moved != token {
            0
        } else {
            (if to is Contract {
                amount as int
            } else {
                0
            }) - (if from is Contract {
                amount as int
            } else {
                0
            })
        },
        Action::Publish { .. } => 0,
    }
}

/// What the actions together add to the contract's balance of `token`.
pub open spec fn net(actions: Seq<Action>, token: Address) -> int
    decreases actions.len(),
{
    if actions.len() == 0 {
        0
    } else {
        net(actions.drop_last(), token) + gain(actions.last(), token)
    }
}

/// One action more.
pub proof fn lemma_net_push(actions: Seq<Action>, action: Action, token: Address)
    ensures
        net(actions.push(action), token) == net(actions, token) + gain(action, token),
{
    assert(actions.push(action).drop_last() =~= actions);
}

/// The actions of a call that has none, one or two of them.
pub proof fn lemma_net_few(one: Action, two: Action, token: Address)
    ensures
        net(Seq::empty(), token) == 0,
        net(seq![one], token) == gain(one, token),
        net(seq![one, two], token) == gain(one, token) + gain(two, token),
{
    assert(seq![one].drop_last() =~= Seq::empty());
    assert(seq![one, two].drop_last() =~= seq![one]);
    reveal_with_fuel(net, 3);
}

} // verus!
