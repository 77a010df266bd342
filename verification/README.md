# stellar-micropay-contract

A Soroban payment contract in verified Rust: tips, receipts, escrows and
streams, with their rules stated as contracts and proved by Verus.

* `src/` is the library. Its functions decide what a call does, write to the
  contract's persistent storage, and answer with what is left to do: whose
  signature the call needs, which transfers to make, and which events to
  publish. `src/laws/` holds what is proved of the contract as a whole, among
  it that no stream pays out more than was deposited, that no recipient is paid
  more than its part of what has accrued, and that the contract always holds
  what it owes.
* `src/sdk.rs` is the boundary to the Soroban SDK, and the only file that is
  taken on trust.
* `app/` is the contract as the host runs it: thin entry points that ask for
  signatures and carry out what the library answers.
* `tests/` runs the library on the SDK's test host.

A call that fails gives either one of the contract's errors, which the caller
sees as such, or a trap, which ends the invocation. Either way the host
discards what the call has written.
