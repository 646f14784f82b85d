# electwasm

A CosmWasm voting contract whose logic is verified with Verus.

Anyone may open a proposal with a list of options by paying the commission
that the admin set for one of the accepted tokens. The proposer admits
voters (others may ask to join), each admitted voter votes once, and after
the proposal's expiration the proposer closes it: below the quorum nobody
wins, otherwise the options with the most votes win, a tie naming all of
them.

## Layout

- `src/` — the verified library.
  - `state.rs`: coins, expirations, proposals, tallies, the proposal counter
    and the storage key of a proposal.
  - `voters.rs`: the voters of a proposal, kept in ascending order of address.
  - `exec.rs`: the messages — proposing, requests on the voters, voting,
    closing — each as a function from the stored values to the new values
    and the response, with exact contracts.
  - `query.rs`: the replies to queries.
  - `contract.rs`: the whole store as one value, with the invariant that
    every tally agrees with its voters, kept by every message.
  - `laws.rs`: properties that span several operations (one vote per voter,
    a closed proposal is final, a voter request is idempotent, closing again
    changes nothing, the winner rule).
  - `msg.rs`, `error.rs`, `text.rs`: responses, errors and reply text.
- `app/` — the contract's entry points: storage, address checks, JSON
  encoding, the floating-point quorum and a cw-multi-test harness.
- `tests/` — scenario tests of the contract and tests of the library.
