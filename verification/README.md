# payment_router

A payment router for a token ledger, written and verified in Verus.

The router moves token payments between addresses, takes a capped platform fee,
and enforces daily spending limits, a recipient blacklist, KYC checks,
role-based administration and a 24-hour timelock on sensitive changes. A payment
that cannot be delivered is held for its sender, who can claim it back.

## Layout

- `src/` is the library. It decides what happens; it never talks to the host.
  - `types`, `table`, `invocation`: the plain values, the ledger entries, and the
    commands that an invocation issues.
  - `router`: the contract's constants.
  - `routing`: payments, as a state machine that asks one question at a time.
  - `fees`, `spending`, `packing`: the fee, the daily limit, and the 24-byte form
    of a spending record.
  - `roles`, `timelock`, `config`, `treasury`, `refunds`: everything else that
    the contract can be asked to do.
  - `routing_laws`, `batch_laws`: what holds of every batch, whatever the host
    answers, and how a batch compares with its payments made one by one.
  - `laws`, `histories`: what holds across calls, and over any sequence of calls.
- `app/` is the contract itself: it reads and writes the ledger, carries out the
  library's commands and answers its questions.
- `tests/` runs the library, on a host kept in memory and on a real one.

## Reading the contracts

Each operation has a spec function that maps the invocation before a call to the
result and the invocation after it (`queue_outcome`, `withdraw_outcome`,
`opened`, ...), and the executable function is proved to do exactly that. The
laws are stated over these spec functions. `StorageView::wf` is the invariant
that every operation keeps.

A batch of payments can come to a point from which it cannot go on: a token
refuses the fee transfer, or an amount leaves the 128-bit range. `Routing::accepts`
says so, and the host then has to abort the whole invocation.

The only outside functions that the library relies on without proof are the two
that move bytes in and out of a host byte string, in `packing`.
