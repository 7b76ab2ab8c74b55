# invoice_liquidity

The rules of an invoice-liquidity protocol, verified with Verus: freelancers
submit invoices, liquidity providers (LPs) buy them at a discount, payers
settle the face value, and the LPs are paid out.

## Layout

- `src/` — the verified library. `InvoiceLiquidity` (in `contract.rs`) holds
  the whole protocol state, with the invariant `wf`. Every entry point takes
  the ledger clock as an argument and returns the token transfers and
  notices the host is to carry out (`Action`); a refused call leaves the
  state unchanged.
  - `lifecycle.rs` — submission (single, auction, batch), updates, token
    switch, transfer, cancellation, expiry.
  - `funding.rs` — funding, the LP priority queue, LP positions and
    portfolio statistics.
  - `settlement.rs` — payment, settlement payouts and fees, defaults.
  - `disputes.rs` — appeals against defaults and disputes before settlement.
  - `admin.rs`, `multisig.rs` — settings, tokens, pause, multisig proposals.
  - `reputation.rs`, `top_payers.rs` — payer and LP scores with decay, and
    the bounded min-heap of the best payers.
  - `rate_logic.rs`, `oracle.rs`, `nft.rs`, `views.rs` — rates, payer
    verification, invoice NFTs, read-only queries.
  - `laws.rs` — properties that span several operations.
- `tests/` — behaviour tests on concrete values.
- `app/` — the Soroban host: authorisation, address numbering, token
  transfers, oracle and distribution-contract calls, events.
