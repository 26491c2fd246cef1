# seal-node library

The logic of a Seal DAO node as a Verus-verified library: what each
function returns or changes is stated in its contract and proved, and the
properties that span several calls stand as proof functions (`lemma_*`).

- `src/` — the verified library:
  - `governance`, `council`, `delegation`: proposals, conviction voting,
    adaptive quorum, the Technical and Service Operators councils, vote
    delegation.
  - `fees`, `runner`: fee calculation and burn/reward split, base-fee
    adjustment, epoch emission, block bookkeeping and the per-tick
    intake of peer messages.
  - `committee`, `mempool`: committee vote collection, fork choice, worker
    batches and batch certificates.
  - `rpc`, `bridge_admin`, `faucet`, `aggregate`, `exposition`, `metrics`:
    request admission (authentication needs, admin multisig, rate
    limits), transfer policies, council-gated bridge actions, the dev
    faucet, column aggregates, health and the metrics page.
  - `snapshot`: the state-sync client as a sequence of checked steps.
  - `pq_rpc`, `private_tables`, `hash`: session envelopes, encrypted
    private tables (AES-256-GCM), SHA3-256 and hex helpers.
- `tests/` — tests of the library.
- `app/` — the node front end: command line, JSON-RPC plumbing and
  serializable copies of the library's types.
