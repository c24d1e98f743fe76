# agentcreds-core

Verified credentials for autonomous agents: who an agent is, what it may do, on whose behalf, who
answers for it, and what was decided. The library is written in Verus. Each function states in its
contract what it returns, and the promises that span several functions stand beside them as public
proof functions.

## Layout

- `src/did.rs`, `src/did/`: agent identities, trust anchors, DID documents and resolvers.
- `src/vc.rs`, `src/registry.rs`, `src/interop.rs`: capability credentials, trust levels, and
  issuing, presenting and verifying them.
- `src/delegation/`: delegation tokens over Biscuit. `datalog` models the Datalog that is
  written, `plan` what goes into a block, `rules` who may mint, narrow and use a token, `token` the
  token itself, `laws` what holds of minted and narrowed tokens.
- `src/approval.rs`, `src/intent.rs`: execution-time human approval, declared intent and alignment
  evidence.
- `src/adr.rs`, `src/audit.rs`, `src/compliance.rs`, `src/accountability.rs`: decision records and
  their hash chain, cross-organisation audit, evidence bundles, ownership records.
- `src/bbs.rs`: selective disclosure with BBS+.
- `src/jcs.rs`, `src/json.rs`, `src/binding.rs`: canonical JSON and argument binding.
- `src/config.rs`, `src/a2a.rs`: configuration and the A2A header.
- `src/crypto.rs`, `src/bbs/proofs.rs`, `src/delegation/biscuit.rs` and a few functions in
  `src/base58.rs`, `src/json.rs`, `src/text.rs` and `src/time.rs`: the boundary to other crates.
  Their contracts are taken on trust, and each says what it claims of the function it calls.
- `app/`: files, environment variables, serialized forms, floating point, and sinks shared between
  threads.
- `tests/`: the library run on concrete values.
