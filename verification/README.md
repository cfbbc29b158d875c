# llm_gateway

The rules of an LLM API gateway, written in Verus and proved against their
contracts: request intake, user access and dialect pairing of the
candidates, the outbound-body plan and the decisions of the provider
fallback loop, usage read from relayed streams, routing and model access, token-bucket rate limits and
concurrency slots, rectification of outbound requests, SSE framing and
stream priming, request body decoding, the Responses ⇄ Chat conversion
(Responses requests to Chat requests, Chat completions to Responses
responses, and the incremental converter from a Chat stream to Responses
stream events), tool-name
flattening, tool-result media handling, the response history store,
session credentials and access tokens, and plan usage counters.

## Layout

- `src/` — the verified library. JSON bodies are modelled by `json::Json`
  (with a mathematical view `JsonV`); text rules work on `Seq<char>` and
  byte rules on `Seq<u8>`. Calls into outside crates (serde_json, sha2,
  flate2, brotli, zstd, argon2, rand, uuid, jsonwebtoken) sit behind small trusted
  wrappers whose contracts name or state what the crate returns.
- `tests/` — executable tests of the library, run with the real outside
  crates.
- `app/` — runtime glue that stays outside verification: clocks, locks
  around the shared limiters and stores, the clock and token id for
  access tokens, the loop that feeds a converted stream, and the
  floating-point cost accounting.

Laws that span several operations are public proof functions named
`law_*` (rate limiting, concurrency release, history record/restore,
extra-body merging, plan counters, private-field stripping, tool-name
length and shape, namespaced tool lookup within a whole request, history
eviction, the resume exemption not repeating, the nameless tool-call
guard, closing and billing a converted stream once).
