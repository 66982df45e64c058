# kv_cache_evidence

Where did the tokens of a prompt come from, and if a cached prefix was lost, where was it lost?
This library answers that question token by token for a fleet of inference workers behind a router.
Everything in `src/` is verified with Verus.

## How it hangs together

- `funnel` attributes every prompt token to exactly one cause, from "never computed before" to
  "read from GPU".
- `ledger`, with its meaning in `model`, keeps what is known of computed and resident blocks. It
  answers yes, no or unknown, and never takes a gap in the evidence for an absence.
  `prefix` turns its answers into prefix lengths for models with several kinds of cache group.
- `listener` and `resolver` turn an engine's events into evidence batches; `observer` applies events
  directly.
- `subscription`, with its meaning in `subscription_model`, takes evidence batches in. It rests on
  `sequence` (order of batches), `freshness` (watermarks), `catalog` and `membership` (who publishes
  what), `barrier` and `control` (route-time cuts), and `cold_epoch` and `cold_run` (starting over
  with empty caches).
- `snapshot` and `route` measure a request when it is routed; `guard` and `request_guard` follow it
  until it is accounted for; `prompt_source` hands it its worker's last word; `tracker` and
  `branches` keep what it has computed.
- `history` and `history_request` keep a bounded window of completed requests.
- `fault` injects bounded faults into shadow traffic.
- `announcements`, `table`, `owner_map`, `text`, `protocols`, `random`, `settings`, `event`,
  `evidence` and `metrics` hold what the others share.

Every stateful type has a view, a mathematical value on which its operations are defined; each
method states that it does to the view what the operation says. What holds across operations is
stated and proved as a `law_` function, in the modules that end in `_laws` or beside the operations.

Time is a number of nanoseconds on the caller's clock. Hashing tokens, clocks, channels, wire
formats and metrics registries are the caller's: `app/` holds them.

## What is taken on trust

- `protocols::xxh3_digest`: an XXH3 digest depends on the bytes and the seed alone.
- `random::random_u64` and `random::random_u128`: nothing is claimed of the numbers.
