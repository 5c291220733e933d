# trade-lang-core

The core of a trading-strategy runtime, verified with Verus.

- `src/` is the library. A strategy's steps run in a context (`context.rs`), which is a handful of
  places in a heap: contexts that have a place in common share what is there. Variables (`vars.rs`),
  implicit contexts (`implicit.rs`) and done signals (`tokens.rs`) have files of their own. The
  handlers of a runtime are kept by name (`handlers.rs`, `registry.rs`) and held against the symbol
  table (`symbols.rs`, `validate.rs`, `report.rs`).
- `src/laws.rs` and the `law_` functions of `src/tokens.rs` and `src/validate.rs` state what holds
  of the library as a whole.
- `app/` is the asynchronous side: the lock around a heap, the waiting, and the handlers that are
  awaited.

What is trusted and not proved stands in the contracts of the calls into `ahash` (`slots.rs`),
`tokio-util` (`tokens.rs`) and the standard library (`implicit.rs`, `context.rs`).
