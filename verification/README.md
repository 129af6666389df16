# zdns

A domain name service for `.zhtp` and other names whose records carry
ownership and fee proofs. The library, under `src/`, is verified with Verus:

- `types.rs`: records, queries, responses, settings and errors;
- `address.rs`: the textual IPv4 and IPv6 address syntax that address
  records must follow, with checkers proved against it;
- `validate.rs`: the rules for queries and records;
- `model.rs`: what each store and cache operation does, stated over maps;
- `server.rs`: the server (record store, answer cache, counters) and its
  operations, each proved against the model;
- `config.rs`: default settings;
- `ambient.rs`: the clock, the timer and random identifiers;
- `laws.rs`: properties that span operations;
- `text.rs`: small text helpers.

`app/` gives the same types with calendar times, floating-point amounts and
serde support, an asynchronous server that can be shared between tasks, and
the fee split, which is floating-point arithmetic.
