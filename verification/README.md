# andon-core

Measurements of code changes, and the verdicts drawn from them, for the agents
and people who act on them. Executable Rust with its behaviour stated in
contracts and proved by Verus.

- `src/schema/`: the record a measurement becomes, its closed vocabularies, and
  the bounded agent-mode view of it, whose size `profile_size.rs` bounds.
- `src/canonical.rs`: the one spelling of a value that digests are taken over;
  `src/unambiguous.rs` shows that it has one reading.
- `src/policy.rs`, `src/registry.rs`: the policy in force, and the evidence
  behind every number, with its lint; `src/evidence.rs` states what the
  lint guarantees.
- `src/engine.rs`, `src/parse_health.rs`: what an engine declares, and what its
  results must satisfy to be let in.
- `src/payload/`: engine outputs assembled into one record; `laws.rs` states what
  holds of every record, `messages.rs` what a refusal says.
- `src/verdict/`: severity, thresholds, policy edits, the loop counter, and the
  verdict itself; `order.rs` shows that it does not depend on arrival order, and
  `policy_laws.rs` that every policy edit is reported, once.
- `src/text.rs`, `src/decimal.rs`, `src/strmap.rs`, `src/sorting.rs`,
  `src/date.rs`: what the rest stands on.
- `app/`: files, wire forms and their schemas, and floating point.
