# icn_economics

The economic protocols of a cooperative network — mana accounting, resource
tokens, marketplace settlement, disputes, budgets, dividends, mutual aid and
the guards against abuse — written in Verus, with each operation's behaviour
stated in its contract and proved.

An operation that reads the system clock comes in two forms: one that takes
the time as an argument (its name ends in `_at`) and states exactly what it
does at that time, and one that reads the clock and states that the same
holds for some time it read. Where an operation goes through a ledger or
store trait, its contract states what it does over the trait's own
contract; an implementation of the trait may refuse an operation, and the
operation then says what holds on each refusal.

## Layout

- `src/` — the verified library. Each module states its model (spec
  functions over `Seq`, `Map` and plain values) and proves its operations
  against it:
  - accounts and tokens: `mana_ledger`, `resource_ledger`, `crdt`, `events`,
    `balance_codec`;
  - guarded operations: `policy`, `validation`, `operations`, `repository`,
    `resilience`, `emergency`;
  - exchange and governance: `marketplace`, `disputes`, `budget`,
    `dividends`, `bonuses`, `mutual_aid`, `bounty`, `automation`,
    `byzantine_mana`;
  - supporting types and helpers: `did`, `error`, `assoc`, `text`, `clock`,
    `sorting`, `reputation`, `computational`, `organization`, `security`.
  Laws that relate several operations are public proof functions whose names
  begin with `law_`.
- `tests/` — tests of the library on concrete values.
- `app/` — ordinary Rust around the library: file and database stores
  (JSON files, sled, SQLite), the system clock, and the parts computed in
  floating point (dividend shares, price-manipulation checks, the policy
  engine).

Amounts that are fractions elsewhere (severities, confidences, weights) are
kept as integers in thousandths or hundredths, as each type's documentation
says.
