# prism_core

A Core Lightning plugin that splits incoming BOLT12 payments among the members
of a *prism*, with its core logic verified in Verus.

## Layout

- `src/` — the verified library.
  - `types.rs` — prisms, members, destinations, bindings, errors, and their views.
  - `split.rs` — dividing an amount by weight, the outlay factor, fee accounting,
    and the laws they obey (nothing is over-paid, rounding loses less than one
    millisatoshi per member, weights are relative, factor one passes through).
  - `validation.rs` — member and prism field checks, destination parsing
    (through the `regex` crate; an offer must also start with `lno`).
  - `payment.rs` — payouts as runs that the caller drives: `step` names the next
    payment, `record` takes the node's outcome.
  - `requests.rs` — the decisions behind each plugin command.
  - `store.rs` — datastore keys and the records stored under them.
  - `strmap.rs` — a map from text keys kept in insertion order.
  - `ids.rs`, `text.rs` — identifiers (SHA-256 of a random UUID) and number text.
- `app/` — the plugin itself: JSON, the CLN RPC connection, the datastore, and
  the loops that drive payouts against the node.
- `tests/` — tests of the library.

## Units

Splits and outlay factors are decimal numbers in the plugin's JSON. The library
holds them as whole numbers of millionths: a split of `1.5` is `1_500_000`, an
outlay factor of `0.75` is `750_000`. Only the ratio of splits matters; the
outlay factor must lie in `(0, 10]`, that is `(0, 10_000_000]` millionths.
A positive split below `0.0000005` rounds to zero millionths and is refused.
