# kronika_incident

The transport-free core of incident analysis for a PostgreSQL monitoring
history. It groups anomaly episodes into incidents, gives each incident a stable
key, dispatches diagnostic lenses over the incidents within a work budget, and
grades what the lenses report by the evidence behind it. A second branch reports
facts from typed log events. Every function but one is verified with Verus; the
one that is trusted computes SHA-256 digests with the `sha2` crate.

## Layout

- `model`, `cluster`, `dispatch`, `engine`: episodes and keys, the clustering
  sweep, the work budget and the section index, and the analysis of a request.
- `evidence`: confidence, roles, typed counter and gauge evidence, coverage of a
  window, findings, and the sink that enforces the output limits.
- `typed`, `series`, `align`: the numeric inputs that the lenses read.
- `lens`, `inspect`, `active`, `gauge_contracts`, `os_lenses`, `query_plan`: the
  lens contract and the lenses.
- `events`: log events and the lenses over them.
- `load`: what the lenses of a request ask for in all, whatever their order.
- `lenses`, `catalog`, `entity_join`: metadata of the design and its accounting,
  and bounded joins between entities.
- `float64`: IEEE 754 binary64 arithmetic on bit patterns, with exact rounding
  as its contract. Numbers in the library are bit patterns of this type.
- `order`, `ordered`, `text`, `digest`: sorting, ordered maps, text, digests.

## Reading the contracts

A lens states what it reports as a sequence of steps: amounts of work that it
pays for and drafts that it emits. `evidence::sink::run` says what a sink holds
after such a sequence under the limits of a request, and `engine::analysis` says
what a request returns over the steps of its lenses. Properties that hold of the
library as a whole are public proof functions whose names start with `law_`.

The result of the trusted function, `digest::sha256`, is named by
`digest::sha256_digest`.
