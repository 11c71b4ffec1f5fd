# lkjscript_platform

Deterministic, resource-bounded planning of semantic changes to a package, verified with Verus.

A change request arrives as primitive edits against an exact base authority. The library
normalizes the edits into one canonical delta, reads the candidate state through an overlay,
derives the witness edits the change implies, follows candidate relations over a validation
witness, plans the reverse impact of the change (which owners to check, summarize, compile and
test, and why), and meters every phase against a declared change budget. Contracts are stated
over mathematical models of the data, and the laws that relate functions are proved as public
lemmas. Where a result depends on a source read through a trait (a canonical base or a witness),
a contract states what is owed when the source's reads succeed and what holds whatever it
answers; the impact plan's contract states its bounds, its order, the kind and justification of
its tests, that every semantically checked test is planned, that the owning units bound through
each changed dependency are planned, and that behavior propagation was followed from every direct
change and every such unit to its end over the candidate relations; it does not state the whole
plan as one function of the sources. It also checks the frame of a workspace head, the shape, digests,
dependency closure and acyclicity of an artifact bundle, the entries of a backup manifest, and
the continuation tokens of bounded built-in owner discovery.

Layout:

- `src/` — the verified library.
  - `budget.rs`, `dimension.rs` — change budgets, their validation and the metering of work.
  - `base_read.rs` — read interfaces of the canonical base and the witness, with their models.
  - `kernel.rs`, `witness.rs`, `digest.rs` — records, keys, encodings and digests.
  - `delta.rs`, `overlay.rs` — normalization of edits into a delta held in key order, and the
    candidate overlay.
  - `derived.rs` — the witness delta a change derives: namespace, ownership and relation edits,
    and the owners whose summaries the change can affect, each in increasing key order.
  - `order.rs` — strict total orders on keys, and sequences kept in increasing key order.
  - `relation_view.rs` — candidate relations over the base witness with a derived delta applied.
  - `impact.rs` — summary-dimension changes, impact reasons and impact planning.
  - `authority.rs`, `persistence.rs` — source-object digests, backup-manifest entries, head
    checksums and frames, file names.
  - `artifact.rs` — the shape, object digests, dependency closure and dependency order of an
    artifact bundle.
  - `discovery.rs` — sealed continuation tokens of built-in owner discovery.
  - `projection.rs` — the bounded projection of interface types into discovery records.
  - `history.rs` — which records of the revision chain a history page lists.
  - `receipt.rs` — stale-request checks, working-tree comparison and doctor tallies.
  - `publication.rs` — reuse of existing immutable files and the undoing of a failed publication.
  - `text.rs` — decimal text and the budget messages built from it.
  - `binary64.rs`, `bootstrap.rs`, `logical_plan.rs` — smaller value types.
- `tests/` — tests of the library, run against the compiled crate.
- `app/` — floating-point views of binary64 values, which the library keeps as bit patterns, and
  the file steps of publishing a revision, driven by the library's publication decisions.
