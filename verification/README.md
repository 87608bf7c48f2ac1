# mdd

`mdd` bootstraps agent-first model-driven development workspaces: PlantUML
models on a *current* and an *objective* side, OCL constraints, a trace of
links between them, and the gates that hold code and models together
(validation, approval, review, freshness).

The library under `src/` holds the tool's decisions, each stated by a Verus
contract and proved:

- `markers`, `patterns`, `model`, `project`: model files, `@id`/`@ref`/`@sec`/
  `@ui-*` markers, the registry, approvals, the test plan and gates.
- `validation`, `review`, `gate`, `generate`, `scaffold`: structural
  validation, id/security/traceability parity, the code gate, and generated
  acceptance, security and Playwright tests.
- `cycle`, `cycles`, `architecture`, `freshness`, `traceability`, `symbols`:
  cycle snapshots and their superposed diffs, the architecture spec,
  whole-map freshness, the Rust symbol index (sources parsed with `syn`)
  and the reverse-traceability pass over changed code.
- `setup`, `templates`, `agent`: what `mdd init` writes and `mdd clean`
  removes, including the managed block kept in `AGENTS.md`.
- `hooks`: the edit that registers or removes the session-start hook in
  the list of an agent's settings; the command line does not call it.
- `render`, `paths`, `catalog`, `viewer`, `graph`: render sources and
  their SVG mirrors, rendered pages, the viewer's directory tree and the
  model graph.
- `text`, `strings`, `order`, `digest`: the string, map, ordering and digest
  primitives the rest is written in.

Laws of the library are public proof functions, among them
`project::lemma_approval_current_iff`, `project::lemma_approve_then_current`,
`setup::lemma_block_write_idempotent`, `setup::lemma_clean_after_write`,
`review::lemma_review_scope`, `review::lemma_security_parity_by_body`,
`validation::lemma_refs_resolve_within_side`,
`viewer::lemma_tree_dirs_sorted`, `hooks::lemma_session_hook_round`,
`cycles::lemma_latest_is_greatest` and
`freshness::lemma_drift_list_unique`.

`app/` is the `mdd` command line: argument parsing, the file system, git,
PlantUML processes and the YAML state files.
