# complai

A local compliance-engineering toolkit: a shared knowledge base of framework
controls and system facts, and per-project control matrices, facts, evidence
and gap reports.

- `src/` is the verified library (Verus). It holds the rules: control
  identifiers and their natural order, frontmatter fencing, safe storage
  paths, index building, the ingest protocol's validation, planning and
  idempotent upserts, matrix assessment, evidence registration, revisions and
  every rendered text. Each public function states its result in its
  contract; the `lemma_*` proof functions state the library's laws.
- `app/` is the `complai` program: argument parsing, file and directory
  access, locking and atomic writes, YAML/JSON formats and spreadsheet
  reading. It hands plain values to the library and writes back what the
  library returns.
- `tests/` exercises the library on concrete values.
