# qtcloud-work

The command line of the 量潮 knowledge-work cloud: workflows (ordered steps,
each with who does it and how it is judged), work orders (a ledger of records
that only grows), and the documents of a workspace.

- `src/` is the library, verified with Verus: the YAML model of definitions and
  ledgers, the schema, ids, progress, the rules a ledger keeps, checks of a
  definition, the prompts and verdicts of a step walked by an agent, the
  reports, the catalog, search and materials. Each public function states its
  result in its contract; the laws of the ledger and of definitions are public
  proof functions (`lemma_*`).
- `app/` is the program around it: argument parsing, files, the events file,
  the agent (`pi`), shell checks, `git`, and the health probe over HTTP.
- `tests/` runs the library on concrete values.
