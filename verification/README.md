# Strata

A unified, typed data layer over heterogeneous data sources. Every backend answers the same
four verbs (`get`, `list`, `create`, `put`), is described by the same schema model, and is
addressed by a path below its mount.

The library under `src/` decides; the program under `app/` performs.

- `registry`, `provider`, `router`, `config`, `catalog`, `describe`: what is mounted where, and
  which endpoint answers a path.
- `schema`, `record`, `json`, `page`, `paging`, `dataset`, `request`: rows, their columns, and
  the cursors and params that lead from page to page.
- `providers`: SQL text, filters, projections and pages for tables; the ClickHouse dialect;
  Iceberg scans and writes; congress.gov, Substack, and generated rows.
- `pipe`, `harness`: one pass of a pipe, and a measured load, each as a machine that says what
  to do next and is told how that went.
- `api`, `server`, `flight`, `graphql`, `mcp`, `cli`: what each surface asks and answers.

Every function of the library has a contract that Verus proves. What is taken on trust is said
above each item that calls into another crate. Laws that hold of several functions together are
public proof functions beside them.
