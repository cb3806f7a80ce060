# raise

The core of the RAISE JSON document database, written in Verus. The
functions in `src/` carry contracts that Verus proves, except the few marked
`#[verifier::external_body]`: those call std or an outside crate (regex,
sha2, rand, sqlparser), and their contracts are trusted, not proved.

- `src/`: the library.
  - JSON values and text: `json`, `json_text`, `text`, `paths`.
  - Queries: `query`, `parser`, `query_json`, `optimizer`, `query_eval`,
    `query_exec`, and SQL access in `sql_ast` and `sql`.
  - Schemas: `schema_registry`, `schema_uri`, `schema_validator`,
    `schema_defaults`, `compute`, `bootstrap`.
  - Collections and documents: `collections`, `system_index`, `documents`,
    `changes`, `prepare`, `migrations`, `version`, `data_provider`.
  - Indexes: `index_maps`, `index_ops`, `text_index`, `index_admin`.
  - JSON-LD and ontologies: `vocabulary`, `ontology`, `context`,
    `processor`, `semantic`.
  - Model import, front-end answers and optimisation: `ingest`, `frontend`,
    `dev_setup`, `genetics`, `graph_text`.
  - Properties that relate several operations: `optimizer_laws`,
    `query_laws` and the `law_*` proof functions of the other modules.
- `app/`: the files on disk and the flows that read them, call the library
  and write the results back.
- `tests/`: the tests of the library.
