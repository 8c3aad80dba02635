# memcontext

Context memory for LLM conversations. Messages are stored per session and
recalled three ways: the most recent ones, the ones that match the most
keywords of a query, or the ones most similar to a query by a
bag-of-characters vector.

- `src/` is the library, verified with Verus: the message and configuration
  types, the in-memory session store with keyword search (`local`), keyword
  extraction and matching (`keywords`, `text`), the stable ranking used by
  both searches (`rank`), the similarity-vector counts and their byte storage
  (`vector`), the SQL text and row conversion of the SQLite store (`sql`),
  and recall results (`recall`).
- `app/` is the async layer: `MemContext`, the `Database` trait, the JSON-file
  and SQLite backends, the floating-point similarity, and serde forms of the
  library's types.
- `tests/` exercises the library.
