# Amgix Now

A hybrid search engine: documents go in over HTTP, are vectorized and stored in
Qdrant, and searches come back as ranked results.

- `src/` is the library, written in Verus: what the engine decides and computes,
  with contracts that are proved. Work that needs the network, the disk, a clock
  or a model is driven from outside: `upsert_run`, `delete_run`, `search_run`,
  `group_run`, `queue_poller` and their like take the outcome of one step and say which step
  comes next.
- `app/` is the server around it: HTTP, Qdrant, RabbitMQ, models, and all
  arithmetic on floating-point numbers. The library holds such numbers as their
  bit patterns.
- `tests/` runs the library on concrete values.

Some results of outside crates (UUIDs, hashes, the readings of dates and
numbers, the words of errors) are named in the library rather than described;
the functions marked `external_body` say which call stands behind each name.
