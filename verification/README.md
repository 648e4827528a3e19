# atlas

A library that indexes source code, keeps embeddings of it, and drives an agent
that answers questions about it with tools. The library in `src/` is written in
Verus: every function states in its contract what it returns or changes, and the
contracts are proved.

- `src/`: the library. `scanner`, `ignore`, `parser`, `index` and `model` find
  source files and turn them into an index; `embedding`, `vector_store` and
  `store_file` keep and search vectors; `agent` holds the loop of the agent, its
  state, budget, tools, cache, reports and orchestration. `text`, `paths`,
  `order`, `tally` and `text_map` are what the others are built on.
- `app/`: what surrounds the library: reading directories and files, running
  commands, threads, clocks, floating-point numbers, and types that are written
  as JSON.
- `tests/`: the library at work on concrete values.

Functions named `law_...` state what holds of the library as a whole.

Numbers with a fraction are bits to the library: an embedding is a list of the
bits of its components, and a score comes in with its bits and is compared by
them.
