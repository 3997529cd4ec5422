# cachelito_core

A caching library whose core is verified with Verus.

- `src/` — the verified library: cache entries and expiry, the eviction
  policies (FIFO, LRU, LFU, ARC), the ordered entry store with its
  entry-count and memory limits, the Count-Min sketch, hit/miss statistics
  and their registry, the invalidation registry, memory estimation, cache
  keys, and the reader of caching attributes (including memory sizes such as
  "100MB"). Laws about these are stated as public proof functions next to
  the code they speak of.
- `tests/` — executable tests of the library.
- `app/` — the runtime around it: thread-local and lock-protected caches,
  process-wide registries with their callbacks, floating-point rates and
  W-TinyLFU sizing, and the token side of the caching attributes.
