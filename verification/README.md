# nockpool_miner

The core of a client for a mining pool, verified with Verus.

- `src/` is the library. It decides; it performs no input or output.
  - `miner`: how many threads mine, what an attempt is given, what its result
    means and what follows from it. `noun` models the nouns that mining kernels
    take and give.
  - `key_manager`: where the mining key comes from.
  - `updater`: whether a release is new, and the steps that install it.
  - `zipkin`: which spans are exported, how they are batched and written.
    `tags` and `json` serve it; `json` also models a reader of arrays, by which
    a payload is shown to hold its spans.
  - `submission`, `jam_loader`, `tracer`, `config`, `build_info`: smaller rules
    and defaults.
  - `text`, `hexadecimal`, `http`: helpers with exact contracts. `entropy` asks
    the operating system for random bytes, which it may not have.
- `app/` performs what the library decides. `app/nock.rs`, `app/submission.rs`
  and `app/tracer.rs` connect it to the Nock virtual machine and to the pool.
- `tests/` runs the library on concrete values.

Functions whose contracts are believed rather than proved are marked "Trusted"
in their doc comments. They call `hex`, `rand`, `serde_json`, `uuid` and a few
functions of the standard library.
