# rocml

The decisions of an inference engine for Qwen3.5 hybrid models (linear attention
with a full-attention layer every few blocks, dense or with a mixture of experts),
verified with Verus. The library holds no device code and does no I/O: it derives
configurations, plans forward passes, keeps the bookkeeping of caches and snapshots,
and says what the device and the file system are to do. Floating-point numbers are
carried as their bit patterns.

## Layout

- `src/` — the verified library.
  - `registry` — the catalog of known checkpoints, and how a model argument is resolved.
  - `sample` — the random generator, largest logits, top candidates.
  - `snapshot` — captured conversation state: binary format, checksummed files, the
    memory and disk tiers, and the decisions of a conversation turn.
  - `qwen35::config`, `metadata`, `weights`, `model_weights` — hyperparameters from a
    checkpoint's metadata, the keys they are read from, and which tensors every layer
    is made of.
  - `qwen35::cache` — key/value planes, the mixed layout (sink, window, quantized
    blocks), the hybrid cache, its rewind storage and snapshots.
  - `qwen35::moe` — routing, the expert cache, pipelined expert copies.
  - `qwen35::forward` — plans: the operations of one token or one chunk, layer by
    layer, launch shapes, buffer sizes, and the model's state from pass to pass.
- `tests/` — ordinary Rust tests against the library.
- `app/` — ordinary Rust around the library: files, the `hf` command, JSON, the
  device trait and everything that computes with floating-point numbers.

## What is proved

Every function's contract is stated over mathematical models (`@` views and `spec`
functions). Properties that span functions are public proof functions named `law_…`
beside the definitions they speak of:

- decoding inverts encoding, and one changed byte or a truncated file is never taken
  for a snapshot;
- a search of the disk tier answers with the longest intact snapshot and forgets the
  broken ones it met; its index keeps every file once, and what it evicts are the files
  used longest ago, no more than the budget asks for; the pinned snapshot of the memory
  tier is never evicted;
- a chunk's operations leave in a layer's buffers what its rows leave one by one,
  whatever an eviction does to them, and a capture takes out the same after either;
- copying the saved state back undoes everything that happened to it since, and a
  capture after a restore takes out the data that was put in;
- a pass that fails leaves the position and the rewind points where they were. What it
  has done to the device stays done: a window it has moved stays moved, and once it has
  given an expert a slot no expert counts as cached. The model says whether another pass
  may begin as it is; otherwise a reset, a rewind or a restored snapshot comes first.
  After a single token it always may;
- as long as the pool holds what the expert cache says it holds, every chosen expert
  computes with its own bytes whatever was evicted or copied ahead, and the pool holds it
  again afterwards; with fewer than two slots nothing is copied ahead;
- every operation of a pass stays inside the buffers that were allocated once;
- profiling changes no operation.

What the operations compute is the device's business: the laws above hold whatever a
kernel does with the numbers it is given, as long as copies copy.

What is taken on trust are the calls into `lru` and `std::sync::Arc`; they carry
`external_body` and a comment that says what is assumed of them.
