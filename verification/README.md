# combs_models

The bookkeeping of a transformer inference engine, verified with Verus: which page a token's keys and values live in,
how packed weights are laid out, which tensors a checkpoint must hold, and what each launch of a kernel covers.

- `src/` is the library. Everything in it is verified, and works on plain values; numbers in floating point travel as
  bit patterns.
- `tests/` runs the library: caches over plain rows, packed weights against block-by-block references, loaders over
  synthetic checkpoints, launches and probe fixtures.
- `app/` drives the library with burn tensors and cubecl kernels.

## Modules

| Module | What it holds |
| --- | --- |
| `config`, `pages`, `paged_state`, `paged`, `paged_laws`, `sessions`, `contiguous`, `cache` | Key-value caches: configuration, the page allocator, the state of a paged cache and its transitions, the steps that a driver carries out, and what always holds of them |
| `attend`, `kv_quant`, `rotary` | Which keys a query sees, how quantized rows are packed, where a rotation reads |
| `blocks`, `halves`, `formats`, `format_laws`, `weights`, `quant_weight`, `quant_linear`, `grid` | Packed weight formats: planes of words, scales, values read back, launches |
| `qlinear`, `census`, `numerals` | Which layers stay packed, how that is counted, how settings are read |
| `metadata`, `archspec`, `catalog`, `reads`, `llama`, `llama_laws`, `gemma`, `smolvlm`, `whisper`, `registry`, `staged` | Configurations, the layout of an architecture, what each loader reads, and how the plans of related checkpoints compare |
| `media`, `patches`, `generation` | Images in prompts, patches of images, chunks of prompts |
| `kernels`, `probes` | When a kernel takes a call and what it is handed; the fixtures that hold a device to its word |
| `arith`, `text`, `error` | Integers, names and messages, errors |

One contract is taken on trust: `halves::convert_halves` widens half-precision bit patterns with burn's
`TensorData::convert_dtype`.
