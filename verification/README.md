# goonj

Acoustics engine: sound propagation, room simulation, wave-based solvers,
impulse responses and spatial audio.

- `src/` — the verified core (Verus). Everything that the engine decides on
  integers and bytes: error values and messages, the xorshift64 generator,
  velvet-noise pulse placement, 16-bit PCM WAV encoding, grid indexing and
  boundary bookkeeping for the DWM, FDTD, GFPE and diffusion solvers, the
  image-source enumerations, Ambisonics channel counts and the FDN delay
  lines. Each public function carries a contract; the properties that span
  several calls are stated and proved as `pub proof fn` lemmas.
- `app/` — the floating-point acoustics built on `hisab` vectors, with the
  serde/thiserror/tracing integrations, calling `src/` for the decisions above.
- `tests/` — tests of the verified core.
