# bnri-cosmic

The BNRi inscription explorer: a verified library (`src/`, Verus) and the
program around it (`app/`).

- `src/hex_renderer.rs` — the HexRect 8-byte packed codec, with its round
  trips proved, and the integer side of rendering: which hex cells a list of
  rects paints, in which order and color.
- `src/agent.rs` — the local LLM sidecar protocol: request lines, request
  ids, routing each reply to its caller, and what every call returns.
- `src/explorer.rs` — the explorer's view model and how each UI message
  changes it.
- `src/quote.rs` — the transaction quote shown before signing.
- `app/` — the COSMIC view layer, the sidecar process and its async pipes,
  the floating-point hex geometry and rasteriser, and the EVM wallet client.
- `tests/` — codec, protocol and model tests.
