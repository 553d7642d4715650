# part_registry

Verified core of the part registry, written in Verus.

- `src/` — the library, verified by Verus:
  the label codec (payload grammar, symbology resolution, px-true label
  geometry, repeat composition, the nx75 anchor font and its raster laws,
  the 5×7 glyph table, print receipts, scanning),
  the contract's structural checks, git-config identity decisions, the
  shared domain records, and the two repository audits (ADR obligations,
  with the reading of their TOML registry, and crypto re-open triggers). Public `law_*` proof functions state the
  properties that span calls (round trips, maximality, consistency).
- `tests/` — the behavioural tests, run against the compiled library.
- `app/` — what stays outside the verified library: filesystem, process
  and environment access, the millimetre renderer and colour contrast
  (floating point), serde forms of the library's records, and the
  command drivers of the audits.

Outside code is reached from `src/` only through a few trusted wrappers:
the `qrcode` encoder (its segmentation length and `QrCode::with_version`)
and the `rxing` decoder (in `qr.rs`), the `toml` parser (in `registry.rs`),
and std's `String::push` and `Debug` formatting (in `text.rs`).
Values of outside types that the library only carries (paths, timestamps,
raw JSON, JSON errors, UUIDs) are declared opaque in `config.rs`, `domain.rs` and
`contract.rs`.
