# castcodes

The core logic of the CastCodes workspace, written in Verus: the verifier
checks every function in `src/`, and the library's operations state what
they return in contracts that it proves.

- `src/markdown/` — the block-based markdown document model: tokenizer,
  inline parser, block parser, serializer, document operations, and the
  round-trip laws between parser and serializer.
- `src/browser/` — browser-pane navigation history and address-bar
  resolution (URLs versus web searches).
- `src/lsp.rs` — the supported language servers, their commands, and which
  installation of a server binary is used.
- `src/substrate.rs`, `src/sessions.rs` — the workspace context sent to the
  agent gateway, the session cache, and the gateway's endpoint addresses.
- `src/themes/` — theme slugs, the reading of tweakcn CSS exports, and the
  import dialog as a state machine (state, action, and the work it asks of
  its host).
- `src/file_tree/` — the ordering of file-tree entries and the decisions of
  the tree's inline create/rename editor.
- `src/text.rs` — character-sequence helpers shared by the modules above.

`app/` holds what the verifier does not see: file-system and process access,
process-wide shared state, the floating-point color conversion of the theme
importer and the disk work of its dialog, and serde forms of the library's
types.

Tests under `tests/` run the library against concrete inputs.
