# portpeek

A port inspector: which ports are in use on this machine, and which
processes own them. The library under `src/` holds the logic, verified with
Verus; `app/` is the command-line program around it.

## Layout

- `src/text.rs` — text primitives with exact specifications: lines and
  whitespace fields, unsigned number parsing (`from_str_radix` semantics),
  decimal formatting, substring search, trimming, UTF-8 widths.
- `src/iptext.rs` — IP address text: the grammar that std's `IpAddr`
  parser accepts, and the text its `Display` writes (RFC 5952 for IPv6).
- `src/model.rs` — protocols, connection states, bind addresses, the
  `/proc/net` address pairs, well-known service names, `PortEntry`.
- `src/cli.rs` — the command line's values and the `START-END` range parser.
- `src/lib.rs` — the filters (state, port, range, process name).
- `src/scanner/` — what each platform's socket listing reads as: `/proc`
  files and descriptor links (Linux), `lsof -F pcn` output (macOS), IP
  Helper table rows (Windows); the stable sort by port and the dropping of
  repeated sockets.
- `src/process.rs` — which processes `kill` targets, the confirmation
  answer, the URL `open` shows.
- `src/render/` — the table's cells, warnings and summary; JSON output;
  watch mode's decisions.
- `app/` — reading files and running `lsof`, process names (sysinfo),
  prompts and signals, the terminal loop (crossterm), JSON (serde), clap.

Calls into std or outside crates that Verus cannot read stand behind small
trusted wrappers whose contracts say what the documentation promises.
