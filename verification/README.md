# portwatch (verified core)

The logic of portwatch, a monitor of which processes listen on which ports,
as a Verus library whose functions are proved against their contracts.

- `src/` — the library:
  - `text.rs`: searching, splitting into lines and words, building strings;
  - `number.rs`: reading unsigned decimals as `str::parse` does, writing them;
  - `sort.rs`: stable sorting by key, with its laws (ordered, same elements,
    stable);
  - `types.rs`: `Proto` and `PortProc`;
  - `scanner.rs`: reading `ss -tulpn` and `lsof -nP -i` listings, ports,
    ordering by port, choosing the tool;
  - `signals.rs`: the curated signals, their numbers (from nix) and labels;
  - `tui.rs`: the state of the interactive view and its answer to each key;
  - `screen.rs`, `display.rs`: the texts and the plain-text table;
  - `layout.rs`: the centred pop-up window, cut by ratatui's layout solver.
- `app/` — the program: command line, running the tools, terminal drawing with
  ratatui, reading keys with crossterm, sending signals with nix.
- `tests/` — tests of the library on concrete values.
