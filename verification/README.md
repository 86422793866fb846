# netman-h

A NetworkManager panel for Omarchy / Hyprland, built with GTK4 and
libadwaita, that drives NetworkManager through `nmcli`.

## Layout

- `src/` — the library, verified with Verus.
  - `nm/` — the panel's requests. Each request is a function of the `nmcli`
    replies received so far that answers with the next command to run or
    with its result (`cli.rs`), together with the parsing of what `nmcli`
    prints, the types the panel shows (`types.rs`), the service that
    gathers the requests (`service.rs`) and the laws that hold of them
    (`laws.rs`).
  - `ui.rs` — what each page shows and what its buttons ask for, decided
    from a snapshot of the network state.
  - `theme.rs` — the colour file of the Omarchy theme and the style sheet
    made from it.
  - `web/` — the same requests with plain-text errors, as the web front-end
    uses them, with its colour theme.
  - `text.rs` — the text operations that the parsers are built from.
- `app/` — the program: the GTK window, the pages and dialogs, running
  `nmcli`, and reading the theme file.
- `tests/` — tests of the library on scripted `nmcli` replies.
