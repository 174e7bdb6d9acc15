# zellij_codex

Codex status badges for Zellij: a dashboard plugin that keeps a table of
Codex agents from their lifecycle reports and from the panes it sees, and a
tab bar that draws each tab's badge as a coloured marker.

The logic is a Verus library whose functions carry `requires`/`ensures`
contracts proved by Verus; the Zellij plugin glue around it is ordinary Rust.

## Layout

- `src/` — the verified library
  - `status.rs` — agent statuses, their words, symbols and colours
  - `text.rs` — whitespace, trimming, collapsing, truncation, numerals
  - `detect.rs` — reading Codex's screen and command lines
  - `model.rs` — tabs, panes, the pane manifest and loaded plugins as plain values
  - `idset.rs` — ordered sets of pane and plugin ids
  - `agents.rs` — agent reports and the table keyed by id
  - `dashboard.rs` — the dashboard state and the rules that keep it in step
    with reports, panes, focus and the current view
  - `sync.rs` — the status owner, report routing and de-duplication,
    snapshot publishing, configuration
  - `overlay.rs` — where the dashboard opens and the floating panes it hides
  - `events.rs` — the small decisions of the event and message handlers
  - `render.rs` — the dashboard's text
  - `tabbar.rs` — rendering a tab, its badge, its cursors; mouse clicks
  - `bar.rs` — the tab bar's state and decisions
  - `laws.rs`, `settle.rs` — properties that span several calls
- `app/` — the plugins: Zellij events in, library decisions, host calls out;
  JSON through serde. A plugin binary registers one plugin: this one
  registers the dashboard, and `app/tab_bar.rs` holds the tab bar's glue,
  which draws the tabs in order without fitting them to the width.
- `tests/` — tests of the library
