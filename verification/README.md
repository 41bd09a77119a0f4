# fresh_view

Display-line construction and the settings screen of a terminal text editor,
written in Verus with their contracts proved.

- `view_pipeline`: turns a stream of view tokens into display lines (tabs
  expanded, each character mapped to its source offset and style) and decides
  which lines show a line number.
- `json`, `schema`, `controls`, `settings_items`: the configuration values, the
  settings schema, the state of each control, and the setting items and pages
  built from schema and configuration, with their heights and focus regions.
- `settings_layout`, `control_layout`, `dialogs`: where every part of the
  settings modal goes and which texts it shows, down to the rows of list
  controls scrolled partly out of view and the two dialogs over the modal.
- `decorations`: the file explorer's decoration cache (a symbol per path,
  bubbled up to the folders above it).

`app/` holds what Verus does not see: conversions from and to `serde_json` and
`ratatui` values, file-system path resolution, and painting the layout into a
`ratatui` frame.
