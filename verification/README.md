# launchpi

The verified core of a daemon that drives Stream Deck surfaces over the
network and fills their keys from plugin instances (Home Assistant, Discord,
media players, Prometheus, HTTP polls, a clock and timers).

Everything under `src/` is Verus: each public function carries a contract over
spec-level models (`Seq`, `Map`, `Set`, views of the crate's types), and the
properties that span several calls are stated as public proof functions named
`lemma_*`.

## Layout

- Values and templates: `template` (`$(instance:name)` references), `resolve`
  (a control with every binding replaced), `index` (which keys show which
  value), `ledger` (what each key was last sent).
- Plugins: `instance`, `manifest`, `preset`, `presets`, `plugin`, `catalogue`,
  `engine` (the table of loaded instances),
  and one module per integration: `hass`, `hass_protocol`, `hass_session`,
  `discord`, `gateway`, `roster`, `mpris`, `prometheus`, `http`, `system`.
- Surfaces: `panels` (the panel model), `surfaces`, `registry` (devices,
  panels, subpanels, held keys, dial rings, logs), `inventory`, `gestures`,
  `feedback`.
- Stream Deck devices: `discovery`, `wire` (Cora framing and reports),
  `connection` (what a report changes in the registry), `streamdeck`
  (identity replies, models, layouts, pixel work), `key_image` (background
  canvas and JPEG encoding).
- Shared helpers: `text`, `identifiers`, `order`, `numbers`, `json`, `keyed`,
  `time`.

## Outside crates

`jpeg-encoder` encodes key faces and `toml` carries configuration values; each
call into them goes through one trusted item whose contract is stated beside
it. Reading sockets, files and clocks, drawing labels with `ab_glyph`, and
whatever works on floating point (published numbers, colour conversions) are
left to the program around the library; `app/` holds those pieces: the JSON
bridge, key labels, the value store and the device writes.

## Checking

`tests/` holds ordinary Rust tests that run against the compiled library with
the real outside crates linked.
