# spc_mqtt

A bridge between a Vanderbilt SPC alarm panel's web interface and MQTT, with
Home Assistant discovery. The panel's pages are polled over HTTP; areas, zones and
system alerts are published as Home Assistant entities; commands from Home Assistant
are turned into button presses on the panel's pages.

Layout:

- `src/` — the verified library (Verus):
  - `text` — character-level text operations (trim, find, number parsing and printing);
  - `html` — the rows of a panel table as plain values, extracted with scraper;
  - `parser` — areas, zones, alerts and panel identity from the panel's pages;
  - `model` — zones, areas, alerts and the panel state;
  - `json` — the documents that are published, written out with serde_json;
  - `discovery` — Home Assistant discovery topics and documents;
  - `config` — options and configuration;
  - `client` — the web session: URLs, form bodies, session token handling;
  - `bridge` — commands from MQTT, what they ask of the panel, and what a poll publishes;
  - `topics` — the MQTT client id, status topic and subscription filters of a session.
- `app/` — the program: command line (clap), credential files (serde), HTTP (reqwest),
  MQTT (rumqttc) and the tokio loops.
- `tests/` — tests of the library.
