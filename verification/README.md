# lanscope

Passive LAN device discovery, fingerprinting and anomaly detection, with its
decision logic verified by Verus.

## Layout

- `src/` — the verified library.
  - `common` — the event, flow-key and flow-counter types shared with the
    capture data path.
  - `datapath` — what the in-kernel capture program does with each frame:
    frame classification, flow accounting, discovery-event payload copies.
  - `decode` — DHCP, DNS/mDNS and SSDP decoders, each specified as a function
    on bytes.
  - `registry` — the device registry keyed by MAC, with its observation and
    flow-attribution rules.
  - `fingerprint` — OUI vendor table and the rule fingerprinter (the most
    confident matching rule wins).
  - `anomaly` — detector engine, its standard stack, and the new-device and
    port-scan heuristics.
  - `pipeline` — what one capture event does to the registry and which
    effects (persistence, alerts) follow.
  - `report` — the text of the `list`, `device`, `alerts` and CSV `export`
    commands and of the dashboard's device table and detail pane, and the
    most-recent-first device ordering.
  - `tui` — the dashboard snapshot (device list and bounded alert feed), its
    key map and selection movement.
  - `netfmt`, `text`, `alert`, `config`, `capture`, `features` — formatting
    and parsing helpers, alert and configuration types, the synthetic capture
    source, and the model feature names.
- `app/` — the binary: CLI, SQLite storage, the capture task, the terminal
  dashboard, the Prometheus exporter, and the floating-point volume-spike
  detector and feature extraction.
- `tests/` — tests of the library.
