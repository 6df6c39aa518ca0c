# flowstation

The verified core of a software TETRA base station, written in Verus.

- `src/` is the library. Every function is proved against its contract except nine small
  trusted wrappers around outside code, whose contracts are believed: `md5_compute`
  (`md5::compute`), `base64_encode` (base64's standard encoder), `parse_disk_object`
  (`serde_json::from_str` of the saved callsign file), `new_session_id`
  (`uuid::Uuid::new_v4`), `system_now`, `since_unix_epoch` and `duration_subsec_nanos`
  (the system clock), `ascii_to_string` (`String::from_utf8`) and `lowercase_str`
  (`str::to_lowercase`). The modules:
  - `registry` — subscribers, their group affiliations and the shared stack state;
  - `mm` — mobility management: location updates, attach/detach of groups, energy
    saving grants, status requests, with the messages it sends and the updates it
    publishes;
  - `cc` — call control's tick (maximum call duration, setup timeout and retries, the
    energy-economy hold of setup resends, hangtime, the circuit manager's resend and
    forced-close tasks) and uplink inactivity;
  - `sds` — short data: status and text payloads, SDS-TL reports and references, local
    and Brew delivery plans, deferral around traffic, remote commands by status;
  - `brew` — the bridge to the Brew backhaul: calls, circuits, voice, subscriber sync and
    the worker's command handling;
  - `umac` — uplink defragmentation buffers;
  - `websocket` — HTTP digest authentication, endpoint discovery and heartbeat;
  - `chars` — Unicode trimming, splitting and lowercasing of strings;
  - `radioid` — the callsign cache policy and the reading and saving of its entries;
  - `tdma`, `bits`, `text`, `text_ops`, `telemetry` — time, bit buffers and byte/string
    helpers.
- `app/` holds what talks to the outside world and is available here: the WebSocket
  transport (sockets, TLS, HTTP discovery), the radioid.net callsign worker (thread, HTTP, and
  reading and writing its file) and the host sensor sampler (files, commands, floating point). They call the
  library for their decisions.
- Not present: the runtimes that drive the library's call-control tick, SDS and MM
  handlers and Brew worker in a running stack. They need the protocol codecs (the TETRA
  PDU encodings and the Brew wire format) and the stack's message router, which are not
  part of this project; the library takes and returns their messages as plain values.
- `tests/` runs the library on concrete inputs.
