# bettercpt

The host of BetterCPT, a desktop widget platform: plugins written in JavaScript run in
isolates and draw widgets through a separate renderer process, while a dashboard
manages them.

The decisions of the host are a Verus library in `src/`. Its functions carry contracts
that Verus proves; the one that only opens a channel (`RenderScheduler::new`) states
nothing beyond its types, and the few calls into `std`, `tokio` and `serde_json` sit
behind small trusted wrappers whose contracts say what those calls do.

- `manifest`, `permissions`, `capability`, `plugin_loader`: plugin ids, engine version
  requirements, runtime ceilings, and whether a plugin may be loaded.
- `registry`, `recovery`, `watchdog`: plugin status, crash counting and the restart
  limit, heartbeats (a check reports exactly the monitored plugins whose last heartbeat
  is overdue).
- `scheduler`, `state_tree`, `dispatch`, `host_loop`: frame-level de-duplication of
  widget commands, the widget state tree and its replay, routing of commands.
- `widget_qt`, `scripts`: the protocol with the renderer process and the scripts run
  in the isolates.
- `storage`, `window_service`, `logger`, `splash`, `settings`: plugin storage with its
  quota, utility windows, log file rotation and dates, splash geometry, settings.
- `json`, `json_text`, `ipc`, `text`, `keyed_vec`, `id_vec`: JSON values, reading and
  printing JSON text, JSON-RPC messages, text helpers and the keyed collections the
  rest is built on.

`app/` is the program around it: the tray application and dashboard, the isolates, the
renderer process, files and logging. `tests/` exercises the library.
