# wmde-files (verified core)

The logic of the WMDE Files file manager that does not need a screen, a socket
or a bus, written in Verus with its contracts proved:

- `network_discovery`: what a LAN device is, how the mDNS (Avahi) and
  WS-Discovery findings fold into one device per address, how `avahi-browse -p`
  output is read, and the NetBIOS node-status query and its answer.
- `wsd`: the WS-Discovery Probe and WS-Transfer Get messages, ProbeMatch
  reading, the responder table, and the HTTP answer (chunked bodies included)
  that carries a device's friendly name.
- `shortcuts`, `key_bind`: the shipped key bindings and which of them each mode
  (window, desktop, file chooser) keeps.
- `thumb_budget`: whether a picture fits the thumbnail memory budget and which
  worker builds it.
- `operation::controller`: what a stored operation state means and what
  `check`, `pause`, `unpause` and dropping a controller decide on it.
- `unity`: the launcher-entry names and when a progress update is (re)sent.
- `text`, `digits`, `table`: the character-level text handling, number
  spelling and ordered table these are built on.

`app/` holds what cannot be verified: the child process, the sockets, the
threads, the atomics shared with an operation, the session bus, and the
widgets of the sidebar.
