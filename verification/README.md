# seaki

Local file sharing between devices on the same network, written in Verus.

`src/` is the verified library:

- `text` — characters, decimal and hexadecimal text, splitting and joining.
- `ip` — parsing and canonical formatting of IPv4 and IPv6 addresses, with
  round-trip laws.
- `platform` — the trusted calls into outside crates (random identifiers,
  the clock, the host name, SHA-256, hex encoding, MIME type guessing).
- `network` — the same-network rule that guards the file server, the scan
  plan for discovering peers, and how a probed or announced peer becomes a
  device.
- `store` — the server's table of uploaded files.
- `server` — request routing and the handling of uploads, downloads,
  connection requests and file transfer requests.
- `client` — the steps of sending a file to a peer and of fetching one, as
  a state machine that the caller drives.
- `commands` — the application's state: running flag, known devices,
  pending requests and their approval.

`app/` holds the unverified shell around it: the HTTP server and client,
mDNS discovery, disk access, and the command entry points.

`tests/` exercises the library on concrete values.
