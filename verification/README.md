# hamesh

A peer-to-peer TCP/UDP tunnel over UDP hole punching. Two peers meet through a rendezvous
server, open a UDP path to each other, exchange the ports they forward, and then carry TCP and
UDP traffic of local programs over that path.

```
hamesh p2p <ip_version: ipv4|ipv6> [--inbound <host_port>:<remote_host_port>/<protocol: tcp|udp>...] [--outbound <host_port>:<remote_host_port>/<protocol: tcp|udp>...]
```

## Layout

- `src/` is the library, written in Verus and verified: the control datagrams and their
  fragmentation and reassembly, the handshake, the exchange of forwarding settings, the
  routing of received datagrams, the in-order delivery of forwarded data, the command line,
  and the forms and statuses of the desktop front end. Each public function states its result
  in its contract; the `law_*` proof functions state what holds across calls.
  Calls into `base64`, `sha256` and `regex` go through small trusted wrappers whose contracts
  say what those crates compute.
- `app/` is the program around it: sockets, timers, tasks, the HTTP/3 client of the rendezvous
  server, and the JSON forms of the messages.
- `tests/` runs the library on concrete values.
