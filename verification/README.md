# scion_router_proto

A SCION router prototype, verified with Verus.

- `src/` is the verified library: reading SCION headers (`scion`), the
  per-packet forwarding decisions and counters (`dataplane`), the interface
  table filled by beacons (`iface`), the routing table (`routes`), the answers
  of the control-plane API (`http_api`) and number rendering (`text`).
- `app/` is the program around it: command line, UDP sockets, the HTTP server
  and JSON.
- `tests/` runs the library on concrete packets and tables.
