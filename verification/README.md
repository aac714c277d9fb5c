# wirepf

A one-to-one IPv4 NAT daemon for Linux traffic control, with a command-line client.

`src/` is the verified core:

- `packet` — what the ingress, egress and stand-alone SNAT classifiers decide for a
  packet: where its IPv4 header is, which address is rewritten to what, and which
  checksum updates go with the rewrite.
- `tables` — how a DNAT mapping is written into the classifiers' tables (the ingress
  table and its egress mirror), with the round-trip laws.
- `config`, `api`, `invariants` — the daemon's configuration and its REST API's
  decisions, and the invariant that every accepted request keeps.
- `client`, `cli`, `settings`, `output` — the client's requests, its settings and what
  it prints.
- `addr`, `text`, `dto` — addresses, number and string formatting, and the API's values.

`app/` holds the programs around it: the HTTP server and client, kernel attachment and
map updates, files, and the command line.
