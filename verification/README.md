# telepathy

Clustering and remote messaging for actors, with its decisions verified by Verus.

- `src/` is the verified library: socket addresses and actor names, the
  frame codec of a connection, the member tables, the gossip and single-seed
  membership protocols (as functions from state and event to new state and
  actions), the handshake of a network interface, the registry of named
  actors, the response dispatcher and the protocols receiver.
- `app/` holds the actix actors that own sockets, the DNS resolver and the
  service registry; they hand every event to the library and carry out the
  actions it returns.
- `tests/` exercises the library on concrete values.
