# turmoil

The core of a network simulation: hosts with addresses in virtual time, the
datagrams and stream segments that the network hands them, and the sockets by
which host software talks to other hosts. All of `src/` is verified with Verus.

- `addr`, `time`, `envelope`, `net`: addresses, instants, messages and segments
  as plain values.
- `ordered_map`, `table`: the model of an insertion-ordered map, and tables that
  keep their index in an `indexmap::IndexMap`.
- `signal`, `handshake`: wake-ups over a `tokio` semaphore, and the
  acknowledgement of a connection over a `tokio` oneshot channel.
- `tcp`, `host`, `world`, `listener`: the stream sockets of a host, a host, all
  hosts, and the socket server.
- `laws`: what holds of these together, such as that datagrams of a peer are
  received in the order of their delivery.

`app/` holds what surrounds the core: the world of the current thread, the
network topology, name resolution and logging as traits, and a socket server to
await on.
