# protohackers

Five small network services and an echo server, with their decision logic
verified in Verus.

- `src/` — the verified library: primality answers (`prime`), the
  price-history session (`prices`), the chat room's seats, roster and
  message routing (`chat`), the key-value store (`kv`) and the address
  rewriting proxy (`proxy`), plus shared text and regex helpers (`text`,
  `pattern`).
- `app/` — the servers themselves (tokio sockets, JSON parsing, logging);
  run with the service name as the first argument.
- `tests/` — tests of the library's functions on concrete inputs.
