# xkk_server

The verified core of the XKK game server cluster, written in Verus.

`src/` holds the rules of the five services, each proved against its contract:

- `session`: a Gate's client sessions — wrapping sequence numbers, the
  resumable outbox, reconnect and request rate limits, and the per-player
  session store.
- `gate`: a Gate's request rules and the login/reconnect flow, one step per
  piece of outside work.
- `runtime`, `run`, `persistence`, `player`: the Logic runtime's admission
  limits and per-player mailboxes, the dirty-slot accounting, the steps of one
  call (load, dirty slot, preload, logic, save), and a player's inventory.
- `mail`, `players`: the Public mail rules (list, read, delete, claim, send)
  and the claim flow; the player cache limits.
- `query`: gamer-id lists and the order of answered profiles.
- `auth`, `ids`, `status`: login and role requests, Gate room and the login
  queue, Gate endpoints, and the role-request flow.

Laws that relate several functions are public proof functions named `law_*`.

`app/` runs these rules inside a process (Tokio tasks, locks, clocks) and
declares the outside work of each flow as a trait; `tests/` exercises the
library on concrete values.
