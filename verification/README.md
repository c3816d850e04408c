# peer_database

A node's database of the peers that it knows: which of them it may connect to, which it may tell
others about, which it remembers and which it forgets. Verified with Verus.

- `src/` is the library.
  - `ip`, `peer_info`, `config`, `error`: the plain data.
  - `clock`: the current time, in milliseconds since the Unix epoch.
  - `order`, `selection`: ranking peers and picking them out.
  - `peer_table`: the known peers, at most one for each address.
  - `announcement`, `cleanup`: taking in announced peers, and keeping to the limits.
  - `state`: what a database holds, and what each operation does to it, as relations between a
    state, the time and the next state.
  - `peer_info_database`: the database. Each operation that needs the time comes twice: one that
    reads the clock, and one, whose name ends in `_at`, that is given the time.
  - `saver`: when changed peers are written to their file.
  - `totals`, `preservation`: what every operation keeps.
  - `laws`: what holds of the operations together.
- `app/` keeps the database in a file: it reads and writes JSON, and runs the saving task. Whether
  an address is globally reachable is decided by a function that is handed in.
- `tests/` runs the library.
