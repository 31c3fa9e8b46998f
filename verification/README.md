# kid_phone_server

The logic of a self-hosted parental-control server for managed Android phones,
written in Verus: every function of the library has a contract, and Verus has
proved it.

- `src/` is the library. `security`, `schedule` and `dns_engine` hold what the
  server decides by itself: codes, tokens and passwords, when backups and
  updates are due, and which domains are blocked. `handlers/` holds what it does
  for each page and for the phones. `text`, `numbers`, `order`, `packing` and
  `forms` are what these are built from. `outside` holds the calls into other
  crates, the only contracts that are taken on trust.
- `app/` is the program around it: the web server, the database, the file
  system and the network.
- `tests/` runs the library.

Functions whose names start with `law_` state what holds of several functions
together, such as that a schedule that was saved is the one that is loaded.
