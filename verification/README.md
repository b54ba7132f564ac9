# flowly_gui

The verified core of Flowly, a desktop HTTP/HTTPS debugging proxy: the
traffic store and its live feed, interception decisions, rule handling, the
system proxy takeover and restore, listen addresses, the request sender's
history, CA certificate checks and trust-store installation plans.

- `src/` is the library, written in Verus: every function carries a contract
  and is proved against it.
- `tests/` runs the library on concrete values.
- `app/` is the host side in plain Rust: files, the Windows registry, the
  trust store, serialisation for the front end, and the loops that wait on
  channels and timers. It takes every decision from the library.

The transaction store keeps the full details of a transaction while its
summary is listed or while it waits for its response (at most 500 of each),
so that no listed summary ever lacks its details; a cache that evicts by its
own policy could not promise that.
