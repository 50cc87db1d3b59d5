# egrex

A local SOCKS5 forwarder that rotates connections through a pool of
upstream SOCKS5 proxies, found through the FOFA search API and kept healthy
by periodic checks.

- `src/` is the library, verified with Verus: the host lists and pool files,
  the online and candidate pools with their check cache and rotation, the
  upstream selection, the SOCKS5 client exchange, health-check attempts,
  configuration (defaults, stored form, `set`, reload), the FOFA query, URL
  and paging, daemon decisions, traffic totals and the status display.
- `app/` is the `egrex` program around it: command line, runtime files,
  network I/O, background process and the async tasks.
- `tests/` exercises the library on concrete values.
