# pulse_gateway

The routing core of a desktop gateway that puts local Docker containers behind
a Caddy reverse proxy under wildcard HTTPS subdomains, verified with Verus.

## Layout

- `src/` — the verified library.
  - `routing.rs`: which containers are routed, on which ports (label, then
    image rule, then exposed ports), under which sanitized subdomain, and how
    name collisions are resolved (`-2` … `-100`, then a time-derived suffix).
  - `caddy.rs`: the Caddy configuration built from the routes, the target-host
    translation, the DNS-challenge settings and the certificate report.
  - `docker.rs`: container facts read from Docker, the Caddy container's
    environment, when it must be recreated, and Docker error messages.
  - `watcher.rs`: what a Docker event means, what a started container needs,
    which routes a stopped container takes away, and the bounded event log.
  - `settings.rs`: edits of static routes, route rules, environment keys and
    general settings.
  - `credentials.rs`: secrets in the system keyring with a fallback map
    (written to a file by the app). The keyring crate is built with its
    platform stores: the macOS Keychain, the Windows Credential Manager, and
    the Linux kernel keyring (keyutils, held in memory until reboot). A
    value goes to the fallback map whenever the keyring does not take it and
    read it back.
  - `string_map.rs`, `text.rs`, `clock.rs`, `models.rs`: supporting types and
    string and time helpers.
  - `laws.rs`: properties that span several functions, proved.
- `tests/` — tests of the library on concrete values.
- `app/` — the desktop shell: Docker, HTTP and file I/O, the event loop and
  the UI commands. It acts on what the library decides (what to do with a
  started or stopped container, how to create Caddy's container, when to
  stop polling its admin API, what to do with a saved value) and converts
  between the library's values and those of Docker, HTTP and JSON.
