# homelab_manager

A self-hosted home lab inventory (devices, IPv4 subnets, service ports) behind
a small web service with one administrator account. The rules of the
inventory and of the web service are a library verified with Verus; the
program around it (command line, HTTP server, database file) is ordinary Rust.

## Layout

- `src/` — the verified library.
  - `model.rs`: the records, the stored snapshot and their views.
  - `validation.rs`: every rule a snapshot must obey, as a specification
    (`validation_error`, `is_valid`) and as the checked `validate`.
  - `inventory.rs`: saving and deleting records; each change yields the new
    snapshot only when it obeys every rule.
  - `removal.rs`: deletions from an accepted inventory never break a rule.
  - `order.rs`: acceptance does not depend on the order of the records.
  - `ipv4.rs`: dot-decimal and CIDR text, network and broadcast addresses,
    usable host addresses, overlap.
  - `ident.rs`: UUID identifiers.
  - `auth.rs`: Argon2id password hashes, session tokens and their SHA-256 digests.
  - `session.rs`: cookies, same-origin and CSRF rules, the session table
    and the login throttle.
  - `api.rs`: error answers and messages, the login gate, embedded file paths
    and content types, command-line decisions.
  - `text.rs`: string helpers stated over character sequences.
  - `laws.rs`: properties of accepted inventories and of the session and
    login rules, proved over the specifications.
- `tests/` — tests of the library on concrete values.
- `app/` — the `homelab` program: clap commands, the axum server, the redb
  store and the JSON shapes of the records.

The user interface is embedded at build time from `web/dist`, which the
program's build expects to find next to `Cargo.toml`.
