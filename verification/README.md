# adguard

Logic of a plugin that drives an already-running AdGuard Home instance over
its `/control/*` REST API (DNS rewrite CRUD plus a status read, HTTP Basic
auth), written in Verus with its contracts proved.

- `src/base64.rs`: standard base64 for the Basic credentials, with its
  length, concatenation and injectivity laws.
- `src/config.rs`: connection settings, the `authorization` header value and
  the joining of `/control/<route>` onto the base URL.
- `src/api.rs`: rewrites, status, errors, classification of HTTP replies and
  the plan of the idempotent rewrite upsert, with its laws over AdGuard's
  rewrite table.
- `src/backend.rs`: what the service backend declares (runtimes,
  capabilities, default port, data paths).
- `app/`: the plugin binary: HTTP calls, JSON, the tool surface and the
  service-backend registration, on top of the library.
- `tests/`: scenarios run against the compiled library.
