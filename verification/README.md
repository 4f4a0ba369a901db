# cricket

The library behind Cricket, a desktop application that sends files with croc and keeps
chats, offers and delivery receipts in private GitHub repositories. The library is written
in Verus: each function carries a contract, and the properties the application relies on
are proved.

## Layout

- `src/` — the verified library.
  - `model.rs`: chats, offers, status events, and the per-recipient delivery state replayed
    from a transfer's history.
  - `delivery_laws.rs`: what every history guarantees (forged receipts are ignored, a
    receipt is final, only the sender rotates codes, time only expires, ...).
  - `storage.rs`, `store_laws.rs`: the device's local state and its operations.
  - `recovery_laws.rs`: after a restart, interrupted deliveries show as failed, and
    recovering again adds nothing.
  - `jobs.rs`: the running deliveries, at most ten and one per delivery.
  - `service.rs`, `service_laws.rs`: the decisions of send, receive, retry, sync and sign-out.
  - `github.rs`, `cache.rs`: paths, limits and bodies of the GitHub exchange; the tagged cache.
  - `croc.rs`, `version.rs`: codes, command lines, output classification, the version gate.
  - `selection.rs`: the rules a selection of files must pass.
  - `contacts.rs`: saved people, derived from chats and remembered when a chat is created.
  - `auth.rs`, `agent.rs`: device sign-in polling; who may call the local agent.
  - `text.rs`: text helpers with their specifications.
- `tests/` — tests of the library on concrete values.
- `app/` — the application around the library: Tauri commands, HTTP, processes, files.
