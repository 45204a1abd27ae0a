# openshell

Verified logic for sandbox policies, gateway fleets and supervisor sessions.

`src/` is a Verus library. What each function does is stated in its contract and proved.

- `merge`, `merge_model`, `merge_types`, `merge_laws`, `policy`: merging operations into the
  policy of a sandbox, and asking whether a policy holds a rule.
- `gateway_fleet`, `gateway_channels`, `fleet_dns`, `supervisor_fleet`, `endpoint_path`: which
  gateway replicas serve a sandbox, and how sessions to them are held.
- `supervisor_session`, `supervisor_flow`, `session_liveness`, `session_laws`, `status`: the
  supervisor sessions of a replica, the relays that wait for them, and the liveness rows that
  replicas share.
- `identity`, `secrets`, `docker`, `podman`, `unsupported`: process identities, redaction of
  secrets, and driver configuration.
- `text`, `order`, `values`, `string_map`: texts, orders, lists and maps that the rest uses.

Calls into other crates stand behind a few trusted functions, each with a comment that says
what is claimed of it.

`app/` is ordinary Rust around the library: the network, the store, the environment and the
tasks. `tests/` runs the library.
