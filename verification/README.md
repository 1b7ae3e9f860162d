# tedge-dot SDK

The runtime of an OT connector: it reads the points of devices on a schedule or has them pushed,
publishes samples, link status and health over MQTT, and acts on commands. Protocol modules stay
small; the contract behaviour is here.

`src/` is the library, verified with Verus. It does no I/O. It holds

- `clock`, `config`, `model`: spans of time, the configuration, and what points and reports are;
- `schedule`, `reconnects`, `samples`, `links`, `session`, `round`: what is read when, which devices wait
  for their transport, how samples are numbered, and what is published of a link;
- `commands`, `capabilities`, `message`: which commands are acted on and how they are answered;
- `management`, `document`, `toml`: changing the configuration document by request;
- `descriptor`: device parameters and their Digital Twin Manager definitions;
- `json`, `pairs`, `text`: what the rest is built on.

Functions named like sentences (`a_point_is_scheduled_unless_it_is_subscribed`,
`merge_is_idempotent`) are the laws: proofs of what holds across functions.

What is not proved is what the contracts say of `serde_json` (in `json`), of `toml_edit` (in
`toml`) and of a few functions of std (in `clock`, `descriptor` and `text`). Each such item tells
in its comment what it claims.

`app/` is the part that awaits: the broker, the clock, the configuration file and the protocol
module's calls. `tests/` runs the library with the outside crates linked.
