# artisan-http

An onion-model HTTP request framework. A request is carried by a `Rocket`
through a chain of plugins; each plugin works on the carrier, hands over to
the next layer and may work again when that layer returns. At the end of the
chain a core action sends the request; a parser plugin parses the
response on the way back.

## Layout

- `src/` — the verified library (Verus):
  - `json.rs` — JSON values and key-ordered maps, with their laws;
  - `query.rs`, `xml.rs` — the form and XML packers;
  - `rocket.rs` — the carrier, its configuration and request headers;
  - `flow_ctrl.rs` — the flow controller deciding what runs next;
  - `plugins.rs`, `directions.rs`, `direction.rs` — what the built-in
    plugins and response parsers do to the carrier;
  - `ignite.rs` — the core action as a state machine;
  - `artful.rs` — the steps of one run (events around the chain);
  - `event.rs` — life-cycle events, listeners and their dispatcher;
  - `packer.rs` — the packer trait and its form and XML impls;
  - `http.rs`, `net.rs` — building the HTTP client and requests;
  - `error.rs`, `text.rs` — errors and their texts, text helpers.
- `app/` — the asynchronous side in plain Rust: the plugin and direction
  traits, the chain runner, JSON through serde, and the `Artful` entry
  point.
- `tests/` — tests of the library.
