# rin

Message types and node bookkeeping of Rin, a publish/subscribe framework for
robotics built on zenoh, with their behaviour specified and proved.

- `src/` is the verified library: the streamed message types and their
  stepping and metrics (`msg`), the trace context that travels with a
  message and the JSON configuration of a session (`node`), decimal text of
  counters (`decimal`), the transforms and callbacks that the sample nodes
  plug in (`handlers`), the topic registry of the WebSocket bridge (`bridge`)
  and the command-line defaults (`args`).
- `app/` holds what talks to the world: zenoh sessions, publishers and
  subscribers, serde's wire form of the messages, OpenTelemetry export, the
  state database and the WebSocket server and client.
- `tests/` runs the library on concrete values.
