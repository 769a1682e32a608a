# chat_app

A chat service with login sessions and one-to-one conversations, and the
state machine of its terminal client, verified with Verus.

- `src/text.rs`: text operations (split, trim, prefixes, order of strings,
  decimal parsing) with their meaning over character sequences.
- `src/strmap.rs`: the string-keyed map, in insertion order, that holds every
  table of the service.
- `src/login.rs`: accounts, login and sessions.
- `src/message.rs`: conversations, message delivery and the received messages
  of a user; the laws of delivery.
- `src/implemessage.rs`: the first design of the message store, kept per
  sender and receiver.
- `src/client.rs`: the client's state machine.
- `src/status.rs`, `src/request.rs`, `src/json.rs`: answer statuses, request
  heads and bodies, and the JSON texts of answers.
- `app/`: the HTTP server (axum) and the terminal client (reqwest) around the
  library; `app/main.rs client` runs the client.
