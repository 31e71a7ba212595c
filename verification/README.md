# agentbox

Self-hosted sandboxes for AI agents: a host daemon hands out Firecracker
microVMs from a warm pool, and an agent inside each VM runs commands and
touches files under `/workspace`.

- `src/` is the verified library (Verus). It holds the decisions: path
  validation, the wire framing, API-key checking, request defaults, the warm
  pool's books, the sandbox and port-forward registries, the WebSocket
  session state machine, the guest agent's request handling, the Firecracker
  boot plans and host networking commands, and the error messages.
  Laws that relate several operations are proof functions named `law_*`.
- `tests/` runs the library on concrete values.
- `app/` is the program around it: the `agentbox` command line and daemon
  (HTTP with axum, the Firecracker API, vsock I/O, process management) and,
  when started as `guest-agent`, the agent inside each VM.
