# kalkan

The verified decision core of an AI gateway that stands between agents and a
chat model, and the server around it.

- `src/` (Verus): request routing and agent identification (`http`), the
  atomic quota reservation and payload checks as a per-request state machine
  (`gateway`), the forbidden-word inspection (`dlp`), cache keys and cached
  replies (`cache`), metering and once-only billing of the relayed event
  stream by reported token usage (`stream`), JSON string writing (`json`), the
  embedding request body (`embedding`), character-level text operations
  (`text`), and the trusted calls into `sha2`, `serde_json` and std
  (`external`).
- `app/`: the hyper server, Redis and HTTP calls, and the driver that performs
  each action the gateway asks for.
- `tests/`: behaviour of the library on concrete inputs.
