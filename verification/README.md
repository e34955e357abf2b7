# codex_plus_core

The verified core of Codex++'s enterprise login: how the managed Codex
configuration block is written and removed, how `auth.json` is cleaned, how the
launcher's answers and errors are read, which models and identity a provisioned
profile gets, how an expired session is renewed, and the protocol logic of the
image-generation MCP helper. The functions in `src/` carry contracts that
Verus proves, except the wrappers in `src/outside.rs`: each of those makes one
call into std or an outside crate, and its contract is believed, not proved.

Layout:

- `src/text.rs`, `src/json.rs`: text and JSON values with their mathematical meaning.
- `src/error.rs`: the error model and the failure classification shown to the manager.
- `src/profile.rs`: gateway policy, model list, identity and default-model preferences.
- `src/managed_config.rs`: the managed block in `config.toml`; `src/config_laws.rs`
  proves that writing and removing the block gives the configuration's settings back.
- `src/auth.rs`: removing an enterprise `OPENAI_API_KEY` from `auth.json`.
- `src/login.rs`, `src/session.rs`: login mode, launcher requests, and the session
  renewal state machine.
- `src/image_mcp.rs`: JSON-RPC handling and image request/answer processing.
- `src/outside.rs`: the trusted calls into `base64`, `toml`, `toml_edit`, `reqwest`'s URL
  parser and std.
- `app/`: files, the OS credential store (Credential Manager, Keychain, Secret
  Service), HTTP, and the helper's stdio loop.
