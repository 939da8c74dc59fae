# cerberus_flex_gateway

The core of a gateway policy that observes HTTP traffic and reports it as
sanitized events, written in Verus.

- `src/` is the library. Every function in it is verified against its contract;
  the calls into outside crates stand behind small wrappers whose doc comments
  say what is believed of them. The laws of the library are the public proof
  functions whose names begin with `law_`.
- `app/` is the policy around it: the gateway's entry points, the HTTP client,
  the configuration and the events as they stand on the wire.
- `tests/` runs the library on values.

| Module | What it holds |
|--------|---------------|
| `request`, `response` | from what was read off the proxy to an event |
| `sampling`, `sampler`, `sample_rate` | which requests are kept, by key or by coin |
| `path_filter` | glob allowlist and denylist |
| `response_capture` | a bounded copy of a body that streams past, and server-sent events |
| `sanitize`, `pii_rules`, `pattern`, `headers`, `query` | what ships, scrubbed |
| `hash`, `ip`, `source_ip` | pseudonyms and addresses |
| `ai_content` | prompts and model output |
| `policy`, `config`, `delivery`, `queue`, `event`, `timestamp` | set-up, batches and the event itself |
| `json`, `groups`, `text` | values and text |

Sampling rates are IEEE 754 doubles, held as their bits: thresholds and draws are
computed on integers and are exact.
