# goose_ifc

Information-flow labels for an agent, verified with Verus.

Two observers stand side by side.

The reader-set observer labels single values with a realm and the readers that may see them.
A value that depends on others has the readers that all of them permit; what is missing or
unknown stays unknown. It records what depends on what and blocks nothing.

The FIDES middleware stands between an agent and its tools. Each session has one cumulative
label on two axes, integrity and confidentiality. Untrusted results are hidden behind variable
references while the session is still trusted. A call is checked against the tool's policy under
the label of the session and of the variables that it forwards.

## Layout

- `src/` is the library; it is verified but for the three functions listed under "Trusted".
  - `label`, `trace`, `trace_laws`, `record_json`: reader sets, the trace of values and the
    records of it.
  - `provider`, `provider_flow`, `provider_laws`, `provider_steps`: the observer of a model
    provider.
  - `fides/`: content labels, policies, references, sessions, delivery of results, the tracker,
    the quarantined model call, and the laws of all of them.
  - `sandbox`: the profile of a sandbox.
  - `json`, `json_laws`, `line`, `digest`, `text`, `table`, `views`: what the others are built on.
- `tests/` runs the library with the outside crates linked.
- `app/` writes records and events to sinks, reads configuration files, and speaks the types of
  the tool protocol and of model providers.

The library does no input or output. Records and events wait in order. `next_line` hands over
the next one as the line that it is written as, and `note_written` tells the library whether it
could be written; `take_pending` hands over all of them as values instead.

## Trusted

Each of these is a function whose contract is believed, with what is believed in its comment.

- `text::fresh_identifier`: a random identifier of `uuid`.
- `digest::sha256`: the digest of `sha2`.
- `json::quote`: the JSON text of a string, by `serde_json`.
