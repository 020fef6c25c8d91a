# vela

The core of a local assistant: an IPC server on a Unix socket that discovers
ACP agent harnesses, runs agent sessions with brokered permissions, keeps a
file-based workspace with a derived index, and routes quick captures.

## Layout

- `src/` is the library, verified with Verus. Each module states its
  behaviour in `requires` / `ensures` contracts over mathematical models:
  - `ipc`: decoding requests into commands and every refusal, the response
    and event envelopes, and the cancellable deterministic stream;
  - `session`: run numbering, how a prompt ends, and the prompt loop;
  - `permission`: the permission broker (pending queue, exact session
    grants, audit history, expiry and cancellation);
  - `capture`: normalization, classification, routing, markers, corrections
    and metrics;
  - `workspace`: path rules, reconcile planning, references and bounded
    context reads;
  - `discovery`: harness definitions, the user's configuration, probe
    outcomes, the registry and launch checks;
  - `acp`: reading an adapter's `initialize` answer, session updates and
    permission requests;
  - `protocol`, `json`, `text`, `decimal`, `order`, `harness`, `clock`:
    the version rule, a JSON model, text helpers, and the command line.
  Laws that span several calls are public proof functions named `law_*`.
- `tests/` runs the library on concrete values.
- `app/` is the `vela-core` program: sockets, files, SQLite, processes and
  the ACP connection, with every decision taken from the library.
