# EdgePacer

EdgePacer is a node agent. It finds out what logs a host has, tails files and
containers, buffers what it reads until its delivery is confirmed, and reports
what it found to a control plane.

`src/` is the verified library: what the agent decides and computes, each function
with a contract that Verus proves.

- `config` reads the control plane's configuration: directives, services,
  metrics, trace proxies, telemetry, probes, cadence and buffers.
- `discovery` reads what a scan of the host prints, gives containers their
  identities, and resolves directives to what was found.
- `cri`, `container_reader`, `ansi` take lines out of their framing.
- `buffer`, `checkpoint`, `batch_tracker` keep lines and places until their
  delivery is confirmed.
- `agent`, `census_entries`, `auth_session`, `bootstrap`, `common`, `delivery`,
  `counters` are the rules of the agent's tasks.
- `ebpf` holds the rules of the kernel's probes: which control groups may be
  captured, and what is captured of a call.
- `release_manifest` and `version` describe releases.
- `text`, `bytes`, `json`, `outline`, `digest`, `strmap`, `order`, `seqs` are what the
  rest is built on.

Calls into other crates stand behind small functions marked
`#[verifier::external_body]`; the comment above each says what it claims.

`app/` is the process around the library: arguments, files, sockets, clocks and
the loops that wait for them. `tests/` runs the library.
