# codex_termux

Verified pieces of the Codex command-line tool as packaged for Android
Termux, written in Verus.

## Layout

- `src/` is the verified library.
  - `paths.rs`: Unix paths as bytes: components, `strip_prefix`, `join`.
  - `attachment_paths.rs`: mapping attachment paths between the client's
    `/tmp/codex-remote-attachments` and the host's temporary directory, with
    the round-trip laws.
  - `update_action.rs`: the update command for each installation method;
    quoting through `shlex`.
  - `updates.rs`: which source an installation reads its latest version
    from, when the cached answer is stale, which version is offered, and
    dismissals.
  - `agents_md.rs`: the user's instructions and the cache that decides when
    AGENTS.md discovery runs again.
  - `byte_map.rs`: a map from byte strings to byte strings, used for
    environments and headers.
  - `mcp_env.rs`: the environment of MCP server processes, local and remote,
    with the Unix and the Windows rules.
  - `headers.rs`: the default HTTP headers of an MCP client, checked through
    `http`.
- `tests/`: tests of the library, run against the real `shlex` and `http`.
- `app/`: the process-facing side: environment variables, files, network
  replies, and conversion to `HashMap`, `HeaderMap` and `serde` types.
