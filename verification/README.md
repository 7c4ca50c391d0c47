# sandbox

`sandbox` runs commands in a copy-on-write view of the host: every real file system
gets an overlay whose upper layer lives under the sandbox's own directory, so what the
commands change can be reviewed (`status`, `diff`), taken over (`accept`) or thrown away
(`reject`).

## Layout

- `src/` is the library, verified with Verus. It holds the decisions: how the
  configuration is layered and resolved, which mounts get overlays, how the upper layer's
  entries (whiteouts, opaque directories, redirects) become changes, how changes are
  selected by patterns, ordered and shown, how an accept is planned, what the logger and
  the sandbox's setup do. Calls into outside crates (base32, globbing, file metadata,
  extended attributes, colours, random ids) sit behind small trusted wrappers whose
  contracts say what those crates document.
- `app/` is the command-line program around the library: argument parsing, reading
  files and the environment, system calls (mounts, namespaces, `clone3`, `pivot_root`),
  and printing.
- `tests/` exercises the library on concrete values.
