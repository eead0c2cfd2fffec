# dbx_desktop

The verified core of DBX Desktop, a launcher for the `dbx` command: it probes
`http://127.0.0.1:4224`, finds and starts `dbx` when nothing answers there, and
lets mobile builds connect to a dbx on the local network.

- `src/` is the library, verified with Verus:
  - `text`, `numbers`: lines, words, trimming and searching over characters;
    unsigned integer parsing and decimal rendering, as std defines them.
  - `ports`: listening ports from `netstat`, `/proc/net/tcp` and `lsof` output.
  - `http`: the probe request, when to stop reading a reply, the status code.
  - `host`: validation of a user-supplied host.
  - `process`: recognising a running dbx by its command line.
  - `paths`: where dbx is searched for and how it is started.
  - `launcher`: reported status, URLs and the start decisions.
  - `laws`: properties that span several functions.
- `app/` is the Tauri shell: process, file-system and network access.
- `tests/` exercises the library on concrete values.

`Cargo.toml` names `dirs`, `libc`, `serde` and `sysinfo`. The Tauri crates
(`tauri` 1.x and `tauri-plugin-window-state`) are not listed: their dependency
tree is larger than the package limit of this build, so `app/` does not
type-check at its `tauri` import. `dirs` is no longer used: the log goes to
the application's log directory, which Tauri resolves.
