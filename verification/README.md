# remote_executor

Tools that read, search, patch and run things on a machine, and a caller that
routes tool calls to any number of such machines. The rules of all of it are a
library that Verus verifies; the programs round it do the input and output.

## Layout

- `src/` is the verified library.
  - `tools/` has the tools: `fs` (read, stat, glob), `rg`, `file_action` and
    `exbash`; `fs_ops` and `exec` answer with titles, and `stdio` is the bridge
    that calls them.
  - `patch/` and `edits` apply hunks of lines and bytes; `shape` keeps the byte
    order mark and the line ends of a text; `diff` reads and makes unified diffs.
  - `executor`, `caller`, `mcp`, `websocket`, `shell_manager` and `file_transfer`
    decide what becomes of requests, messages and connections.
  - `settings/` merges settings files and finds shells.
  - `json`, `text/`, `bytes`, `paths` (in the plain and in the Windows style),
    `order`, `table`, `hash`, `hex` and `globs` are what the rest is built on.
- `tests/` runs the library on concrete values.
- `app/` has the programs: `executor`, `caller`, `mcp`, `bridge` and `stat`.
  Terminals come from `pty-t`, whose crates `app/pty.rs` expects beside this one.

## What is proved

Every function of the library says in its contract what it returns for every
input, errors and their words included. Beside the contracts stand laws, public
proof functions named `lemma_..`: edits touch nothing but their ranges, a patch
moves lines without losing any, hunks may be listed in any sequence, pages of a
file show every line once, every setting comes from the topmost layer that sets
it, settings follow their files, a hash that was told opens the file it was told
of, one write runs at a time, a registered client is dropped by its own
connection alone.

What other crates compute is trusted: SHA-256 (`sha2`), globs (`globset`),
regular expressions (`grep-regex`), unified diffs (`diffy`), JSON text
(`serde_json`), shell words (`shell-words`), escape sequences (`unescaper`) and a
few functions of std. Each
such call stands in a small function whose comment says what it claims.
