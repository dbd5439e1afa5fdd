# pi_web

The rules behind a browser front end for a coding agent, written in Verus
and verified: which paths may be served, how API routes and command
arguments are read, how unified diffs become side-by-side rows, how the
`@` file completion ranks entries, how git status and worktrees are
reported, how `models.json` is cleaned and turned into the model picker,
what the files endpoint answers, how sessions are summarised, renamed and
exported, and which agent events reach the browser.

## Layout

- `src/` — the verified library. Every public function states what it
  returns in `ensures`; laws that relate several functions are public
  proof functions named `law_*`.
  - `api/` — routes, command arguments and answers, the agent RPC,
    sessions, files, the model picker, worktrees, the export page.
  - `file/`, `fs/`, `git/`, `http/` — paths and file kinds, allowed roots
    and uploads, git status and diffs, request limits.
  - `json.rs` — the JSON model that contracts are stated over.
  - `diff.rs`, `auth.rs`, `compaction.rs`, `paths.rs`, `text.rs` — patch
    parsing, basic auth, compaction summaries, path resolution, text.
- `tests/` — tests that run the library on concrete values.
- `app/` — the host glue: file system, git processes and `serde_json`
  conversion around the library's functions.

Calls into `regex`, `sha2`, `base64` and a few std functions stand behind
small trusted wrappers whose doc comments say what is assumed of them.
