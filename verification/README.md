# age_inbox_cli

A command-line client for an Age Inbox vault server: it downloads one file or
the whole vault into a destination folder (optionally deleting each file on the
server once it is completely written), and uploads one file or a folder tree
(optionally deleting each local file once the server accepted it).

The crate is a Verus project.

- `src/` is the verified library. `session` decides, step by step, what a run
  does (vault check, unlock, downloads, lock, uploads) from the outcomes its
  caller reports; `download` does the same for one file; `scan` collects the
  files of a folder tree in path order; `paths`, `urls`, `upload` and
  `disposition` compute local target paths, endpoint URLs, remote folders and
  server-suggested file names. Their contracts, and the laws proved beside
  them, state what each step does.
- `app/` is the program around it: argument parsing, HTTP requests, password
  input, file-system work and logging, performing the steps a session asks for.
- `tests/` exercises the library on concrete values.
