# rocm

The verified core of the `rocm` command line tool: what it decides, and the texts
it shows, stated in contracts and proved with Verus.

- `src/` is the library. `remote/` serves models on other machines of a tailnet,
  over a transport that records what was asked and answered. `storage/` reports disk
  use and plans what may be removed. The modules beside them hold the rules for
  ports, running servers, deployment summaries, progress lines, the dashboard's
  launch, watchers, uninstalling, logs and keys.
- `tests/` runs it on concrete values.
- `app/` is the program around it: arguments, files, processes and the terminal.

Functions whose names begin with `law_` state what holds of several functions
together.
