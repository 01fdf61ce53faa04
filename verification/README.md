# Warp

Warp is a download manager. It cuts a file into byte ranges, fetches them side by side, halves the
largest range for a worker that has nothing to do, and takes up an interrupted download from its
last snapshot. It keeps a queue with priorities, schedules, speed limits and checksums, fetches HLS
streams, and shows its work on the command line, in a terminal, in a window and over HTTP.

- `src/` is the library: what Warp decides and computes, with contracts that Verus proves. Each law
  of the library as a whole stands there as a public proof function whose name begins with `law_`.
- `tests/` runs the library on concrete values, together with the crates that it calls.
- `app/` is the program: arguments, files, the network, the database and the screens.

| Module | What it holds |
| --- | --- |
| `download` | ranges, the plan of a download, transfers, snapshots, probing, speed limits |
| `download_registry` | the queue and its rows |
| `pipeline` | which downloads a run takes up, checksums, what follows a download, schedules |
| `hls`, `stream`, `wire` | playlists, the segments of a stream, binary snapshots |
| `cli`, `daemon`, `ui`, `gui` | what the commands, the HTTP interface and the screens do |
| `interceptor` | requests in captured packets, filters, signs of a stream |
| `metrics`, `types`, `clock` | counts by host, the entries and settings, the present time |
| `text`, `scan`, `number`, `float`, `speed`, `path`, `table`, `utils` | texts, numbers and paths |

A doc comment above each trusted function says what it claims of the crate that it calls.
