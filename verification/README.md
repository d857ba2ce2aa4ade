# downer

`downer` downloads media with FFmpeg, from the command line or for a browser
extension through native messaging. This crate holds its rules as a library that
Verus verifies, and a thin program around it.

## Layout

- `src/` is the library. Every function states in its contract what it returns.
  - `text`, `paths`, `web`: strings, paths, and URLs with the few outside calls on
    them.
  - `output`: URLs that can be fetched, file names, and what happens at a path.
  - `scraper`: pages, master and media playlists, headers and cookies.
  - `probe`, `discovery`: how long a stream is, and what a source offers.
  - `ffmpeg`: FFmpeg's arguments, its progress and its output, and its control.
  - `download`, `session`: one download, step by step.
  - `native`: requests and answers of the native messaging host.
  - `host`, `diagnostics`: registration with the browser, and checks of a setup.
  - `failure`, `redact`, `hostlog`, `error`: what is said, and what is not.
  - `cli`: what a command line asks for.
- `tests/` runs the library.
- `app/` is the program: arguments, files, processes, HTTP, and JSON.

## How the two meet

The library does no input or output. Where a decision depends on the world, a
value of the library says what to do next, and the program hands back what came
of it: `session::Step` for a download, `probe::Next` for a playlist,
`native::JobSlot` for the host.

Proof functions whose names begin with `law_` state what holds across functions:
that a log line keeps no query of a URL, that a cancelled download stays
cancelled, that a file name stays in its directory, and so on.

The calls into `url`, `percent-encoding` and `regex` stand in `web` and `scraper`
behind functions marked `#[verifier::external_body]`, each with a comment on what
is taken on trust. Durations of segments are floating point and are read in
`app/`.
