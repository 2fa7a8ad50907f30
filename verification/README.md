# mdv

A small local Markdown viewer: a background daemon, bound to `127.0.0.1`,
renders Markdown files and serves them to the browser.

`src/` is the verified library:

- `cli` — the command line and what a run does with it;
- `daemon` — the protocols that start and stop the daemon, as state machines
  whose steps the program carries out;
- `paths` — paths as byte strings, read the way `std::path::Path` reads them;
- `url` — links to files and their percent-decoding;
- `history` — the recently opened files;
- `markdown` — rendering, heading anchors and the table of contents;
- `html`, `headers`, `server` — the pages, their security headers, and how a
  request for a file is answered;
- `escape`, `text` — HTML escaping, percent-encoding and character helpers.

`app/main.rs` is the program around it: arguments, files, processes and the
HTTP server.
