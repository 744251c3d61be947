# sveltum

A server for SvelteKit apps, in two parts.

The library under `src/` holds the decisions, written and proved in Verus:

- which file answers a request: the path of the request, the search through the client,
  static and prerendered content, precompressed variants (`path`, `file`, `static_files`,
  `content_encoding`, `media_type`);
- which response a file leads to: conditions, ranges, headers (`headers`, `ranges`,
  `request`, `response`, `serve`, `open_file`, `layer`);
- when a request goes to the app, and what becomes of its answer (`dynamic`, `service`);
- how the server that runs the app starts and takes in requests (`runtime`, `queue`).

What the library takes from other crates stands behind a few items whose contracts are
believed: in `header_map` for the header map of `http`, and beside their callers for dates,
ranges, percent encoding, media types, paths and wakers.

The program under `app/` reads files, sends responses and runs the app in `deno_runtime`.
It carries out the steps that the library asks for, and hands back what came of them.
