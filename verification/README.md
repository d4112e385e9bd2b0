# bt_player

A small streaming service for BitTorrent magnet links, HLS playlists and web
pages that embed a video: a user pastes a link, the service finds something
playable behind it, lists the files, and serves them with HTTP range support.

## Layout

- `src/` — the library, verified with Verus. It holds every decision the
  service makes: which resolver handles a link and what its answer means
  (`resolver/`), where a web page hides its video (`resolver/webpage.rs`), the
  trackers added to magnet links and the checks on downloaded file locations
  (`engine.rs`), the answers of the HTTP API, byte ranges and access control
  (`api.rs`), the ad heuristic on file names (`ai_strategy.rs`), settings
  (`config.rs`) and the export worker's choices (`db.rs`). `text.rs` holds the
  string functions these are built from; `deps.rs` the contracts assumed of
  std, `url`, `urlencoding`, `scraper` and `regex`.
- `app/` — the program around it: the librqbit session and its HTTP server,
  SQLite storage, the axum routes, page fetching with reqwest, and `main`.
- `tests/` — tests of the library.
