# kuriume

The verified core of Kuriume, an anime browsing and playback application:
the parsing, naming and decisions of its data sources, online sources,
media cache, streaming server and player settings, proved against
contracts over mathematical models (`Seq<char>`, `Map`, `Set`, `int`). The
window, player, graphics and torrent-session code of the application is not
part of it.

## Layout

- `src/` — the library, every function of it verified:
  - `text.rs`, `numfmt.rs`, `order.rs` — text search, slicing, trimming and
    replacing over `Seq<char>`; decimal, hexadecimal and UTF-8 notation; the
    order of strings and sorted lists of distinct names.
  - `markup.rs` — tag and attribute scanning shared by the feed parsers.
  - `mikan.rs`, `dmhy.rs`, `nyaa.rs` — the torrent sources: their pages and
    RSS feeds, magnet links, sizes, and grouping by release group.
  - `torrent_provider.rs`, `registry.rs` — the torrent records and the
    registry of sources by name.
  - `bangumi.rs`, `models.rs` — the Bangumi API's requests and records.
  - `html.rs`, `rule.rs`, `online.rs`, `sniff.rs` — online sources: the rule
    model, page scraping through the `scraper` crate, the registered rules,
    and the choice of the page the video sniffer loads.
  - `store.rs`, `paths.rs` — settings, watch status, and the names and places
    of cached episode files.
  - `server.rs`, `torrent.rs`, `frame.rs`, `render.rs` — the streaming
    server's `Range` handling, the torrent engine's tracker and source
    decisions, the frame server's wire format, and the render loop's resize
    and draw decisions and opaque pixel copy.
  - `shaders.rs`, `power.rs`, `errors.rs` — Anime4K shader chains, the
    display-sleep guard, and the error types with their messages.
- `tests/` — tests of the library on concrete values.
- `app/` — a command-line front end that performs the network, database and
  file work and hands what it reads to the library.

Calls into `scraper`, `regex`, `url` and `std::path` stand behind small
trusted functions whose contracts name what those crates compute.
