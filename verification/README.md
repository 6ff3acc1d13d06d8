# anime_dl

A command-line tool that searches anime providers, lists episodes, finds their
HLS streams and downloads or plays them.

The crate is split in two:

- `src/` is the library, written in Verus. It holds the logic of the tool with
  its contracts: episode-range parsing and selection, deduplication and sorting
  of episodes, the configuration file's fields, HLS playlist handling (parent
  URLs, extensions, variant streams), the provider pages and API responses
  (search results, episode lists, stream links), the extractor plan and the
  terminal and self-test reports. Calls into `regex`, `scraper`, `url`,
  `urlencoding`, `base64`, `cookie` and `cruet` go through the wrappers in
  `src/bridge.rs`, whose contracts are trusted.
- `app/` is the program around it: argument handling, HTTP requests, the
  configuration file on disk, prompts, tables, spinners and the external
  players and downloaders.

`tests/` runs the library on concrete values.
