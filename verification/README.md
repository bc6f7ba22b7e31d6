# neocom

An EVE Online command-line toolkit: route safety per hop, market prices,
pilot intel, system overviews, wormhole site sheets and server status.

The decisions the tool makes are a library verified with Verus (`src/`):

- `cli`: the commands and their arguments, and the shells that completion
  scripts can be generated for.
- `esi`, `zkill`: the request URLs of the two web services, how name lookups
  are merged and picked, and how kills are counted per stargate.
- `systems`: the cached system list, its expiry, and name completion
  (filtered and stably sorted by lowercase name).
- `commands`: per command, what it computes: danger bars and hop summaries
  (`travel`), the item list file and the price plan (`price`), threat scores
  (`intel`), kill windows and notorious systems (`system`), and the wormhole
  sheets (`wh`).
- `display`: danger and threat labels.
- `text`, `sorting`: character-level string work and a verified stable merge sort.

`app/` is the executable around it: argument parsing with clap, HTTP with
ureq, JSON with serde, the cache file on disk, threads, floating-point
prices and security statuses, and printing.

`tests/` runs the library on concrete values.
