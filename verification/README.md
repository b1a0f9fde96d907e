# xof-fighter

Player counts of the most popular fighting games on Steam, from SteamSpy's
tag listings and Steam's live player counts.

- `src/` is the library, verified with Verus: which games are kept (the
  curated allowlist, the user's `games.txt`, the name and count filters), how
  they are ranked (a stable sort by live players, peak of yesterday or name),
  the page-by-page fetch of a listing with its disk cache, the retry policy for
  live counts, and every cell, line and field of the table, CSV and JSON
  outputs.
- `app/` is the command-line program around it: argument parsing, HTTP
  requests, the cache files, the progress bar and printing.
- `tests/` runs the library on concrete values.
