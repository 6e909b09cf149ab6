# ug_scraper

Reads tabs and search results out of Ultimate Guitar pages.

- `src/` is the library, verified with Verus. It works on pages it is handed:
  `tab_scraper` reads the lines, basic data and metadata of a tab page;
  `search_scraper` builds search addresses, reads result pages and decides which page to
  fetch next; `network` decodes and encodes text; `types` holds the data types and the
  replacement of German chord names; `text` holds the verified text operations they share;
  `patterns` holds the regular expressions and the calls into the `regex` crate.
- `app/` downloads pages with `ureq`, gives the types their `serde` traits and `Display`,
  and reads the floating-point rating of search results.
- `tests/` runs the library on fixed pages.
