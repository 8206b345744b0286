# rust_scraping

A scraper for a story archive. The library under `src/` holds the logic that
reads fetched pages and decides what to fetch next, verified with Verus:

- `document`: a parsed HTML page and the CSS queries run on it (through the
  `scraper` crate; each query's result is a named function of the page's
  source text).
- `parsers`: story listings and the first page of a story.
- `catalog`: category listings and their page addresses.
- `story`: page-by-page gathering of a story's text, the stories still to
  fetch, and the record kept of each.
- `text`: splitting, decimal numbers, joining and searching, with their
  specifications.

`app/main.rs` is the program around it: requests, concurrency, progress
bars, files, and the floating-point reading of view counts.
