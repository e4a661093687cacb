# tinydocs

Scrapes online Rust documentation (rustdoc HTML) and turns each page into a
compact plain-text summary, for storing in a vector database.

Layout:

- `src/` is the verified library (Verus):
  - `text.rs`: character-level string operations (trim, replace, lines,
    words, split, join) with their mathematical meaning;
  - `markup.rs`: tag counts over HTML text that bound what the text
    renderers are given;
  - `engines.rs`: the trusted calls into regex, scraper, html-escape,
    html2text, august, url and tiktoken-rs;
  - `scrape.rs`: HTML and text clean-up, trait names, the compact text forms;
  - `pages.rs`: from a fetched page to its summary, and the URLs the crawl
    starts from;
  - `crawl.rs`: which pages to visit, the order of the results, which pages
    to embed;
  - `rich.rs`: a richer reading of enum pages, rendered with august.
- `app/` is the crawler program: fetching, files, the embedding requests.
- `tests/` runs the library on concrete pages and texts.
