# silkworm

A small web-crawling toolkit: spiders emit requests and items, an engine
fetches requests concurrently, middlewares adjust requests and responses, and
pipelines write items out as JSON Lines, CSV or XML.

The core is verified with Verus: every function in `src/` carries a contract
(`requires` / `ensures`) that Verus proves, and the properties that span
several calls (duplicate filtering, bounded memory of seen requests, the
order in which queued requests are served, redirect limits, escaping of
markup, and so on) are stated and proved as lemmas or as postconditions.

## Layout

- `src/` – the verified library.
  - `strmap`, `json`, `text`, `order` – the data model: insertion-ordered
    string maps, JSON values with sorted object keys, string helpers.
  - `request`, `response`, `html`, `xpath` – requests, responses, pages,
    CSS selection and XPath queries.
  - `headers`, `urls`, `http` – header lookup and normalisation, URL
    building, request preparation, redirect decisions, bounded bodies.
  - `scheduler` – duplicate filtering, the ready queue, engine settings,
    crawl statistics.
  - `middlewares`, `pipelines`, `logging`, `api`, `errors`, `clock`.
- `app/` – the asynchronous runtime around the library (tokio tasks, the
  HTTP client, file output, floating-point delays), in plain Rust.
- `tests/` – tests of the library.

Calls into other crates (`url`, `scraper`, `sxd_html`, `sxd_xpath`, `regex`,
`encoding_rs`, `rand`, `fasttime`) are made through small trusted wrappers whose contracts say what
those crates document; everything around them is verified.
