# rkazumi_core

The core of a media-site scraping engine, written in Verus and verified:

- `m3u8` parses HLS playlists (master and media), resolving segment and
  stream URIs against a base URL;
- `danmaku` reads Bilibili bullet comments from XML;
- `xpath` evaluates a subset of XPath over HTML parsed by `scraper`, and
  `xpath_json` answers in JSON;
- `rule` and `executor` run site rules (JSON) to extract search results and
  play routes;
- `middleware` chains string transformations;
- `text` and `json` hold the character-level building blocks and their laws.

Each public function states its result over a mathematical model of its
inputs; where an outside crate does the work (`scraper`, `roxmltree`,
`serde_json`), a small trusted wrapper names what it returns.  The
middleware chain runs caller-supplied closures, so what it returns is stated
as a relation: each stage relates its input to the outputs its closure may
give.

`app/` holds the C interface, the HTTP client and the serde copies of the
data types, which carry floating point fields.
