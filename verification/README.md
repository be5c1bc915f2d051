# vpn_sub_sync

A verified library for aggregating public VPN subscriptions: it reads
v2ray share links and Clash documents, finds each node's endpoint, keeps
what a TCP probe reached, refines node lists (deduplication by host and
port, a latency limit, a cap), renames nodes, merges the outputs, and
renders the Markdown summary of a run. Every function of the library is
proved against its contract with Verus.

Layout:

- `src/` — the library, verified:
  `config` (sources), `fetcher` (when a fetch retries), `github_readme` (finding a subscription URL),
  `parser` (subscriptions and Clash documents), `probe` (endpoints,
  the steps of a TCP probe, and probe results), `filter` (refinement), `naming` (display names),
  `country`, `tag`, `sync` (the outcome of one source and the totals of a
  run), `writer` (reports and the Markdown summary); `*_laws` hold the
  properties proved across functions; `foreign` holds the calls into
  `base64`, `serde_json`, `regex` and `std` whose contracts are trusted.
- `app/` — the program around it: reading `sources.toml`, HTTP with
  retries, TCP probing, the clock, and writing the output files.
- `tests/` — tests of the library on concrete values.
