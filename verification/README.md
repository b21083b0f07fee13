# hyperliquid_rust_sdk (verified core)

Market metadata for Hyperliquid, written in Verus.

`src/` is the verified library:

- `text`, `identifiers`: whitespace trimming, decimal digits, HIP-4 outcome
  identifiers (`#e`, `+e`, `e`, `100000000 + e`), spot pair id
  normalisation and alias lists.
- `str_map`: a string-keyed map kept in insertion order, viewed as a `Map`.
- `meta`, `records`: the exchange metadata the store is built from, and
  outcome market records.
- `model`: the abstract tables and how each processing step changes them.
- `market_meta_store`, `outcome_index`: building the tables, looking names
  up, overlaying mids, and indexing outcome records by outcome and question.
- `builder_dexs`, `info`: which builder DEXs to fetch, network addresses and
  the websocket address.
- `laws`, `outcome_laws`: properties of the library as a whole.

`app/` holds what talks to the network: HTTP requests to the info endpoint,
the JSON shapes of requests and responses, and a store that fetches its
tables and refreshes them in the background.
