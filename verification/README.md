# cognitrade

The decision logic of CogniTrade, an advisory crypto-chart analyst, as a
library verified with Verus, and the desktop shell around it.

- `src/` — the verified library. Chunking of document text, the ticker to
  CoinGecko id table and the price lookup's retry rule, framing of the
  model's server-sent event stream and the totals it adds up, the messages of
  an analysis request, the recommendation block at the end of an answer,
  model prices, the watcher's debouncing, the checks on ingested files and
  screenshots, and the user-facing error texts. Each public function states
  its result in its `ensures`; the `lemma_*` proof functions state the laws
  that span calls (chunking ends, framing does not depend on how the stream
  is cut, a price lookup retries at most once, a change is ingested once it
  has been quiet for the debounce time, costs add up, ...).
- `app/` — ordinary Rust around the library: SQLite storage, HTTP calls to
  the model and price APIs, the local embedding model and vector ranking
  (floating point), the file watcher loop, the credential store and the
  tray window.
- `tests/` — tests of the library on concrete values.
