# ytm_auth

Authentication configuration for a YouTube Music client, verified with Verus.

A browser-session capture (its cookies and what its page exposes) is turned into a
stored configuration of request headers; stored configurations are validated before
use. Every function in `src/` carries a contract over a model of plain values
(`Seq<char>` for text, sorted entry lists for maps, `JsonView` for JSON), and
`src/laws.rs` proves the properties that hold across functions, such as that every
configuration an import produces validates.

- `src/text.rs`: trimming, searching and comparing strings by character.
- `src/string_map.rs`: a map from strings to strings kept in key order.
- `src/json.rs`: JSON values and object lookup and insertion.
- `src/cookies.rs`: cookie filtering, the `cookie` header, and reading values from it.
- `src/config.rs`: the stored configuration, its headers and its validation.
- `src/session.rs`: the browser session identity and how it is applied.
- `src/capture.rs`: captured sessions and the import.
- `app/lib.rs`: files, the clock, and JSON (de)serialisation with serde.
