# tdlib_rs

A Verus-verified parser for Type Language (TL) schema files as used by TDLib,
and the bookkeeping that routes TDLib responses to waiting requests.

- `src/encoding.rs`: byte positions in UTF-8, for the positions the iterator reports.
- `src/text.rs`: Unicode whitespace, trimming, searching, with their specs.
- `src/tl/ty.rs`: `Type` and its parser (`parse_type` is the spec).
- `src/tl/ty_laws.rs`: every parsed type is well formed and its text parses back to it.
- `src/tl/definition.rs`: `Definition`, `Parameter`, `Category` and their parsers.
- `src/tl_iterator.rs`: `TlIterator`, which splits a TL text into definitions
  (`spec_next` is the spec), and laws about it.
- `src/observer.rs`: `Observer`, the map from request numbers to one-shot senders.
- `app/`: thread sharing, logging, file reading and an `Iterator` adapter.
