# rfe

Building blocks for Russian fintech compliance, written in Verus: the code
carries its contracts and Verus proves them.

- `src/` — the verified library:
  - `decimal`: exact decimal amounts in the representation of `rust_decimal`,
    whose arithmetic it calls; financial rounding and safe division.
  - `pdn`: the debt-burden ratio (PDN) with the credit-card 5% rule and the
    confirmed-income gate.
  - `digest`, `audit`: BLAKE3 and Streebog-256 digests, the protocol seal, the
    hash-chained audit trail and its signed export.
  - `report`: compliance reports, their canonical order (a stable sort by
    transaction id) and the canonical result hash.
  - `ids`, `text`: taxpayer and registration numbers, UUID-based ids, and the
    character-level helpers.
  - `lending`: the typestate lending and BNPL workflow with its regulatory
    gates.
  - `antifraud`, `smev`, `smev_services`, `rsocket`: the decisions of the CBR
    anti-fraud and SMEV 4 clients (retry and polling steps, availability
    classification, message building and parsing, frame encoding).
- `tests/` — tests of the library on concrete values.
- `app/` — the service layer: serde and error-trait forms of the types, and
  the async HTTP clients that perform the requests the library decides on.
