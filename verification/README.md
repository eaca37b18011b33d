# cpsl

The logic of CPSL capsules, verified with Verus: the checks of a capsule's
`cpsl.toml`, the decisions of `cpsl build`, and the computations behind the
script modules (`crypto`, `datetime`, `calendar`, `csv`, `html`, `doc`,
`grep`, `edgar`, `image`, `http`, `location`).

## Layout

- `src/` is the library. Each module states what its functions return in
  `requires`/`ensures` over spec functions and views, and Verus proves the
  code against them. Public proof functions named `law_*` state properties
  that relate several functions (round trips, idempotence, order).
- Calls into outside crates (chrono, sha2, hmac, aes-gcm, jsonwebtoken,
  calamine, zip, rtf-parser, quick-xml, pulldown-cmark, scraper, serde_json,
  csv, globset, grep-regex, memchr, email_address, uuid, hex) stand behind
  small trusted wrappers marked `#[verifier::external_body]`. Each wrapper's
  doc comment names the outside function and says what its contract claims.
- `tests/` runs the library with the real outside crates linked.
- `app/` is the command-line program around the library: argument handling,
  files, processes, TOML and serde, and the floating-point image and finance
  helpers.

## Checking

Run Verus on `src/lib.rs` with the outside crates on its library path; run the
tests with Cargo.
