# http-extract

Strict extraction of HTTP request metadata (authority, authorization
schemes, API keys, request IDs, content type, `Forwarded`, `X-Forwarded-*`
and provider client-IP fields), written in Verus.

- `src/` is the verified library. Each extractor's result is specified over
  the field map of an `http::HeaderMap` (`outside::header_fields`), and the
  text grammars it reads (quoted strings and parameters of `Forwarded`, IP
  and socket addresses, comma lists, authorization schemes) are specified
  and proved in `text`, `ip`, `forwarded` and `x_forwarded`. The properties
  that span functions are public proof functions named `law_*`.
- `src/outside.rs` holds every trusted item: the declarations of the `http`
  and `mime` types and the wrappers around the calls into them.
- `app/` reads the transport peer from request extensions (`std::net` and
  Axum's `ConnectInfo`), converts addresses to `std::net::IpAddr`, and holds
  an error type that implements `std::error::Error`.
- `tests/` runs the library against the real `http` and `mime` crates.
