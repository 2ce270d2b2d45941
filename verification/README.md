# rocket

The core of a web framework, written in Verus: requests are matched against
mounted routes, handler results become responses, failures are answered by
error catchers, request bodies are read through a peek buffer, and responses
are prepared for the wire and cut into chunks.

The decisions of the request pipeline are verified functions in `src/`:
rewriting a request, choosing and trying routes in turn, what follows a
handler's outcome, choosing an error catcher and falling back when it fails,
and preparing a response for the wire. The waiting is not: reading a body
from the network, running asynchronous handlers and catchers, and writing to
a socket happen in `app/`, which calls the library at each step and hands
the results back. `app/` also parses the address in an `X-Real-IP` header
(with `std::net`), logs, and binds the server.

## Layout

- `src/http.rs` — status codes, methods, media types, headers (an ordered,
  case-insensitive header map) and cookies.
- `src/request.rs` — requests, and the rewriting before routing (`_method`
  form field, `X-Real-IP`).
- `src/data.rs` — request body data and its stream; reading never loses,
  duplicates or reorders a byte.
- `src/response.rs` and `src/response/` — responses, the `Responder` trait
  and its implementations (status, content type, failure, named file).
- `src/outcome.rs` — handler outcomes.
- `src/uri.rs`, `src/router.rs` — mounting paths and matching them against
  request paths.
- `src/rocket.rs` — the application: configuration, routes kept in order of
  rank, catchers, managed state, and the dispatch decisions.
- `src/wire.rs` — responses as written out, and the chunker for streamed
  bodies.
- `src/local.rs` — local requests, for testing without a network.
- `app/lib.rs` — the hyper server and the asynchronous pipeline.
- `tests/` — tests on concrete values.
