# http4r-core

An HTTP/1.1 toolkit built on "server as a function": a handler takes a request and
hands a response to a callback, requests and responses are immutable values, and
messages can be handled in memory or over the wire.

The library under `src/` is written in Verus and verified:

- `headers`, `header_list`, `query`, `uri`: header lists (names compared without case,
  case kept), query strings, and URIs, with their text forms and laws relating them.
- `http_message`: requests, responses, bodies, methods and statuses.
- `wire`, `chunked`, `buffered`: reading a message's start line, header block, chunked
  body and trailers from received bytes, and writing bodies in the chunked coding (a
  stream body one chunk per read).
- `buffered_message`: reading a request or a response whose head sits whole in one
  buffer (start line, headers, where the body is, and the refusal of a message that
  says nothing of its length).
- `exchange`: the decisions around reading and writing messages (length headers,
  start lines, how a body is framed, which headers and trailers a message ends with,
  the bytes written for a message, the answer to an unreadable request).
- `round_trip`: what is written for a message's head reads back as it was.
- `handler`, `router`, `site_router`, `client`, `redirect_to_https_handler`, `app`,
  `not_found_page`, `environment`, `static_files`: handlers and the decisions of an
  example application.
- `codex`: gzip, deflate and brotli bodies, through `flate2` and `brotli`.
- `search`: a small line search.

`app/` holds what cannot be verified: the TCP server and client, file serving, logging
and the browser entry points. Tests are under `tests/`.
