# tiny_http

A small HTTP/1.x server. The protocol logic is a library whose functions
carry Verus contracts and are proved against them; sockets, threads and
body copying sit around it.

## Layout

- `src/` — the verified library:
  - `common/` — header fields and values, header lists, HTTP versions,
    methods, status codes, `Connection` and `Content-Type` values, byte
    ranges, limits;
  - `client.rs` — request line and header block reading, the answers to
    failed reads, what a connection does after a request;
  - `request.rs` — the decisions on a request's body and on the headers of
    its answer;
  - `response/` — responses, standard responses, transfer encoding choice,
    message heads, range answers and the window of a body that is sent;
  - `util/` — a reader bounded to a length, header value items, the thread
    pool's decisions and counting;
  - `server/` — server states, exit steps and waits;
  - `socket_config.rs` — socket settings and their defaults;
  - `decimal.rs`, `text.rs` — numbers and byte strings.
- `tests/` — tests of the library.
- `app/` — the server around the library: listening sockets, connection
  streams, worker threads, the request object with its body reader and
  response writer.

`ascii` and `httpdate` are called from the library through small trusted
wrappers; `chunked_transfer` is used by `app/` for chunked bodies.
