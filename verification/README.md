# geo_server

A small HTTP service that answers which administrative region holds a
coordinate, with a Verus-verified core.

- `src/` is the verified library: the route table and its lookup rules
  (`server`), request contexts (`context`), JSON replies (`reply`,
  `api_result`), errors (`error`), CORS (`cors`), the binary record format of
  the region database and the lookup's decisions (`region`), the text format
  of region outlines (`polyline`), the service's own small rules (`service`),
  and the byte, number and address helpers they share (`bytes`, `text`,
  `net`, `strings`).
- `app/` runs it: the hyper/tokio accept loop, the middleware chain, the API
  functions, the persy database, floating-point geometry, configuration and
  logging.
- `tests/` exercise the library on concrete values.
