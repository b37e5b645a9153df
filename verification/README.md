# docker_proxy_filter

A forward proxy for the Docker API that filters the content of responses:
container lists keep only the containers whose names or labels match the
configured filters (and no exclusion filter), requests for any other container
are answered 404, and container inspections can have their environment emptied.

- `src/` is the verified library: filter matching (`utils`, `docker`),
  configuration parsing (`config`), the decisions of the forwarding handler
  (`proxy`), request-line peeking for connection hijacking (`tunnel`), and the
  string-keyed map and substring search they rest on (`strmap`, `text`).
- `app/` is the program around it: environment loading, the HTTP server and
  client, JSON decoding and encoding, and the TCP tunnel.
- `tests/` exercises the library on concrete requests and configurations.
