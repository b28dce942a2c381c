# lnd_client

A client library for LND nodes over gRPC, split in two:

- `src/` is the verified library (Verus). It holds the node configuration,
  the alias checks that a set of nodes must pass before any is contacted,
  the collection of connected clients (a map from alias to client with
  each alias once), the step that records each connection attempt, the
  error texts, the channel endpoint of a node (hex certificate decoding and
  the `https://` address) and the choice between a clear-text and a TLS
  channel.
- `app/` is the asynchronous gRPC side: the HTTP/2 channel built from
  hyper and OpenSSL, the tonic interceptor that adds the macaroon, the
  per-service clients and `connect` / `connect_nodes`, which drive the
  verified steps.
