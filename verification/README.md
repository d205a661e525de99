# OrderHub

An order gateway: external submitters send limit orders and cancel requests over
gRPC; each admission is recorded durably, under an idempotency key, before the
order enters the execution chain.

- `src/` is the verified library: admission, idempotency, quota, journal, service
  answers and the FIX session. Contracts are stated over mathematical models of
  the data; public functions named `law_...` state what holds of the library as a
  whole.
- `tests/` runs the library on concrete values.
- `app/` is the node around it: the database file, the writer and core threads,
  the execution chain, the socket of the exchange, the gRPC server and a minimal
  client (`orderhub client`).

The node is configured through the environment: `ORDERHUB_ADDR`,
`ORDERHUB_JOURNAL`, `ORDERHUB_TOKEN` and `ORDERHUB_SUBMITTERS`.
