# failover_proxy

The rules of a local API proxy, verified with Verus: which providers a request may go to and in
which order, when failover is switched on, how the proxy switches to another provider, which
response headers are passed on, how a streamed response is relayed and brought to an end, and
what is recorded of its usage.

- `src/` is the library. Its functions carry contracts over mathematical models; proof functions
  whose names begin with `law_` state what holds across functions.
- `tests/` runs the library on concrete values.
- `app/` is the proxy around the library: the store, the user interface and the network are
  reached through the traits in `app/host.rs`.

Work that waits for something outside is laid out as a machine: the library says what is to be
done next, and the application does it and hands back what came of it. So are the passage of a
stream (`stream`), the switch of failover (`toggle`) and the switch of a provider (`switch`).
