# agentgateway

Route selection of an HTTP gateway, verified with Verus: given the routes of a
listener and those attached to services, which route takes a request.

- `src/request.rs`: requests, their hosts and headers
- `src/query.rs`: query strings, parsed when they are first asked for
- `src/compiled.rs`, `src/pattern.rs`: regular expressions
- `src/agent.rs`, `src/discovery.rs`, `src/listener.rs`, `src/stores.rs`: what
  the gateway is configured with
- `src/matching.rs`: whether a route accepts a request
- `src/hostname.rs`: the hosts that routes are for
- `src/precedence.rs`: which of two matches comes first
- `src/route_set.rs`: routes, sorted by host and precedence
- `src/route.rs`: which route takes a request
- `src/activation.rs`: a service that is brought up on demand, and the way to it
- `src/laws.rs`: what holds of all this as a whole
- `app/`: the same, for requests of the `http` crate and a shared configuration

The calls into `http`, `regex`, `url` and std that the proofs rely on are in
functions marked `external_body`, each with what is taken for granted of it.
