# ziti_intercept

The host side of an overlay network: which packets of the host are captured, which service they are
dialled to, and how the connections and name queries that follow are run.

- `src/` is the library, verified with Verus. It decides; it does no I/O.
  - `addr`, `names`, `text`, `table`: addresses and networks, names and domains, text, and a keyed table.
  - `config`, `resolve`, `resolve_laws`: the configurations of services and the table of intercepts.
  - `dns`, `dns_server`: the registry of synthetic addresses and the embedded name server.
  - `routes`, `route_laws`: which networks are routed to the device, and how long.
  - `flows`, `dispatch`: the live flows of each service, and the dial of a flow.
  - `proxy`, `splice`, `stack`: proxied connections, and the user-space network stack.
  - `udp`, `udp_flows`, `vconn`, `upstream`: intercepted UDP traffic and forwarded name queries.
  - `proxy_resolve`, `proxy_conn`, `json`: names that a hosting endpoint resolves.
  - `error`: what can go wrong.
- `tests/` runs the library on concrete values.
- `app/` carries the decisions out: the device and the stack, overlay connections, the system's routes and
  name resolution, and the decoding of JSON.

Time is counted in nanoseconds from a start of the caller's choosing; dial timeouts are in seconds.
