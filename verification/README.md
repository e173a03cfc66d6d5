# easytier (verified core)

The logic of EasyTier's peer discovery, of the web console's gateway, listener, meshtier and
startup helpers, and of the uptime monitor's models and queries, written in Verus with
contracts that Verus proves.

- `src/` — the library. `discovery` and `manager` hold peer references, peer lists and the
  walk that expands them; `idn` puts peer hosts to ASCII; `cache` names the on-disk list cache; `gateway`, `server`, `cidr`,
  `mesh`, `startup` and `default_network` hold the web console's decisions; `uptime` and `nodes` the monitor's
  validation, filters and node views; `text`, `num`, `urls` and `uuids` the string, number and
  outside-crate helpers they share.
- `tests/` — tests of the library on concrete values.
- `app/` — the input and output around it: files, HTTP, the environment, processes, network
  interfaces and timers, and serde copies of the types that travel over HTTP.
