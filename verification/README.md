# eShield

A firewall for one Linux host, and a hub through which hosts share what they block.

`src/` is the library, verified with Verus: the decisions of the firewall and of the hub, each
with a contract that says what it is. The control plane and the hub call it. The packet path
of `dataplane` is the library's statement of what happens to a packet; in the kernel runs the
object file that `app/` loads, which is built elsewhere, and nothing ties that code to
`dataplane`. An object without the tables `PORT_RATE_LIMIT_CFG`, `CONN_TRACK_CFG`,
`GEOIP_ALLOWED_V4`, `GEOIP_ALLOWED_V6` or `GEOIP_DEFAULT` lacks the feature behind them; the
daemon then runs without it and says so in its log.

| Module | What it decides |
|---|---|
| `pure`, `bytes`, `text`, `ip`, `ip_format`, `network`, `prefix`, `rank` | Checksums, cookies, numbers and addresses as text, networks, rankings |
| `common`, `rules`, `project_modules`, `project_action` | The records that the packet path and the control plane share |
| `dataplane` | What happens to a packet: parsing, the checks in their order, SYN cookies, resets, counters, samples |
| `node` | The control plane: configuration, run-time changes, tables for the packet path, statistics, alerts, audit log, console, talk with the hub |
| `hub` | The hub: policies and deletions in pages, rate limits, tokens, nodes, feeds |
| `feed`, `sharing` | Lists of addresses; what a node and the hub promise together |
| `maps`, `key_table` | Maps by name, port and address |
| `outside` | Calls into other crates that only compute |

What the library promises as a whole is stated in its `law_` proof functions.

`app/` is the program around it: the command line, the kernel's tables, the store on disk,
the web server, the hub's server and the tasks of the daemon. `tests/` runs the library.
