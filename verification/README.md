# FlowLens

FlowLens watches the traffic of a network interface and says which processes, host
names and addresses cause it.

The library in `src/` is written in Verus: its functions are verified against contracts
that say what they return and change.

| Part | What it does |
| --- | --- |
| `capture/` | frames to flows, counters, interfaces, the queue of results |
| `domain_parse*`, `flow_table` | host names in TLS and HTTP payloads, and what is known of connections |
| `proc_table`, `refresh`, `process_name` | who owns which socket, and when that is looked up again |
| `process_probe` | asking the system about single sockets |
| `history`, `start_time` | who owned a socket earlier, and whether that can be trusted |
| `attribution`, `stats` | charging every byte exactly once |
| `conservation` | what crosses the interface is what is charged or waits |
| `traffic`, `process_detail` | what the ledger adds up to, in all and for each process |
| `report`, `diagnostics` | how that is shown |
| `pipeline`, `session`, `cli` | what the threads and the program do next |
| `palette` | colors of the terminal |
| `refcap` | a reference count of frames, below all parsing |
| `laws` | what holds across the modules |

`app/` is the program around the library: packet capture, threads, files and the
terminal. `tests/` runs the library on concrete values.

Packets are decoded by `etherparse`, TLS records by `tls-parser`, HTTP requests by
`httparse`; connections are remembered in a `moka` cache and times are written by
`chrono`. These calls stand behind small functions whose contracts are trusted; each
says in its comment what it takes for granted.
