# Vigil Collector

A lightweight monitoring server: it samples a host once a second and shows what
it finds over HTTP and WebSocket, and pushes it to a hub where one is
configured.

The library under `src/` holds every rule and computation, with contracts that
Verus proves. The program under `app/` reads the machine, speaks to the network
and keeps time; it hands plain values to the library and does what the library
decides.

| Module | What it holds |
|---|---|
| `text`, `number`, `names`, `binary64` | text, decimal numbers, sets and maps of names, measured numbers by their bits |
| `metrics` | processor, memory, disks, network, platform, and the largest processes |
| `snapshot` | the published state and its views |
| `sampler` | what each tick refreshes and publishes, and how the sampler keeps going |
| `server` | worker ids, WebSocket sessions, HTTP replies, outside checks |
| `hub` | the flat list of metrics, the frames, and the link to a hub |
| `config`, `cli`, `log`, `startup` | settings, arguments, the log, and what they lead to |

Proof functions whose names begin with `law_` state what holds of the library as
a whole. Measured numbers are carried by their binary64 bits: the library
compares, selects and truncates them exactly, and the floating-point arithmetic
for display is in `app/figures.rs`.
