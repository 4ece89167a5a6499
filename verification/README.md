# satlink

The decision logic of a simulated satellite and its ground station, verified with Verus,
and the program that runs it.

`src/` is the library. Its functions take clock readings, random draws and received texts as
plain values and say in their contracts what becomes of them.

| Module | What it decides |
| --- | --- |
| `clock` | spans and points of time, RFC 3339 stamps |
| `text`, `table`, `stats` | words of log lines, tables by name, sums and extremes |
| `cipher`, `types` | the link's encryption, packets, jitter tracking, periodic jobs |
| `sensor` | when a sensor samples, what it reads, when its cycles are unsafe |
| `task` | priority buffer, one-millisecond slots, the downlink buffer |
| `scheduler` | rate-monotonic priorities, releases, preemption, active time |
| `downlink` | commands, packets, their admission, the ground station's answers |
| `telemetry`, `json` | latency, drift and loss of contact; the time stamp in a text |
| `fault` | active faults and the interlock that keeps commands back |
| `monitor`, `summary` | what is recorded, and the figures of the final reports |
| `logger`, `timing`, `mission` | the event log, and how long the simulation runs |

Proof functions named `law_…` state what holds across calls: that decryption gives back what
was encrypted, that a full buffer loses only its lowest priority, that the shortest period
runs first, that contact is lost with the third missing packet, and more.

`tests/` runs the library on concrete values. `app/` holds threads, channels, clocks, draws of
fractions, the JSON form of packets, and printing.
