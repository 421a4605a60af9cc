# sandstar_drivers

Drivers for building-automation devices: BACnet/IP, Modbus TCP and local I/O
channels, a manager that owns them, and the rules of its REST interface.

`src/` is the library, written in Verus. Every executable function in it has a
contract that is proved. The library does no I/O: it encodes and decodes frames,
decides what to ask which device next, and says what an answer means.

| Module | Contents |
|--------|----------|
| `driver` | Status, errors, points, contexts that collect outcomes |
| `manager`, `manager_laws` | Registered drivers, point status, watches, change-of-value events |
| `poll_scheduler`, `watch_manager` | Poll buckets, subscriptions per point |
| `loader` | What follows from configured drivers, what a poll tick writes |
| `rest`, `json` | Request bodies, refusals, result rows |
| `local_io` | Hardware channels and their cached values |
| `modbus` | Frames, registers, connection state |
| `bacnet::frame`, `bacnet::value`, `bacnet::wire` | The codec and its grammar |
| `bacnet::transaction`, `bacnet::exchange` | Invoke IDs, request and response with retries |
| `bacnet::driver`, `bacnet::plan` | Driver state, watches, plans for reads and writes |
| `bacnet::sync`, `bacnet::learn` | Rounds of reading and of learning points |

Floating-point numbers appear in the library as their IEEE 754 bit patterns.
Times are nanoseconds on a monotonic clock of the caller's.

`app/` surrounds the library with sockets, timers, channels, JSON and HTTP. Before
it calls a function with a precondition, it sees to it that the condition holds.

`tests/` exercises the library from outside.

## What is trusted

Three outside functions are called from the library through wrappers whose
contracts are believed: `String::from_utf8_lossy` (in `bacnet::value`) and the
functions `channel` and `Sender::send` of `tokio::sync::oneshot` (in
`bacnet::transaction`). Of the channel nothing more is claimed than that a reply
nobody waits for comes back unchanged.
