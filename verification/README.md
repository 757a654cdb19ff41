# match_risk_engine

A matching and risk engine whose logic is verified with Verus.

`src/` is the library. Every executable function in it has a contract over a
mathematical model, and Verus proves that the code meets it.

| Module | What it holds |
| --- | --- |
| `core_types` | prices, quantities, ids, commands, events, log entries |
| `order_book` | the ladder, price levels, matching; `model.rs` says what a book does, `laws.rs` what follows, `naive.rs` that it fills like the simplest matcher |
| `ring_buffer` | bounded queues with one producer and one or many consumers |
| `account_state`, `risk_engine` | positions, margin, liquidation, the order check at the gateway |
| `matching_engine` | risk check, matching, outward events, latency histograms |
| `gateway` | framing, sessions, the course of a connection, market data |
| `dual_log` | sequence numbers, the two logs, the orders in flight |
| `second_engine` | what workers do with escalated orders |
| `metrics` | metrics over all shards and their text form |
| `logger` | log records and lines |
| `dpdk_gateway` | bringing a network port up, orders out of packets |

Public proof functions whose names start with `law_` state what holds of the
library as a whole: price-time priority, conservation of quantity, first in
first out, one claim per order, and so on.

Four outside crates are called from the library: `slotmap` for the arena of
resting orders, `smallvec` for the events of a command, `bytes` for network
buffers and `crossbeam-skiplist` for the orders in flight. The functions that
call them are marked `external_body`; their contracts are believed, not
proved, and their comments name the function that is called.

`app/` is what needs threads, sockets, clocks or floating point. It calls the
library and decides nothing itself.

`tests/` runs the library, with the outside crates linked.
