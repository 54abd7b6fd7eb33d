# openstar_ads

An ADS client library for Beckhoff PLCs, with its logic verified by Verus.

The library (`src/`) holds what can be stated and proved:

- `netid`, `protocol`, `index`, `le`: AMS addresses and their text form,
  ADS commands and states, the AMS header layout, little-endian codecs.
- `low`: the transport's decisions. `client` builds request packets,
  checks replies and spreads their data over result buffers, and tells the
  reader what to do with each received packet; `requests` holds the
  sub-requests of the sum commands and compacts write-read results;
  `notification` parses notification samples; `errors` is the error type.
- `data_types`, `params`: fixed-size PLC values and their byte layout,
  16-character PLC strings, RPC parameter lists, and symbol data decoded in
  the data-type layout (trees, and flat maps with seven-word TIMESTRUCTs).
- `symbol`: dynamic type trees built from uploaded symbol information,
  decoding of symbol data into trees and flat maps, and the proof that the
  two agree.
- `plc_client`, `client`, `ads`, `plc_connection`: the bookkeeping of the
  high-level clients (symbol and notification handles, connection state,
  run-mode decisions, decoding of notification samples).

`app/` drives sockets and tasks with tokio around the library (the client,
the high-level connection, and a session that makes `PlcClient`'s requests
and runs the symbol receivers), converts errors and values for display, and
implements serde's `Deserializer` for symbol trees.
