# google_cloud_storage

Streams that arrive as objects in a Cloud Storage bucket, written in Verus. The
library says what a Location and a far end put on the wire and what they make
of what came off it; that the two agree is proved in `src/laws.rs`.

- `src/`: the library. Every contract in it is checked by Verus; the calls into
  `serde_json` and the standard library that it takes on trust stand in
  `src/json.rs` and `src/text.rs`, each with what it is trusted to do.
- `tests/`: the library at work, a client and a session in one process.
- `app/`: the sockets around it, on the `http` technology and the `transport`
  capability, two crates of the platform that this one is a part of.
