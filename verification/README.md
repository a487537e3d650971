# a2s

A library for the Source engine server query protocol (A2S), with its
byte-level logic verified by Verus.

## Layout

- `src/` — the verified library.
  - `wire.rs`: little-endian integers and NUL-terminated strings, as spec
    functions over the bytes that are left, with readers and writers proved
    against them.
  - `info.rs`, `players.rs`, `rules.rs`: the `A2S_INFO`, `A2S_PLAYER` and
    `A2S_RULES` responses. Decoders are proved equal to their spec functions;
    encoders are proved to decode back to the value they encoded, and the size
    hints to equal the encoded length.
  - `rules/arma3.rs`: the Arma 3 / DayZ binary rules (chunk reassembly,
    unescaping, mod and signature lists).
  - `keyed.rs`: joining pieces in ascending key order, shared by split
    responses and Arma 3 chunks; pieces with equal keys keep their arrival
    order, so the join does not depend on arrival order when no two pieces
    share a key.
  - `packet.rs`: single and split responses, bzip2-compressed split responses
    (decompression and CRC-32 come from the `bzip2` and `crc` crates), and the
    challenge handshake decisions.
  - `address.rs`: file-name slugs and query-port resolution for the CLI.
- `tests/` — tests on concrete values.
- `app/` — the unverified shell: the blocking and tokio clients that own the
  sockets and drive the decisions in `packet.rs`, serde copies of the public
  types, the `thiserror` error type and the command-line tool.
