# veq

Sessions over UDP: peers exchange connection strings (their addresses and static public
keys), run a Noise KK handshake, and then send encrypted payloads of any size, cut into
frames and put back together on the other side. Packets that do not decode, do not
decrypt or replay an earlier nonce are ignored.

## Layout

- `src/` is the library, written in Verus. Every function in it carries a contract and
  is proved, except the small trusted wrappers around the `snow`, `uuid`, `zstd` and
  `base64` crates, whose contracts are taken as given.
  - `wire.rs`: integers, byte strings and session identifiers as bytes, with decoders
    proved to give back what the encoders wrote.
  - `transform.rs`: frames, groups of frames, and the `Chunker` that cuts payloads into
    frames and reassembles them.
  - `snow_types.rs`: keys, the handshake, and the lossy transport with its replay window;
    the cryptography itself is done by the `snow` crate behind a few trusted wrappers.
  - `session.rs`: the packets of a session and the state machines of each handshake
    phase and of an established session.
  - `handler.rs`: the table of sessions of one socket and what each datagram does to it.
  - `connection.rs`: connection strings (zstd, then base64, behind trusted wrappers),
    read back with blanks and line breaks ignored.
  - `veq.rs`, `ip_discovery/`, `dualstack/`: addresses, connection information and
    address selection.
  - `proto/`, `holepunch/`: the alternative layout: its message types, its handshake and
    sessions over a counting transport, and the hole punch as a sequence of typed states.
- `tests/` exercises the library with the real `snow` and `bincode` crates.
- `app/` is the command-line chat: sockets, timers, STUN and interface discovery, and the
  serialization of the connection information (`bincode`).
