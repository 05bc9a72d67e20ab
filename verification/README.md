# mqtt_broker

An MQTT v5 codec and the decision logic of a small MQTT broker, written in Verus. The
library's functions carry contracts that Verus proves; the few calls into the standard
library and `rand` that Verus cannot see into (UTF-8 validation, a random number, the
owner count of a shared pointer) stand behind small wrappers whose contracts are trusted.

## Layout

- `src/types.rs` — the control packets, each with a mathematical model (`DeepView`).
- `src/codec/` — the wire format.
  - `primitives.rs`: Variable Byte Integers, big-endian integers, UTF-8 strings, binary
    data; their encoders, parsers and round-trip laws.
  - `properties.rs`: property sets, encoded in the order of their identifiers, and the
    round-trip law of a property set.
  - `encoding.rs`, `decoding.rs`: whole packets, each parser stated against a
    specification of the grammar.
  - `roundtrip.rs`: decoding the encoding of a packet, whatever follows it, gives the packet
    back and takes exactly its bytes; encoding a packet read from bytes in that form gives
    the bytes back.
  - `framed.rs`: how many bytes of a receive buffer make the next packet.
  - `serialize.rs`: a compact writer for the packets a minimal server sends.
- `src/topic_filter.rs` — topic filters: parsing, matching, and the law that matching is
  the MQTT matching of levels and wildcards.
- `src/broker/` — the broker's decisions: sessions and their provider, retained messages,
  incoming PUBLISH handling (topic aliases, acknowledgement, retained messages), client
  identifiers, CONNACK, keep alive, forwarding to subscriptions, SUBSCRIBE and UNSUBSCRIBE,
  and the per-client `Connection` that decides what each event leads to.
- `src/lite/` — a small packet model: its parser (stated against a specification of its
  grammar), its framing, its writer and the answers of a minimal server.
- `app/main.rs` — the TCP server on tokio: sockets, framing, timers, broadcast channels and
  tasks; it carries out what the library decides.
- `tests/` — scenarios on concrete packets and bytes.
