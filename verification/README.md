# bevy_mqtt

MQTT support for Bevy, split in two:

- `src/` — the verified library:
  - `cache.rs`: `PacketCache`, a bounded FIFO of payloads (capacity clamped to 1..=1000);
    proofs that it keeps the newest `capacity` packets in arrival order.
  - `topic.rs`: `SubscribeTopic`, an MQTT filter compiled to an anchored regex with
    metacharacters escaped, `+` as `[^/]*` (one whole level, possibly empty), `#` as `.*`
    and a trailing `/#` as `(/.*)?` (the parent level and all below); proofs that
    distinct filters give distinct patterns, that a filter without wildcards matches only
    itself, that `+` never matches across a `/`, and that `p/#` matches `p` and `p/x`.
  - `session.rs`: what each connection report does to a client entity (client held,
    connected mark, messages emitted), and the relay loop's stop rule.
  - `routing.rs`: who receives a matched message and which client a subscription
    goes to in the entity hierarchy.
- `app/` — the Bevy plugin, components, systems and the MQTT connection thread.
