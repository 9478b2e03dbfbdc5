# snmp_trap

Receives SNMP traps and informs over UDP and makes them log events. SNMPv1 traps and SNMPv2c traps
and informs are understood; SNMPv3 is refused. Informs are acknowledged once their events have been
accepted. Object identifiers are named by MIB modules; numeric identifiers are always kept.

The library under `src/` is verified with Verus:

- `ber`, `encode`, `raw`: reading and writing the Basic Encoding Rules, and the fields of a message
  that are read from its octets.
- `wire`, `model`: messages as plain values, by way of the `snmp_parser` crate.
- `notification`, `varbind`, `response`, `event`: notifications as log events, and the responses that
  acknowledge informs.
- `enrich`, `tree`: what the source adds to events, at paths into the nested values of the `vrl`
  crate.
- `display`: values as Net-SNMP's `snmptrapd` prints them.
- `mib`: scanning for, parsing and resolving MIB modules.
- `source`, `config`, `internal_events`, `error`: the course of the source, its configuration and
  what it reports.
- `laws`, `mib::laws`, `mib::unresolved`: what holds of every notification and of every load.

What is believed without proof stands in `text`, `tree`, `varbind`, `event`, `response` and `wire`:
the functions marked `external_body`, each beside the call that it makes, and the types that they
work on.

`app/` is the source around the library: configuration files, the file system and the socket.
