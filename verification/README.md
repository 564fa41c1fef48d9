# nmrs models

Data models of NetworkManager connection profiles, with verified reading and
writing of addresses in CIDR notation.

- `src/text.rs`: digits, numerals, splitting and joining on a separator.
- `src/ipv4.rs`, `src/ipv6.rs`: addresses, the grammar of their text, and
  their canonical text; laws that the text of an address reads back as it,
  that IPv4 text has one spelling, and that IPv6 text compresses the first
  longest run of zero segments.
- `src/ip_address.rs`: `IpAddress<A>` with a prefix length, its errors, and
  the law that `address/prefix` text reads back.
- `src/saved_connection.rs`: saved profile summaries, `VpnSecretFlags`,
  `IpMethod`.
- `src/error.rs`, `src/redact.rs`: `ConnectionError`, redaction of secrets.
- `app/`: the D-Bus device proxy, error types with `Display`, and
  conversions to the standard library's address types.
