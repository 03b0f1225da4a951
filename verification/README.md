# Net Lattice

A typed model of a host's network configuration (interfaces, addresses, routes, neighbors,
resolver, firewall), what it takes to bring a host from an observed to a desired state, and the
rules by which each platform's own data is read and written. The library is verified with Verus.

- `src/` is the library. The model and its plans come first (`interface`, `ifaddr`, `route`,
  `neighbor`, `dns`, `firewall`, `snapshot`, `desired_state`, `diff`, `apply`, `mutation`,
  `converge`, `event`), on addresses and networks (`ipv4`, `ipv6`, `prefix`, `mask`, `mac`).
  Then come the platforms: Linux (`netlink`, `linux`, `resolv`, `nft`), macOS (`pf`) and Windows
  (`iphelper`, `ipnotify`, `dnsapi`, `wfp`, `wide`), with what a firewall policy decides in
  `traffic`. Every function there is a computation on plain values.
- `app/` holds the backends: sockets, system calls and threads around the library.
- `tests/` runs the library.

Public proof functions state what holds across functions: that a plan reaches the desired state,
that the rules a policy was compiled to decide as the policy does and read back as it, that text
and bytes come back as the values they were made from.
