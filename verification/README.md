# TyProxy

A tunnel between a client and a server over TLS. The client takes traffic in through a SOCKS5
listener or a TUN device; the server connects to the targets.

- `src/` is the library: the rules of the tunnel, verified with Verus. `frame` is the packet
  format, `modules::socks5` the SOCKS5 dialogue, `modules::tun` the host routes, `client` and
  `server` decide where each frame goes, `relay` what the server does for one connection,
  `config` and `tls` hold the settings, and `tunnel` states what the two ends do together.
- `app/` is the program around it: sockets, TLS, the TUN device and the configuration file.
- `tests/` run the library on concrete values.
