# quicssh_rs

The decisions of a proxy server that carries SSH over QUIC, verified with Verus.

- `src/` is the library. `auth` makes and checks the rotating HMAC tokens that
  authenticate a handshake, `client_hello` reads the ALPN list that carries them,
  `acceptor` is the accept loop as a state machine, `routes` picks the SSH server
  of a connection, `settings` holds what the QUIC and TLS layers are configured
  with, `cert` makes the server's certificate, and `relay` steers a session.
  `bytes` and `reader` hold what these share; `clock` and `crypto` wrap the system
  clock, HMAC-SHA256 and constant-time comparison.
- `tests/` runs the library on concrete values.
- `app/` is the program around it: options, sockets, TLS and the async runtime.

With `QUICSSH_AUTH_SECRET` set, the program inspects the raw bytes of each
incoming handshake. That takes a build of `quinn` whose `Incoming` exposes them;
with any other build every handshake is then dropped.
