# sstp_proto

The logic of an SSTP VPN client for macOS, verified with Verus.

- `src/` is the library. It holds the wire formats (`packet`, `ppp`, `cp`,
  `http`), the negotiations (`lcp`, `ipcp`, `chap_fsm`), the key derivations
  (`chap`, `mppe`, `cmac`), the session (`engine`, `connection`) and the
  decisions of the program around it (`startup`, `worker`, `teardown`, `route`,
  `status`, `config` and their helpers). Every function states what it returns,
  and laws that relate several functions are public proof functions whose names
  start with `law_`.
- The digests, the cipher, random values and a few functions of the standard
  library are reached through trusted items, in `crypto`, `entropy` and `text`.
- `app/` is the program: sockets, TLS, the tunnel interface, files, the tools of
  the system, and the window. It hands plain values to the library and carries
  out what comes back.
- `tests/` runs the library on concrete values.
