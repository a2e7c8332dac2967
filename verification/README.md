# frps-defender

An frp server plugin that rejects `NewUserConn` connections whose source
address lies in the ranges of configured providers, on a dynamic block list,
or that a threat-intelligence lookup reports as a threat.

- `src/` is the verified library (Verus): IP addresses and networks
  (`net`), the provider range lists (`ranges`), the provider matcher
  (`matcher`), the configuration model (`config`), the in-memory dynamic block
  list (`dynblock`), the lookup report (`ipdata`) and the handler's decisions
  (`handler`). CIDR parsing and network membership are `ipnet`'s.
- `app/` is the program around it: command line, JSON configuration file,
  SQLite storage of blocked routes, the HTTPS lookup, and the HTTP route.
- `tests/` runs the library on concrete values.
