# ProxyBridge

A process-level transparent proxy for Linux: the TCP and UDP traffic of chosen
applications goes through a SOCKS5 or HTTP proxy, is blocked, or is let through,
by rules of the form

```
process:hosts:ports:protocol:action
```

| Field | Examples |
|---|---|
| `process` | `curl`, `fire*`, `*fox`, `curl;wget` |
| `hosts` | `*`, `192.168.1.*`, `10.0.0.1-255` |
| `ports` | `*`, `80`, `80,443`, `1024-65535` |
| `protocol` | `tcp`, `udp`, `both` |
| `action` | `proxy`, `direct`, `block` |

The first rule that matches a connection decides it; where none does, the connection
is let through.

## Layout

`src/` is the library. Its functions are verified by Verus against their
contracts, and the files ending in `_laws.rs`, like the `law_` functions elsewhere,
state what holds of it as a whole.

What is trusted, not proved, are the contracts of a few outside functions: the
wrapper `encode_base64` around the base64 crate's `Engine::encode`, and the
specifications of `String::push`, `str::to_uppercase`, `std::str::from_utf8`,
`Instant::now`, `Instant::elapsed` and `Duration::as_nanos` of the standard
library. Each says in its doc comment what it claims.

| Module | What it is about |
|---|---|
| `text`, `addr` | text and address primitives |
| `config` | constants and the proxy configuration |
| `pattern`, `pattern_laws` | process, address and port patterns |
| `rule`, `rule_text`, `rule_laws` | the rule engine and the textual form of rules |
| `connection` | the connection tracker and the process id cache |
| `packet` | the judgement of outgoing packets |
| `process`, `sock_diag` | the search for the owner of a connection |
| `netfilter` | the packet filter rules, and what they do to packets |
| `proxy` | the SOCKS5 handshake and datagrams, and HTTP CONNECT |
| `relay` | how connections and datagrams travel through the proxy |
| `cli` | the command line and the start-up lines |

`app/` is the program around it: files, sockets, the packet queue, and the kernel's
packet filter. The library itself reads nothing but the clock; it says what to do next.

An address is a `u32` whose lowest byte is the first octet of the dotted form.
