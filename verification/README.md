# Spectra Proxy

A reverse proxy for TCP, UDP and HTTP (1, 2 and 3) with load balancing, circuit breakers, rate
limits, header rules and a dashboard.

- `src/` is the library, written in Verus: every decision of the proxy is a function with a
  contract. Sockets do not occur in it. A proxy is told what came of the last operation on a
  socket and says what is to be done next.
- `app/` is the program around it: sockets, files, TLS, the terminal, and the floating point
  arithmetic of the token buckets.
- `tests/` runs the library on concrete values.

## Modules

| module | what it states |
| --- | --- |
| `middleware::load_balancer` | which backend is chosen, when a breaker trips and recovers |
| `middleware::rate_limiter` | which bucket decides on a request and what becomes of it |
| `middleware`, `middleware::intake` | the filters that a connection passes, in order |
| `tcp`, `udp`, `http` | the course of connections, sessions and requests, and their counters |
| `headers` | the header fields of forwarded requests and of answers |
| `config`, `services` | from a configuration to services, and what a reload keeps |
| `metrics`, `ui` | the counters and how they are shown |
| `tls` | what certificate and key files must hold |
| `clock`, `addr`, `text`, `keyed` | time, addresses, text and lists with unique keys |

Functions named `law_..` are proofs of what holds of the library as a whole.

What is taken from other crates without proof stands in functions whose comments begin with
`Trusted`.
