//! A reverse proxy for TCP, UDP and HTTP.
//!
//! The sockets belong to the program around this library. For each kind of service there is a
//! proxy (`tcp`, `udp`, `http`) that is told what came of the last operation on them and says
//! what is to be done next; it holds the filters that connections pass through (`middleware`)
//! and keeps the counters (`metrics`). `services` makes the proxies of a configuration
//! (`config`), and `ui` says what a dashboard shows of them. `laws` states what calls of all these
//! do, in terms of what goes in and what comes out.
pub mod addr;
pub mod clock;
pub mod config;
pub mod headers;
pub mod http;
pub mod keyed;
pub mod laws;
pub mod metrics;
pub mod middleware;
pub mod services;
pub mod tcp;
pub mod text;
pub mod tls;
pub mod udp;
pub mod ui;
