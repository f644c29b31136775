//! The configuration of the proxy and what follows from it alone.
use vstd::prelude::*;

verus! {

/// The whole configuration.
#[derive(Debug, Clone)]
pub struct Config {
    pub services: Vec<ServiceConfig>,
}

/// The configuration of one service.
#[derive(Debug, Clone)]
pub struct ServiceConfig {
    pub name: String,
    pub protocol: Protocol,
    pub listen_addr: String,
    pub backends: Vec<String>,
    pub load_balance: LoadBalanceMode,
    pub http_rules: Option<HttpRules>,
    pub cert_path: Option<String>,
    pub key_path: Option<String>,
    pub acme_domain: Option<String>,
    pub acme_email: Option<String>,
    pub rate_limit: Option<RateLimitConfig>,
}

/// The limit on the rate of requests of one client. Both numbers are carried as the bits of
/// a double precision number, which only the arithmetic of the rate limiter looks into.
#[derive(Debug, Clone, Copy, PartialEq, Eq, Structural)]
pub struct RateLimitConfig {
    pub max_requests: u64,
    pub refill_rate: u64,
}

/// How a backend is chosen.
#[derive(Debug, Clone, Copy, PartialEq, Eq, Structural)]
pub enum LoadBalanceMode {
    RoundRobin,
    Random,
}

impl Default for LoadBalanceMode {
    fn default() -> (r: Self)
        ensures
            r == LoadBalanceMode::RoundRobin,
    {
        LoadBalanceMode::RoundRobin
    }
}

/// What a service speaks.
#[derive(Debug, Clone, Copy, PartialEq, Eq, Structural)]
pub enum Protocol {
    Tcp,
    Udp,
    Http,
}

/// The rules of an HTTP service.
#[derive(Debug, Clone)]
pub struct HttpRules {
    pub routes: Option<Vec<Route>>,
    pub headers: Option<HeadersConfig>,
}

/// The backends of the requests below one path.
#[derive(Debug, Clone)]
pub struct Route {
    pub path: String,
    pub backends: Vec<String>,
}

/// The header fields to set and to remove, in the order in which this is done.
#[derive(Debug, Clone)]
pub struct HeadersConfig {
    pub inject: Option<Vec<(String, String)>>,
    pub remove: Option<Vec<String>>,
}

/// How a service comes by its certificate.
#[derive(Debug)]
pub enum TlsMode {
    /// Certificates are provisioned for `domain`, with `email` as the contact.
    Acme { domain: String, email: String },
    /// Certificate and key are read from files.
    Static { cert_path: String, key_path: String },
    /// Connections are not encrypted.
    Plain,
}

impl TlsMode {
    /// Why a service with this mode cannot serve HTTP/3; nothing where it can.
    pub fn h3_refusal(&self) -> (r: Option<&'static str>)
        ensures
            match r {
                Some(text) => self is Plain && text@
                    == "HTTP/3 engine requires certs/keys or acme_domain parameters"@,
                None => !(self is Plain),
            },
    {
        match self {
            TlsMode::Plain => Some("HTTP/3 engine requires certs/keys or acme_domain parameters"),
            _ => None,
        }
    }
}

/// The contact where the configuration of a service names none.
pub open spec fn default_email() -> Seq<char> {
    "admin@example.com"@
}

/// The text in an optional string.
pub open spec fn opt_text(s: Option<String>) -> Option<Seq<char>> {
    match s {
        Some(t) => Some(t@),
        None => None,
    }
}

/// The texts in a list of strings.
pub open spec fn texts(list: Seq<String>) -> Seq<Seq<char>> {
    list.map_values(|s: String| s@)
}

impl ServiceConfig {
    /// Whether connections of this service are encrypted: a domain to provision a certificate
    /// for is named, or else a certificate and its key.
    pub open spec fn encrypted(&self) -> bool {
        self.acme_domain is Some || (self.cert_path is Some && self.key_path is Some)
    }

    /// Whether the service is presented as encrypted: a domain or a certificate is named.
    pub open spec fn presented_encrypted(&self) -> bool {
        self.cert_path is Some || self.acme_domain is Some
    }

    /// The label of the service's protocol.
    pub open spec fn label(&self) -> Seq<char> {
        match self.protocol {
            Protocol::Tcp => if self.presented_encrypted() {
                "tcps"@
            } else {
                "tcp"@
            },
            Protocol::Udp => "udp"@,
            Protocol::Http => if self.presented_encrypted() {
                "https"@
            } else {
                "http"@
            },
        }
    }

    /// Whether connections of this service are encrypted.
    pub fn is_encrypted(&self) -> (r: bool)
        ensures
            r == self.encrypted(),
    {
        self.acme_domain.is_some() || (self.cert_path.is_some() && self.key_path.is_some())
    }

    /// How this service comes by its certificate: a domain goes before certificate files,
    /// and one of the two files alone counts for nothing.
    pub fn tls_mode(&self) -> (r: TlsMode)
        ensures
            (r is Plain) == !self.encrypted(),
            match r {
                TlsMode::Acme { domain, email } => opt_text(self.acme_domain) == Some(domain@)
                    && email@ == (match self.acme_email {
                    Some(e) => e@,
                    None => default_email(),
                }),
                TlsMode::Static { cert_path, key_path } => self.acme_domain is None && opt_text(
                    self.cert_path,
                ) == Some(cert_path@) && opt_text(self.key_path) == Some(key_path@),
                TlsMode::Plain => true,
            },
    {
        if let Some(domain) = &self.acme_domain {
            let email: String = match &self.acme_email {
                Some(e) => e.clone(),
                None => "admin@example.com".to_string(),
            };
            return TlsMode::Acme { domain: domain.clone(), email };
        }
        if let Some(cert) = &self.cert_path {
            if let Some(key) = &self.key_path {
                return TlsMode::Static { cert_path: cert.clone(), key_path: key.clone() };
            }
        }
        TlsMode::Plain
    }

    /// The label under which the service's protocol is shown.
    pub fn protocol_label(&self) -> (r: String)
        ensures
            r@ == self.label(),
    {
        let encrypted = self.cert_path.is_some() || self.acme_domain.is_some();
        match self.protocol {
            Protocol::Tcp => if encrypted {
                "tcps".to_string()
            } else {
                "tcp".to_string()
            },
            Protocol::Udp => "udp".to_string(),
            Protocol::Http => if encrypted {
                "https".to_string()
            } else {
                "http".to_string()
            },
        }
    }
}

} // verus!
