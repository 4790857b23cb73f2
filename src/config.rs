use vstd::prelude::*;
use vstd::string::StrSliceExecFns;
use vstd::string::StringExecFns;
use crate::text::{decimal, decimal_text};
use crate::event::LogEvent;
use crate::encoding::{Encoding, EncodingConfig};
use crate::record::{
    encode_event, is_single_record, is_timestamp, line_safe, opt_view, record_bytes, EncodeError,
};

verus! {

/// A destination given as `host:port`; either part may be missing.
pub struct Endpoint {
    pub host: Option<String>,
    pub port: Option<u16>,
}

/// Whether `c` is an ASCII decimal digit.
pub open spec fn is_digit(c: char) -> bool {
    '0' <= c <= '9'
}

/// The value of a sequence of decimal digits.
pub open spec fn digits_value(cs: Seq<char>) -> nat
    decreases cs.len(),
{
    if cs.len() == 0 {
        0
    } else {
        digits_value(cs.drop_last()) * 10 + ((cs.last() as nat) - ('0' as nat)) as nat
    }
}

/// The port written by `cs`: one or more decimal digits whose value fits in 16 bits.
pub open spec fn port_of(cs: Seq<char>) -> Option<u16> {
    if cs.len() > 0 && (forall|i: int| 0 <= i < cs.len() ==> is_digit(#[trigger] cs[i]))
        && digits_value(cs) <= 65535 {
        Some(digits_value(cs) as u16)
    } else {
        None
    }
}

/// The host part, absent when empty.
pub open spec fn host_part(cs: Seq<char>) -> Option<Seq<char>> {
    if cs.len() == 0 {
        None
    } else {
        Some(cs)
    }
}

/// Whether `i` is the position of the last `:` in `s`.
pub open spec fn is_last_colon(s: Seq<char>, i: int) -> bool {
    &&& 0 <= i < s.len()
    &&& s[i] == ':'
    &&& forall|j: int| i < j < s.len() ==> s[j] != ':'
}

/// Whether `s` holds a `:`.
pub open spec fn has_colon(s: Seq<char>) -> bool {
    exists|i: int| 0 <= i < s.len() && s[i] == ':'
}

impl Endpoint {
    /// Reads `host:port`, splitting at the last `:`. Without a `:` the whole text is the
    /// host; an empty host is absent, and so is a port that is not one or more
    /// decimal digits with a value of at most 65535.
    pub fn parse(s: &str) -> (r: Endpoint)
        ensures
            !has_colon(s@) ==> opt_view(r.host) == host_part(s@) && r.port is None,
            forall|i: int| is_last_colon(s@, i) ==>
                opt_view(r.host) == host_part(s@.take(i)) && r.port == port_of(s@.skip(i + 1)),
    {
        let n = s.unicode_len();
        let mut i: usize = n;
        while i > 0
            invariant
                i <= n,
                n == s@.len(),
                forall|j: int| i <= j < n ==> s@[j] != ':',
            decreases i,
        {
            if s.get_char(i - 1) == ':' {
                let colon = i - 1;
                let host_text = s.substring_char(0, colon);
                let host = if host_text.unicode_len() == 0 {
                    None
                } else {
                    Some(host_text.to_owned())
                };
                let port = parse_port(s.substring_char(colon + 1, n));
                proof {
                    assert(is_last_colon(s@, colon as int));
                    assert forall|k: int| is_last_colon(s@, k) implies k == colon by {
                        if k < colon {
                            assert(s@[colon as int] == ':');
                        }
                    }
                }
                return Endpoint { host, port };
            }
            i = i - 1;
        }
        let host = if n == 0 {
            None
        } else {
            Some(s.to_owned())
        };
        Endpoint { host, port: None }
    }
}

/// Reads a port number: one or more decimal digits, at most 65535.
fn parse_port(t: &str) -> (r: Option<u16>)
    ensures
        r == port_of(t@),
{
    let n = t.unicode_len();
    if n == 0 {
        return None;
    }
    let mut acc: u32 = 0;
    let mut i: usize = 0;
    while i < n
        invariant
            n == t@.len(),
            i <= n,
            acc <= 65535,
            acc == digits_value(t@.take(i as int)),
            forall|j: int| 0 <= j < i ==> is_digit(#[trigger] t@[j]),
        decreases n - i,
    {
        let c = t.get_char(i);
        proof {
            assert(t@.take(i + 1).drop_last() =~= t@.take(i as int));
            assert(t@.take(i + 1).last() == c);
        }
        if c < '0' || c > '9' {
            assert(!is_digit(t@[i as int]));
            return None;
        }
        let d = (c as u32) - ('0' as u32);
        let next = acc * 10 + d;
        if next > 65535 {
            proof {
                lemma_digits_grow(t@, i as int + 1);
                assert(t@.take(n as int) =~= t@);
            }
            return None;
        }
        acc = next;
        i = i + 1;
    }
    assert(t@.take(n as int) =~= t@);
    Some(acc as u16)
}

/// A longer prefix of digits is worth at least as much.
proof fn lemma_digits_grow(s: Seq<char>, k: int)
    requires
        0 <= k <= s.len(),
    ensures
        digits_value(s) >= digits_value(s.take(k)),
    decreases s.len() - k,
{
    if k < s.len() {
        lemma_digits_grow(s, k + 1);
        assert(s.take(k + 1).drop_last() =~= s.take(k));
    } else {
        assert(s.take(k) =~= s);
    }
}

/// TLS settings for the connection; an unset option takes the transport's default.
pub struct TlsConfig {
    pub enabled: Option<bool>,
    pub verify_certificate: Option<bool>,
    pub verify_hostname: Option<bool>,
    pub ca_file: Option<String>,
    pub crt_file: Option<String>,
    pub key_file: Option<String>,
}

impl TlsConfig {
    /// TLS switched on, every other setting at its default.
    pub fn enabled() -> (r: TlsConfig)
        ensures
            r == TlsConfig::enabled_spec(),
    {
        TlsConfig {
            enabled: Some(true),
            verify_certificate: None,
            verify_hostname: None,
            ca_file: None,
            crt_file: None,
            key_file: None,
        }
    }

    /// TLS switched on, every other setting at its default.
    pub open spec fn enabled_spec() -> TlsConfig {
        TlsConfig {
            enabled: Some(true),
            verify_certificate: None,
            verify_hostname: None,
            ca_file: None,
            crt_file: None,
            key_file: None,
        }
    }
}

/// Why a sink could not be set up from its configuration.
#[derive(Clone, Copy, Debug, PartialEq, Eq, Structural)]
pub enum ConfigError {
    MissingHost,
    MissingPort,
}

/// The kind of events a sink takes.
#[derive(Clone, Copy, Debug, PartialEq, Eq, Structural)]
pub enum DataType {
    Any,
    Log,
    Metric,
}

/// The configuration of a papertrail sink.
pub struct PapertrailConfig {
    pub endpoint: Endpoint,
    pub encoding: EncodingConfig,
    pub tls: Option<TlsConfig>,
}

/// A configured sink: where to connect, how, and how each event is encoded.
pub struct PapertrailSink {
    pub address: String,
    pub tls: TlsConfig,
    pub pid: u32,
    pub encoding: EncodingConfig,
}

/// `host:port` with the port in decimal.
pub open spec fn address_of(host: Seq<char>, port: u16) -> Seq<char> {
    host + seq![':'] + decimal(port as nat)
}

/// The text `host:port`.
fn address_text(host: &str, port: u16) -> (r: String)
    ensures
        r@ == address_of(host@, port),
{
    proof { reveal_strlit(":"); }
    let with_colon = host.to_owned().concat(":");
    with_colon.concat(decimal_text(port as u64).as_str())
}

impl PapertrailConfig {
    /// An example configuration: the papertrail endpoint with JSON bodies.
    pub fn generate_config() -> (r: PapertrailConfig)
        ensures
            opt_view(r.endpoint.host) == Some(
                seq!['l', 'o', 'g', 's', '.', 'p', 'a', 'p', 'e', 'r', 't', 'r', 'a', 'i', 'l',
                'a', 'p', 'p', '.', 'c', 'o', 'm'],
            ),
            r.endpoint.port == Some(12345u16),
            r.encoding.codec == Encoding::Json,
            r.encoding.only_fields is None,
            r.encoding.except_fields is None,
            r.tls is None,
    {
        proof { reveal_strlit("logs.papertrailapp.com"); }
        PapertrailConfig {
            endpoint: Endpoint { host: Some("logs.papertrailapp.com".to_owned()), port: Some(12345) },
            encoding: EncodingConfig { codec: Encoding::Json, only_fields: None, except_fields: None },
            tls: None,
        }
    }

    /// The address to connect to and the TLS settings: the given ones, else TLS on.
    pub fn resolve(&self) -> (r: Result<String, ConfigError>)
        ensures
            self.endpoint.host is None ==> r == Err::<String, ConfigError>(ConfigError::MissingHost),
            self.endpoint.host is Some && self.endpoint.port is None ==> r == Err::<String, ConfigError>(ConfigError::MissingPort),
            self.endpoint.host is Some && self.endpoint.port is Some ==> (r matches Ok(a)
                && a@ == address_of(self.endpoint.host->0@, self.endpoint.port->0)),
    {
        let host = match &self.endpoint.host {
            Some(h) => h,
            None => {
                return Err(ConfigError::MissingHost);
            },
        };
        let port = match self.endpoint.port {
            Some(p) => p,
            None => {
                return Err(ConfigError::MissingPort);
            },
        };
        Ok(address_text(host.as_str(), port))
    }

    /// Sets up the sink: resolves the address, takes the given TLS settings or TLS on
    /// by default, and fixes the process id and encoding used for every event.
    pub fn build(self, pid: u32) -> (r: Result<PapertrailSink, ConfigError>)
        ensures
            self.endpoint.host is None ==> (r matches Err(e) && e == ConfigError::MissingHost),
            self.endpoint.host is Some && self.endpoint.port is None ==> (r matches Err(e) && e == ConfigError::MissingPort),
            self.endpoint.host is Some && self.endpoint.port is Some ==> (r matches Ok(s)
                && s.address@ == address_of(self.endpoint.host->0@, self.endpoint.port->0)
                && s.tls == (match self.tls { Some(t) => t, None => TlsConfig::enabled_spec() })
                && s.pid == pid && s.encoding == self.encoding),
    {
        let address = match self.resolve() {
            Ok(a) => a,
            Err(e) => {
                return Err(e);
            },
        };
        let tls = match self.tls {
            Some(t) => t,
            None => TlsConfig::enabled(),
        };
        Ok(PapertrailSink { address, tls, pid, encoding: self.encoding })
    }

    /// The sink takes log events.
    pub fn input_type(&self) -> (r: DataType)
        ensures
            r == DataType::Log,
    {
        DataType::Log
    }

    /// The sink's type name, `papertrail`.
    pub fn sink_type(&self) -> (r: String)
        ensures
            r@ == seq!['p', 'a', 'p', 'e', 'r', 't', 'r', 'a', 'i', 'l'],
    {
        proof { reveal_strlit("papertrail"); }
        "papertrail".to_owned()
    }
}

impl PapertrailSink {
    /// Encodes one event with the sink's process id and encoding.
    pub fn encode_event(&self, event: LogEvent) -> (r: Result<Vec<u8>, EncodeError>)
        requires
            event.wf(),
        ensures
            r is Ok,
            r matches Ok(b) ==> exists|ts: Seq<char>|
                is_timestamp(ts) && b@ == record_bytes(ts, event@, self.pid, self.encoding),
            r matches Ok(b) ==> b@.len() > 0 && b@.last() == 10u8,
            r matches Ok(b) ==> (line_safe(event@, self.encoding) ==> is_single_record(b@)),
    {
        encode_event(event, self.pid, &self.encoding)
    }
}

} // verus!
