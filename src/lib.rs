//! Encodes structured log events as newline-delimited RFC3164 syslog records
//! and resolves the endpoint and TLS settings of a papertrail sink.

mod text;
pub mod event;
pub mod encoding;
pub mod record;
pub mod config;

pub use text::{decimal, decimal_text, int_decimal, int_text};
pub use event::{Field, LogEvent, Value, ValueView};
pub use encoding::{Encoding, EncodingConfig};
pub use record::{assemble_record, encode_event, host_key, message_key, take_host, text_body, EncodeError};
pub use config::{ConfigError, DataType, Endpoint, PapertrailConfig, PapertrailSink, TlsConfig};
