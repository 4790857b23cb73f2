use papertrail::{
    assemble_record, encode_event, take_host, text_body, ConfigError, DataType,
    Encoding, EncodingConfig, Endpoint, LogEvent, PapertrailConfig, TlsConfig, Value,
};

fn json_policy(except: Option<Vec<&str>>) -> EncodingConfig {
    EncodingConfig {
        codec: Encoding::Json,
        only_fields: None,
        except_fields: except.map(|v| v.into_iter().map(String::from).collect()),
    }
}

fn text_policy() -> EncodingConfig {
    EncodingConfig { codec: Encoding::Text, only_fields: None, except_fields: None }
}

fn body_of(bytes: &[u8]) -> Vec<u8> {
    let start = String::from_utf8_lossy(bytes).find(": ").unwrap() + 2;
    bytes[start..bytes.len() - 1].to_vec()
}

fn config(endpoint: &str, tls: Option<TlsConfig>) -> PapertrailConfig {
    PapertrailConfig { endpoint: Endpoint::parse(endpoint), encoding: json_policy(None), tls }
}

#[test]
fn generate_config() {
    let cfg = PapertrailConfig::generate_config();
    assert_eq!(cfg.endpoint.host.as_deref(), Some("logs.papertrailapp.com"));
    assert_eq!(cfg.endpoint.port, Some(12345));
    assert_eq!(cfg.encoding.codec, Encoding::Json);
    assert!(cfg.tls.is_none());
    assert_eq!(cfg.input_type(), DataType::Log);
    assert_eq!(cfg.sink_type(), "papertrail");
    let sink = cfg.build(1).unwrap();
    assert_eq!(sink.address, "logs.papertrailapp.com:12345");
}

#[test]
fn encode_event_apply_rules() {
    let mut evt = LogEvent::from_message("vector");
    evt.insert("magic".to_string(), Value::Bytes("key".to_string()));

    let bytes = encode_event(evt, 0, &json_policy(Some(vec!["magic"]))).unwrap();

    let msg = body_of(&bytes);
    let value: serde_json::Value = serde_json::from_slice(&msg).unwrap();
    assert!(!value.as_object().unwrap().contains_key("magic"));
}

#[test]
fn json_body_has_no_excluded_or_host_key() {
    let mut evt = LogEvent::from_message("vector");
    evt.insert("magic".to_string(), Value::Bytes("key".to_string()));
    evt.insert("host".to_string(), Value::Bytes("web-1".to_string()));
    let bytes = encode_event(evt, 0, &json_policy(Some(vec!["magic"]))).unwrap();
    let value: serde_json::Value = serde_json::from_slice(&body_of(&bytes)).unwrap();
    let obj = value.as_object().unwrap();
    assert!(!obj.contains_key("magic"));
    assert!(!obj.contains_key("host"));
    assert_eq!(obj.get("message").and_then(|v| v.as_str()), Some("vector"));
}

#[test]
fn hostname_segment_is_host_display_value() {
    let mut evt = LogEvent::from_message("hi");
    evt.insert("host".to_string(), Value::Bytes("web-1".to_string()));
    let bytes = encode_event(evt, 42, &text_policy()).unwrap();
    let line = String::from_utf8(bytes).unwrap();
    assert!(line.starts_with("<14>"));
    let rest = &line[4 + 15..];
    assert_eq!(rest, " web-1 vector[42]: hi\n");
}

#[test]
fn integer_host_is_rendered_in_decimal() {
    let mut evt = LogEvent::new();
    evt.insert("host".to_string(), Value::Integer(-17));
    let host = take_host(&mut evt);
    assert_eq!(host.as_deref(), Some("-17"));
    assert_eq!(evt.len(), 0);
}

#[test]
fn missing_host_leaves_hostname_out() {
    let evt = LogEvent::from_message("hi");
    let bytes = encode_event(evt, 7, &text_policy()).unwrap();
    let line = String::from_utf8(bytes).unwrap();
    assert_eq!(&line[4 + 15..], " vector[7]: hi\n");
}

#[test]
fn text_codec_body_is_message() {
    let mut evt = LogEvent::from_message("hello");
    evt.insert("other".to_string(), Value::Boolean(true));
    let bytes = encode_event(evt, 0, &text_policy()).unwrap();
    assert_eq!(body_of(&bytes), b"hello".to_vec());
}

#[test]
fn text_codec_without_message_is_empty() {
    let mut evt = LogEvent::new();
    evt.insert("other".to_string(), Value::Integer(3));
    let bytes = encode_event(evt, 0, &text_policy()).unwrap();
    assert_eq!(body_of(&bytes), Vec::<u8>::new());
    assert_eq!(text_body(&LogEvent::new()), "");
}

#[test]
fn record_ends_with_single_newline() {
    let mut evt = LogEvent::from_message("line one");
    evt.insert("note".to_string(), Value::Bytes("a\nb".to_string()));
    let bytes = encode_event(evt, 3, &json_policy(None)).unwrap();
    assert_eq!(*bytes.last().unwrap(), b'\n');
    assert_eq!(bytes.iter().filter(|b| **b == b'\n').count(), 1);
}

#[test]
fn json_round_trip_equals_filtered_fields() {
    let mut evt = LogEvent::from_message("m");
    evt.insert("count".to_string(), Value::Integer(12));
    evt.insert("ok".to_string(), Value::Boolean(false));
    evt.insert("none".to_string(), Value::Null);
    evt.insert("secret".to_string(), Value::Bytes("x".to_string()));
    evt.insert("host".to_string(), Value::Bytes("h".to_string()));
    let bytes = encode_event(evt, 0, &json_policy(Some(vec!["secret"]))).unwrap();
    let value: serde_json::Value = serde_json::from_slice(&body_of(&bytes)).unwrap();
    let expected: serde_json::Value =
        serde_json::from_str(r#"{"message":"m","count":12,"ok":false,"none":null}"#).unwrap();
    assert_eq!(value, expected);
}

#[test]
fn only_fields_keeps_listed_fields() {
    let mut evt = LogEvent::from_message("m");
    evt.insert("a".to_string(), Value::Integer(1));
    evt.insert("b".to_string(), Value::Integer(2));
    let policy = EncodingConfig {
        codec: Encoding::Json,
        only_fields: Some(vec!["a".to_string()]),
        except_fields: None,
    };
    policy.apply_rules(&mut evt);
    assert_eq!(evt.len(), 1);
    assert_eq!(evt.field(0).name, "a");
}

#[test]
fn insert_replaces_existing_field() {
    let mut evt = LogEvent::from_message("first");
    evt.insert("message".to_string(), Value::Bytes("second".to_string()));
    assert_eq!(evt.len(), 1);
    assert!(evt.has_unique_names());
    assert_eq!(text_body(&evt), "second");
}

#[test]
fn resolve_host_and_port() {
    let cfg = config("logs.example.com:12345", None);
    assert_eq!(cfg.resolve().unwrap(), "logs.example.com:12345");
}

#[test]
fn resolve_missing_port() {
    assert_eq!(config("logs.example.com", None).resolve(), Err(ConfigError::MissingPort));
    assert_eq!(config("logs.example.com:", None).resolve(), Err(ConfigError::MissingPort));
    assert_eq!(config("logs.example.com:65536", None).resolve(), Err(ConfigError::MissingPort));
    assert_eq!(config("logs.example.com:12a", None).resolve(), Err(ConfigError::MissingPort));
}

#[test]
fn resolve_missing_host() {
    assert_eq!(config(":514", None).resolve(), Err(ConfigError::MissingHost));
    assert_eq!(config("", None).resolve(), Err(ConfigError::MissingHost));
}

#[test]
fn largest_port_is_accepted() {
    let ep = Endpoint::parse("h:65535");
    assert_eq!(ep.port, Some(65535));
    assert_eq!(ep.host.as_deref(), Some("h"));
    assert_eq!(Endpoint::parse("[::1]:0").host.as_deref(), Some("[::1]"));
}

#[test]
fn tls_enabled_by_default() {
    let sink = config("logs.example.com:12345", None).build(9).unwrap();
    assert_eq!(sink.tls.enabled, Some(true));
    assert_eq!(sink.tls.verify_certificate, None);
    assert_eq!(sink.pid, 9);
}

#[test]
fn tls_given_is_kept() {
    let tls = TlsConfig {
        enabled: Some(false),
        verify_certificate: Some(false),
        verify_hostname: None,
        ca_file: Some("ca.pem".to_string()),
        crt_file: None,
        key_file: None,
    };
    let sink = config("logs.example.com:12345", Some(tls)).build(1).unwrap();
    assert_eq!(sink.tls.enabled, Some(false));
    assert_eq!(sink.tls.ca_file.as_deref(), Some("ca.pem"));
}

#[test]
fn sink_encodes_with_its_pid() {
    let sink = config("logs.example.com:12345", None).build(1234).unwrap();
    let bytes = sink.encode_event(LogEvent::from_message("x")).unwrap();
    let line = String::from_utf8(bytes).unwrap();
    assert!(line.contains(" vector[1234]: "));
}

#[test]
fn assemble_record_frames_body() {
    let bytes = assemble_record(Some("h".to_string()), 5, "body".to_string());
    let line = String::from_utf8(bytes).unwrap();
    assert_eq!(&line[19..], " h vector[5]: body\n");
    let other = assemble_record(None, 5, String::new());
    assert_eq!(&String::from_utf8(other).unwrap()[19..], " vector[5]: \n");
}

#[test]
fn decimal_texts() {
    assert_eq!(papertrail::int_text(0), "0");
    assert_eq!(papertrail::int_text(-17), "-17");
    assert_eq!(papertrail::int_text(i64::MIN), "-9223372036854775808");
    assert_eq!(papertrail::int_text(i64::MAX), "9223372036854775807");
    assert_eq!(papertrail::decimal_text(u64::MAX), "18446744073709551615");
}
