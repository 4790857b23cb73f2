use vstd::prelude::*;
use vstd::utf8::*;
use syslog::LogFormat;
use crate::text::{decimal, digit_char};
use crate::event::{
    display, field_view, has_name, keep_names, lemma_keep_names_contains, lemma_keep_names_has,
    not_named, value_of, Field, LogEvent, ValueView,
};
use crate::encoding::{names_view, name_allowed, Encoding, EncodingConfig};

verus! {

/// The error of serde_json's serializer, carried through as it is.
#[verifier::external_type_specification]
#[verifier::external_body]
pub struct ExJsonError(serde_json::Error);

/// The error of syslog's formatter, carried through as it is.
#[verifier::external_type_specification]
#[verifier::external_body]
pub struct ExSyslogError(syslog::Error);

/// Why an event could not be encoded.
#[derive(Clone, Copy, Debug, PartialEq, Eq, Structural)]
pub enum EncodeError {
    /// The body could not be rendered as JSON. No value this library holds leads
    /// to it: every event has a JSON form.
    Serialization,
}

/// The name of the field that holds the originating host.
pub open spec fn host_key_spec() -> Seq<char> {
    seq!['h', 'o', 's', 't']
}

/// The name of the field that holds the message text.
pub open spec fn message_key_spec() -> Seq<char> {
    seq!['m', 'e', 's', 's', 'a', 'g', 'e']
}

/// The application name written in every record.
pub open spec fn app_name_spec() -> Seq<char> {
    seq!['v', 'e', 'c', 't', 'o', 'r']
}

/// The name of the host field.
pub fn host_key() -> (r: String)
    ensures
        r@ == host_key_spec(),
{
    proof { reveal_strlit("host"); }
    "host".to_owned()
}

/// The name of the message field.
pub fn message_key() -> (r: String)
    ensures
        r@ == message_key_spec(),
{
    proof { reveal_strlit("message"); }
    "message".to_owned()
}

/// The application name written in every record.
pub fn app_name() -> (r: String)
    ensures
        r@ == app_name_spec(),
{
    proof { reveal_strlit("vector"); }
    "vector".to_owned()
}

impl LogEvent {
    /// An event whose only field is the message `msg`.
    pub fn from_message(msg: &str) -> (r: LogEvent)
        ensures
            r.wf(),
            r@ == seq![(message_key_spec(), ValueView::Bytes(msg@))],
    {
        let mut ev = LogEvent::new();
        ev.insert(message_key(), crate::event::Value::Bytes(msg.to_owned()));
        assert(ev@ =~= seq![(message_key_spec(), ValueView::Bytes(msg@))]);
        ev
    }
}

/// Whether `c` is an ASCII letter or digit.
pub open spec fn is_ascii_alnum(c: char) -> bool {
    ('0' <= c <= '9') || ('a' <= c <= 'z') || ('A' <= c <= 'Z')
}

/// A timestamp of the shape `Mmm dd hh:mm:ss`.
pub open spec fn is_timestamp(ts: Seq<char>) -> bool {
    &&& ts.len() == 15
    &&& ts[3] == ' ' && ts[6] == ' ' && ts[9] == ':' && ts[12] == ':'
    &&& forall|i: int| 0 <= i < 15 && i != 3 && i != 6 && i != 9 && i != 12
        ==> is_ascii_alnum(#[trigger] ts[i])
}

/// An RFC3164 line with priority 14 (user-level, informational):
/// `<14>` timestamp, a space, the hostname and a space when there is one,
/// then `process[pid]: ` and the message.
pub open spec fn syslog_line(
    ts: Seq<char>,
    hostname: Option<Seq<char>>,
    process: Seq<char>,
    pid: u32,
    message: Seq<char>,
) -> Seq<char> {
    let host_part = match hostname {
        Some(h) => h + seq![' '],
        None => Seq::<char>::empty(),
    };
    seq!['<', '1', '4', '>'] + ts + seq![' '] + host_part + process + seq!['['] + decimal(
        pid as nat,
    ) + seq![']', ':', ' '] + message
}

/// The text that serde_json writes for a JSON object holding the given fields.
pub uninterp spec fn json_object_text(fields: Seq<(Seq<char>, ValueView)>) -> Seq<char>;

/// Relies on serde_json's `to_string` of a `serde_json::Value::Object` built from the
/// fields: the text depends on the fields alone, and its compact form escapes control
/// characters inside strings, so it holds no line feed. It fails only for a failing
/// `Serialize` impl or a non-string map key, and a `serde_json::Value` has neither.
#[verifier::external_body]
fn json_text(fields: &[Field]) -> (r: Result<String, serde_json::Error>)
    ensures
        r is Ok,
        r matches Ok(s) ==> s@ == json_object_text(fields@.map_values(|f: Field| field_view(f)))
            && forall|i: int|
            0 <= i < s@.len() ==> s@[i] != '\n',
{
    let mut map = serde_json::Map::new();
    for f in fields {
        let v = match &f.value {
            crate::event::Value::Bytes(s) => serde_json::Value::String(s.clone()),
            crate::event::Value::Integer(n) => serde_json::Value::from(*n),
            crate::event::Value::Boolean(b) => serde_json::Value::Bool(*b),
            crate::event::Value::Null => serde_json::Value::Null,
        };
        map.insert(f.name.clone(), v);
    }
    serde_json::to_string(&serde_json::Value::Object(map))
}

/// Relies on syslog's `Formatter3164::format` with facility LOG_USER and severity
/// LOG_INFO, written into a `Vec<u8>`. On unix its timestamp is the current UTC time
/// in the form `Mmm dd hh:mm:ss`; the rest of the line is the hostname, process, pid
/// and message as given. It fails only when the writer does, and writing into a
/// `Vec<u8>` does not fail.
#[verifier::external_body]
fn format_3164(hostname: Option<String>, process: String, pid: u32, message: String) -> (r: Result<
    Vec<u8>,
    syslog::Error,
>)
    ensures
        r is Ok,
        r matches Ok(b) ==> exists|ts: Seq<char>|
            is_timestamp(ts) && b@ == encode_utf8(
                syslog_line(ts, opt_view(hostname), process@, pid, message@),
            ),
{
    let formatter = syslog::Formatter3164 {
        facility: syslog::Facility::LOG_USER,
        hostname,
        process,
        pid,
    };
    let mut out: Vec<u8> = Vec::new();
    formatter.format(&mut out, syslog::Severity::LOG_INFO, message).map(|_| out)
}

/// The view of an optional string.
pub open spec fn opt_view(s: Option<String>) -> Option<Seq<char>> {
    match s {
        Some(t) => Some(t@),
        None => None,
    }
}

/// The display text of the host field, if the event has one.
pub open spec fn host_of(ev: Seq<(Seq<char>, ValueView)>) -> Option<Seq<char>> {
    match value_of(ev, host_key_spec()) {
        Some(v) => Some(display(v)),
        None => None,
    }
}

/// The fields that reach the body: all but the host field, then those the filter keeps.
pub open spec fn body_fields(
    ev: Seq<(Seq<char>, ValueView)>,
    encoding: EncodingConfig,
) -> Seq<(Seq<char>, ValueView)> {
    keep_names(keep_names(ev, not_named(host_key_spec())), encoding.allows())
}

/// The text codec's body: the display text of the message field, or empty.
pub open spec fn text_body_of(fields: Seq<(Seq<char>, ValueView)>) -> Seq<char> {
    match value_of(fields, message_key_spec()) {
        Some(v) => display(v),
        None => Seq::<char>::empty(),
    }
}

/// The message body for the given codec.
pub open spec fn body_of(ev: Seq<(Seq<char>, ValueView)>, encoding: EncodingConfig) -> Seq<char> {
    match encoding.codec {
        Encoding::Json => json_object_text(body_fields(ev, encoding)),
        Encoding::Text => text_body_of(body_fields(ev, encoding)),
    }
}

/// The bytes of one record: the UTF-8 line followed by a line feed.
pub open spec fn record_bytes(
    ts: Seq<char>,
    ev: Seq<(Seq<char>, ValueView)>,
    pid: u32,
    encoding: EncodingConfig,
) -> Seq<u8> {
    encode_utf8(syslog_line(ts, host_of(ev), app_name_spec(), pid, body_of(ev, encoding))) + seq![
        10u8,
    ]
}

/// Whether neither the hostname nor a text body holds a line feed; a JSON body never does.
pub open spec fn line_safe(ev: Seq<(Seq<char>, ValueView)>, encoding: EncodingConfig) -> bool {
    &&& (match host_of(ev) {
        Some(h) => no_line_feed(h),
        None => true,
    })
    &&& (encoding.codec == Encoding::Text ==> no_line_feed(text_body_of(body_fields(ev, encoding))))
}

/// Takes the host field out of the event, returning its display text.
pub fn take_host(event: &mut LogEvent) -> (r: Option<String>)
    requires
        old(event).wf(),
    ensures
        final(event).wf(),
        opt_view(r) == host_of(old(event)@),
        final(event)@ == keep_names(old(event)@, not_named(host_key_spec())),
{
    let key = host_key();
    match event.remove(&key) {
        Some(v) => Some(v.to_string_lossy()),
        None => None,
    }
}

/// The display text of the message field, or an empty string.
pub fn text_body(event: &LogEvent) -> (r: String)
    requires
        event.wf(),
    ensures
        r@ == text_body_of(event@),
{
    let key = message_key();
    match event.get(&key) {
        Some(v) => v.to_string_lossy(),
        None => String::new(),
    }
}

/// Ends a formatted line with the line feed that delimits records.
pub fn terminate_line(line: Vec<u8>) -> (r: Vec<u8>)
    ensures
        r@ == line@.push(10u8),
{
    let mut out = line;
    out.push(10u8);
    out
}

/// Encodes one event as a syslog record: the host field becomes the hostname, the
/// filter is applied, the body is rendered by the codec, and a line feed ends it.
pub fn encode_event(event: LogEvent, pid: u32, encoding: &EncodingConfig) -> (r: Result<
    Vec<u8>,
    EncodeError,
>)
    requires
        event.wf(),
    ensures
        r is Ok,
        r matches Ok(b) ==> exists|ts: Seq<char>|
            is_timestamp(ts) && b@ == record_bytes(ts, event@, pid, *encoding),
        r matches Ok(b) ==> b@.len() > 0 && b@.last() == 10u8,
        r matches Ok(b) ==> (line_safe(event@, *encoding) ==> is_single_record(b@)),
{
    let mut event = event;
    let host = take_host(&mut event);
    encoding.apply_rules(&mut event);
    let message = match encoding.codec() {
        Encoding::Json => match json_text(event.fields_slice()) {
            Ok(s) => s,
            Err(_) => {
                return Err(EncodeError::Serialization);
            },
        },
        Encoding::Text => text_body(&event),
    };
    Ok(assemble_record(host, pid, message))
}

/// Writes the syslog line for a rendered body and ends it with a line feed.
pub fn assemble_record(hostname: Option<String>, pid: u32, body: String) -> (r: Vec<u8>)
    ensures
        exists|ts: Seq<char>|
            is_timestamp(ts) && r@ == encode_utf8(
                syslog_line(ts, opt_view(hostname), app_name_spec(), pid, body@),
            ) + seq![10u8],
        r@.len() > 0 && r@.last() == 10u8,
        (match hostname {
            Some(h) => no_line_feed(h@),
            None => true,
        }) && no_line_feed(body@) ==> is_single_record(r@),
{
    let ghost host = opt_view(hostname);
    let ghost text = body@;
    match format_3164(hostname, app_name(), pid, body) {
        Ok(line) => {
            proof {
                let ts = choose|ts: Seq<char>|
                    is_timestamp(ts) && line@ == encode_utf8(
                        syslog_line(ts, host, app_name_spec(), pid, text),
                    );
                assert(no_line_feed(app_name_spec())) by {
                    assert forall|i: int| 0 <= i < 6 implies app_name_spec()[i] != '\n' by {
                        assert(app_name_spec() =~= seq!['v', 'e', 'c', 't', 'o', 'r']);
                    }
                }
                assert(line@.push(10u8) =~= line@ + seq![10u8]);
                if (match host {
                    Some(h) => no_line_feed(h),
                    None => true,
                }) && no_line_feed(text) {
                    lemma_single_record(ts, host, app_name_spec(), pid, text);
                }
            }
            terminate_line(line)
        },
        Err(_) => unreached(),
    }
}

/// Whether no character of `s` is a line feed.
pub open spec fn no_line_feed(s: Seq<char>) -> bool {
    forall|i: int| 0 <= i < s.len() ==> s[i] != '\n'
}

/// One record on the wire: a line feed at the end and nowhere else.
pub open spec fn is_single_record(b: Seq<u8>) -> bool {
    &&& b.len() > 0
    &&& b.last() == 10u8
    &&& forall|i: int| 0 <= i < b.len() - 1 ==> b[i] != 10u8
}

proof fn lemma_marked_byte(x: u8)
    by (bit_vector)
    ensures
        (0x80u8 | x) != 10u8,
        (0xC0u8 | x) != 10u8,
        (0xE0u8 | x) != 10u8,
        (0xF0u8 | x) != 10u8,
{
}

proof fn lemma_low_byte(v: u32)
    by (bit_vector)
    requires
        v <= 0x7F,
        v != 10,
    ensures
        ((v & 0x7F) as u8) != 10u8,
{
}

/// The UTF-8 form of a character other than a line feed holds no line-feed byte.
proof fn lemma_scalar_no_line_feed(c: char)
    requires
        c != '\n',
    ensures
        forall|i: int| 0 <= i < encode_scalar(c as u32).len() ==> #[trigger] encode_scalar(c as u32)[i] != 10u8,
{
    let v = c as u32;
    assert(v != 10);
    if has_width_1_encoding(v) {
        lemma_low_byte(v);
    } else {
        lemma_marked_byte(((v >> 6) & 0x1F) as u8);
        lemma_marked_byte(((v >> 12) & 0x0F) as u8);
        lemma_marked_byte(((v >> 18) & 0x7) as u8);
        lemma_marked_byte((v & 0x3F) as u8);
        lemma_marked_byte(((v >> 6) & 0x3F) as u8);
        lemma_marked_byte(((v >> 12) & 0x3F) as u8);
    }
}

/// Text without line feeds encodes to bytes without line feeds.
pub proof fn lemma_utf8_no_line_feed(s: Seq<char>)
    requires
        no_line_feed(s),
    ensures
        forall|i: int| 0 <= i < encode_utf8(s).len() ==> #[trigger] encode_utf8(s)[i] != 10u8,
    decreases s.len(),
{
    if s.len() > 0 {
        let rest = s.drop_first();
        assert(s[0] == s[0]);
        lemma_scalar_no_line_feed(s[0]);
        assert(no_line_feed(rest)) by {
            assert forall|i: int| 0 <= i < rest.len() implies rest[i] != '\n' by {
                assert(rest[i] == s[i + 1]);
            }
        }
        lemma_utf8_no_line_feed(rest);
        let a = encode_scalar(s[0] as u32);
        let b = encode_utf8(rest);
        assert(encode_utf8(s) == a + b);
        assert forall|i: int| 0 <= i < encode_utf8(s).len() implies encode_utf8(s)[i] != 10u8 by {
            if i < a.len() {
                assert((a + b)[i] == a[i]);
            } else {
                assert((a + b)[i] == b[i - a.len()]);
            }
        }
    }
}

/// A decimal rendering is made of digits.
pub proof fn lemma_decimal_digits(n: nat)
    ensures
        forall|i: int| 0 <= i < decimal(n).len() ==> '0' <= #[trigger] decimal(n)[i] <= '9',
    decreases n,
{
    let d = n % 10;
    assert('0' <= digit_char(d) <= '9');
    if n >= 10 {
        lemma_decimal_digits(n / 10);
        let p = decimal(n / 10);
        assert forall|i: int| 0 <= i < decimal(n).len() implies '0' <= #[trigger] decimal(n)[i] <= '9' by {
            if i < p.len() {
                assert(decimal(n)[i] == p[i]);
            }
        }
    }
}

/// A line whose hostname and message hold no line feed, followed by one line feed,
/// is a single record.
pub proof fn lemma_single_record(
    ts: Seq<char>,
    hostname: Option<Seq<char>>,
    process: Seq<char>,
    pid: u32,
    message: Seq<char>,
)
    requires
        is_timestamp(ts),
        hostname matches Some(h) ==> no_line_feed(h),
        no_line_feed(process),
        no_line_feed(message),
    ensures
        is_single_record(encode_utf8(syslog_line(ts, hostname, process, pid, message)) + seq![10u8]),
{
    let line = syslog_line(ts, hostname, process, pid, message);
    let host_part = match hostname {
        Some(h) => h + seq![' '],
        None => Seq::<char>::empty(),
    };
    lemma_decimal_digits(pid as nat);
    let p1 = seq!['<', '1', '4', '>'] + ts + seq![' '];
    let p2 = p1 + host_part;
    let p3 = p2 + process + seq!['['];
    let p4 = p3 + decimal(pid as nat);
    let p5 = p4 + seq![']', ':', ' '];
    assert(line == p5 + message);
    assert(no_line_feed(p1)) by {
        assert forall|i: int| 0 <= i < p1.len() implies p1[i] != '\n' by {
            if 4 <= i < 19 {
                assert(p1[i] == ts[i - 4]);
                if i - 4 != 3 && i - 4 != 6 && i - 4 != 9 && i - 4 != 12 {
                    assert(is_ascii_alnum(ts[i - 4]));
                }
            }
        }
    }
    assert(no_line_feed(p2)) by {
        assert forall|i: int| 0 <= i < p2.len() implies p2[i] != '\n' by {
            if i >= p1.len() {
                assert(p2[i] == host_part[i - p1.len()]);
                if let Some(h) = hostname {
                    if i - p1.len() < h.len() {
                        assert(host_part[i - p1.len()] == h[i - p1.len()]);
                    }
                }
            }
        }
    }
    assert(no_line_feed(p3)) by {
        assert forall|i: int| 0 <= i < p3.len() implies p3[i] != '\n' by {
            if i >= p2.len() && i < p2.len() + process.len() {
                assert(p3[i] == process[i - p2.len()]);
            }
        }
    }
    assert(no_line_feed(p4)) by {
        assert forall|i: int| 0 <= i < p4.len() implies p4[i] != '\n' by {
            if i >= p3.len() {
                assert(p4[i] == decimal(pid as nat)[i - p3.len()]);
            }
        }
    }
    assert(no_line_feed(line)) by {
        assert forall|i: int| 0 <= i < line.len() implies line[i] != '\n' by {
            if i < p4.len() {
                assert(line[i] == p4[i]);
            } else if i >= p5.len() {
                assert(line[i] == message[i - p5.len()]);
            }
        }
    }
    lemma_utf8_no_line_feed(line);
    let b = encode_utf8(line);
    let r = b + seq![10u8];
    assert forall|i: int| 0 <= i < r.len() - 1 implies r[i] != 10u8 by {
        assert(r[i] == b[i]);
    }
}

/// The host field never reaches the body.
pub proof fn lemma_host_not_in_body(event: LogEvent, encoding: EncodingConfig)
    ensures
        !has_name(body_fields(event@, encoding), host_key_spec()),
{
    let ev = event@;
    let after_host = keep_names(ev, not_named(host_key_spec()));
    lemma_keep_names_has(after_host, encoding.allows(), host_key_spec());
    lemma_keep_names_has(ev, not_named(host_key_spec()), host_key_spec());
}

/// No field named in the deny-list reaches the body.
pub proof fn lemma_excluded_not_in_body(event: LogEvent, encoding: EncodingConfig, name: Seq<char>)
    requires
        names_view(encoding.except_fields) matches Some(e) && e.contains(name),
    ensures
        !has_name(body_fields(event@, encoding), name),
{
    let ev = event@;
    let after_host = keep_names(ev, not_named(host_key_spec()));
    lemma_keep_names_has(after_host, encoding.allows(), name);
}

/// The body's fields are exactly the event's fields, less the host field and less
/// those the filter refuses; with the JSON codec the body is the JSON text of them.
pub proof fn lemma_body_fields(event: LogEvent, encoding: EncodingConfig, x: (Seq<char>, ValueView))
    ensures
        body_fields(event@, encoding).contains(x) <==> (event@.contains(x) && x.0 != host_key_spec()
            && name_allowed(names_view(encoding.only_fields), names_view(encoding.except_fields), x.0)),
        encoding.codec == Encoding::Json ==> body_of(event@, encoding) == json_object_text(
            body_fields(event@, encoding),
        ),
{
    let ev = event@;
    let after_host = keep_names(ev, not_named(host_key_spec()));
    lemma_keep_names_contains(after_host, encoding.allows(), x);
    lemma_keep_names_contains(ev, not_named(host_key_spec()), x);
}

} // verus!
