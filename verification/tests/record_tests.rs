use zitadel_core::json::{to_json_text, JsonMember, JsonValue};
use zitadel_core::obs_record::{
    build_redaction, redact_record, redact_value, value_as_string, EventMeta, IpMode, Redaction, Severity,
    StructuredRecord,
};
use zitadel_core::observability::Stream;

fn obj(members: Vec<(&str, JsonValue)>) -> JsonValue {
    JsonValue::Object(members.into_iter().map(|(k, v)| JsonMember { key: k.to_string(), value: v }).collect())
}

fn s(v: &str) -> JsonValue {
    JsonValue::Str(v.to_string())
}

fn get<'a>(v: &'a JsonValue, key: &str) -> Option<&'a JsonValue> {
    match v {
        JsonValue::Object(ms) => ms.iter().find(|m| m.key == key).map(|m| &m.value),
        _ => None,
    }
}

fn text(v: Option<&JsonValue>) -> Option<String> {
    match v {
        Some(JsonValue::Str(t)) => Some(t.clone()),
        Some(JsonValue::Number(t)) => Some(t.clone()),
        _ => None,
    }
}

#[test]
fn redacts_ip_values() {
    let redaction = Redaction { keys: vec![], mask: "***".into(), ip_mode: IpMode::Hash };
    let value = obj(vec![("ip", s("203.0.113.5"))]);
    let out = redact_value(&redaction, None, &value);
    assert_ne!(text(get(&out, "ip")), Some("203.0.113.5".to_string()));
    assert_eq!(
        text(get(&out, "ip")),
        Some("440a628a0c975ea32d4db42ca94acebc975ab378b3ee2a692ccf2ecae6038bbd".to_string())
    );
}

#[test]
fn redaction_masks_listed_keys_and_ip_modes() {
    let redaction = build_redaction(&vec!["Password".to_string()], "***", "redact");
    assert_eq!(redaction.keys, vec!["password".to_string()]);
    let value = obj(vec![
        ("PASSWORD", s("hunter2")),
        ("Client_IP", s("10.0.0.1")),
        ("nested", obj(vec![("ip", JsonValue::Array(vec![s("10.0.0.2")])), ("note", s("kept"))])),
        ("count", JsonValue::Number("3".into())),
    ]);
    let out = redact_value(&redaction, None, &value);
    assert_eq!(text(get(&out, "PASSWORD")), Some("***".to_string()));
    assert_eq!(text(get(&out, "Client_IP")), Some("[redacted-ip]".to_string()));
    let nested = get(&out, "nested").unwrap();
    assert_eq!(text(get(nested, "ip")), Some("[redacted-ip]".to_string()));
    let listed = redact_value(&redaction, Some("ip"), &JsonValue::Array(vec![s("10.0.0.3")]));
    match listed {
        JsonValue::Array(items) => assert_eq!(text(items.first()), Some("[redacted-ip]".to_string())),
        other => panic!("unexpected {:?}", other),
    }
    assert_eq!(text(get(nested, "note")), Some("kept".to_string()));
    assert_eq!(text(get(&out, "count")), Some("3".to_string()));

    let keep = build_redaction(&vec![], "#", "keep");
    let out = redact_value(&keep, None, &obj(vec![("ip", JsonValue::Number("7".into()))]));
    assert_eq!(text(get(&out, "ip")), Some("7".to_string()));
    let mask = build_redaction(&vec![], "#", "mask");
    let out = redact_value(&mask, None, &obj(vec![("ip_address", s("10.0.0.1"))]));
    assert_eq!(text(get(&out, "ip_address")), Some("#".to_string()));
}

#[test]
fn json_text_escapes_strings() {
    let v = obj(vec![
        ("a", s("x\"y\\z\n\u{1}")),
        ("b", JsonValue::Array(vec![JsonValue::Null, JsonValue::Bool(true), JsonValue::Number("1.5".into())])),
    ]);
    assert_eq!(to_json_text(&v), "{\"a\":\"x\\\"y\\\\z\\n\\u0001\",\"b\":[null,true,1.5]}");
    assert_eq!(value_as_string(&JsonValue::Bool(false)), Some("false".to_string()));
    assert_eq!(value_as_string(&JsonValue::Null), None);
    assert_eq!(value_as_string(&JsonValue::Array(vec![])), Some("[]".to_string()));
}

fn record(fields: Vec<(&str, JsonValue)>) -> StructuredRecord {
    let meta = EventMeta { level: Severity::Warn, target: "zitadel::login".into(), file: Some("src/lib.rs".into()), line: Some(42) };
    let fields = fields.into_iter().map(|(k, v)| JsonMember { key: k.to_string(), value: v }).collect();
    StructuredRecord::from_event(&meta, fields, "rec-1".into(), 1_700_000_000_000, "0.1.0")
}

#[test]
fn records_take_their_fields_and_default_the_rest() {
    let r = record(vec![
        ("message", s("login failed")),
        ("stream", s("queue")),
        ("x-request-id", s("req-9")),
        ("request_id", s("ignored")),
        ("org_id", JsonValue::Number("12".into())),
        ("attempt", JsonValue::Number("2".into())),
        ("category", JsonValue::Null),
    ]);
    assert_eq!(r.level, "warn");
    assert_eq!(r.severity, Severity::Warn);
    assert_eq!(r.stream, Stream::Jobs);
    assert_eq!(r.message, "login failed");
    assert_eq!(r.event_type, "log.warn");
    assert_eq!(r.category, "log");
    assert_eq!(r.org_id, "12");
    assert_eq!(r.request_id.as_deref(), Some("req-9"));
    assert_eq!(r.actor_id, None);
    assert_eq!(text(get(&r.payload, "message")), Some("login failed".to_string()));
    assert_eq!(text(get(&r.payload, "attempt")), Some("2".to_string()));
    assert!(get(&r.payload, "request_id").is_none());
    assert!(get(&r.payload, "category").is_none());
    assert_eq!(text(get(&r.metadata, "stream")), Some("jobs".to_string()));
    assert_eq!(text(get(&r.metadata, "line")), Some("42".to_string()));
    assert_eq!(text(get(&r.metadata, "version")), Some("0.1.0".to_string()));
    assert!(get(&r.metadata, "parent_span_id").is_none());

    let plain = record(vec![("event_type", s("user.created")), ("stream", s("unknown"))]);
    assert_eq!(plain.category, "user");
    assert_eq!(plain.stream, Stream::Runtime);
    assert_eq!(plain.org_id, "0");
    assert!(get(&plain.payload, "message").is_none());
}

#[test]
fn redacted_records_mask_fingerprints() {
    let r = record(vec![("fingerprint", s("fp-1")), ("client_ip", s("10.1.1.1"))]);
    let redaction = build_redaction(&vec!["fingerprint".to_string()], "***", "redact");
    let out = redact_record(&redaction, r);
    assert_eq!(out.fingerprint.as_deref(), Some("***"));
    assert_eq!(text(get(&out.payload, "client_ip")), Some("[redacted-ip]".to_string()));
    assert_eq!(out.id, "rec-1");
}
