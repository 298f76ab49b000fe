//! Structured log records: how an event and its fields become a record, and
//! how a record is redacted before it leaves the process.

use vstd::prelude::*;

use crate::json::{JsonMember, JsonValue, json_text, member, member_of, to_json_text};
use crate::num::{spec_decimal, u64_to_decimal};
use crate::observability::{Stream, category_for, is_ip_key, spec_category, spec_stream_from_name, stream_name};
use crate::oidc_op::{sha256, sha256_of};
use crate::text::{ascii_lower, concat2, copy_string, push_char, str_eq, str_to_string, to_ascii_lowercase};
use vstd::utf8::encode_utf8;

verus! {

/// How IP addresses are written out.
#[derive(Clone, Copy, Debug, PartialEq, Eq, Structural)]
pub enum IpMode {
    Keep,
    Redact,
    Hash,
    Mask,
}

/// What is hidden in records: the values of the listed keys (lower case)
/// become the mask; IP addresses are written as the IP mode says.
#[derive(Debug)]
pub struct Redaction {
    pub keys: Vec<String>,
    pub mask: String,
    pub ip_mode: IpMode,
}

/// The IP mode a configured name stands for; anything else keeps addresses.
pub open spec fn spec_ip_mode(name: Seq<char>) -> IpMode {
    if name == "redact"@ {
        IpMode::Redact
    } else if name == "hash"@ {
        IpMode::Hash
    } else if name == "mask"@ {
        IpMode::Mask
    } else {
        IpMode::Keep
    }
}

pub open spec fn lowered(s: Seq<char>) -> Seq<char> {
    s.map_values(|c: char| ascii_lower(c))
}

/// The redaction configured by keys, mask and IP mode name; keys are
/// matched in lower case.
pub fn build_redaction(keys: &Vec<String>, mask: &str, ip_mode: &str) -> (r: Redaction)
    ensures
        r.keys@.len() == keys@.len(),
        forall|i: int| 0 <= i < keys@.len() ==> (#[trigger] r.keys@[i])@ == lowered(keys@[i]@),
        r.mask@ == mask@,
        r.ip_mode == spec_ip_mode(ip_mode@),
{
    let mut lows: Vec<String> = Vec::new();
    let mut i: usize = 0;
    while i < keys.len()
        invariant
            i <= keys@.len(),
            lows@.len() == i,
            forall|j: int| 0 <= j < i ==> (#[trigger] lows@[j])@ == lowered(keys@[j]@),
        decreases keys.len() - i,
    {
        lows.push(to_ascii_lowercase(keys[i].as_str()));
        i = i + 1;
    }
    let mode = if str_eq(ip_mode, "redact") {
        IpMode::Redact
    } else if str_eq(ip_mode, "hash") {
        IpMode::Hash
    } else if str_eq(ip_mode, "mask") {
        IpMode::Mask
    } else {
        IpMode::Keep
    };
    Redaction { keys: lows, mask: str_to_string(mask), ip_mode: mode }
}

/// Whether the redaction lists `k`.
pub open spec fn lists_key(r: Redaction, k: Seq<char>) -> bool {
    exists|i: int| 0 <= i < r.keys@.len() && (#[trigger] r.keys@[i])@ == k
}

fn lists_key_exec(r: &Redaction, k: &str) -> (b: bool)
    ensures
        b == lists_key(*r, k@),
{
    let mut i: usize = 0;
    while i < r.keys.len()
        invariant
            i <= r.keys@.len(),
            forall|j: int| 0 <= j < i ==> (#[trigger] r.keys@[j])@ != k@,
        decreases r.keys.len() - i,
    {
        if str_eq(r.keys[i].as_str(), k) {
            return true;
        }
        i = i + 1;
    }
    false
}

pub open spec fn ip_key(k: Seq<char>) -> bool {
    k == "ip"@ || k == "ip_address"@ || k == "client_ip"@
}

/// The text of a value: strings as they are, numbers and booleans as
/// written, arrays and objects as JSON; `null` has none.
pub open spec fn value_text(v: JsonValue) -> Option<Seq<char>> {
    match v {
        JsonValue::Str(s) => Some(s@),
        JsonValue::Number(n) => Some(n@),
        JsonValue::Bool(b) => Some(
            if b {
                "true"@
            } else {
                "false"@
            },
        ),
        JsonValue::Null => None,
        _ => Some(json_text(v)),
    }
}

/// The text of a value.
pub fn value_as_string(v: &JsonValue) -> (r: Option<String>)
    ensures
        match r {
            Some(s) => value_text(*v) == Some(s@),
            None => value_text(*v) is None,
        },
{
    match v {
        JsonValue::Str(s) => Some(copy_string(s)),
        JsonValue::Number(n) => Some(copy_string(n)),
        JsonValue::Bool(b) => Some(str_to_string(if *b { "true" } else { "false" })),
        JsonValue::Null => None,
        _ => Some(to_json_text(v)),
    }
}

pub open spec fn text_or_empty(t: Option<Seq<char>>) -> Seq<char> {
    match t {
        Some(s) => s,
        None => Seq::empty(),
    }
}

/// Bytes as lowercase hexadecimal, two digits each.
pub open spec fn hex_bytes(b: Seq<u8>) -> Seq<char>
    decreases b.len(),
{
    if b.len() == 0 {
        Seq::empty()
    } else {
        hex_bytes(b.drop_last()) + seq![
            crate::json::hex_lower((b.last() / 16) as u32),
            crate::json::hex_lower((b.last() % 16) as u32),
        ]
    }
}

fn hex_digit(d: u8) -> (c: char)
    requires
        d < 16,
    ensures
        c == crate::json::hex_lower(d as u32),
{
    if d < 10 {
        let b: u8 = 48 + d;
        b as char
    } else {
        let b: u8 = 87 + d;
        b as char
    }
}

fn hex_string(b: &Vec<u8>) -> (r: String)
    ensures
        r@ == hex_bytes(b@),
{
    let mut out = String::new();
    let mut i: usize = 0;
    while i < b.len()
        invariant
            i <= b@.len(),
            out@ == hex_bytes(b@.subrange(0, i as int)),
        decreases b.len() - i,
    {
        let x = b[i];
        push_char(&mut out, hex_digit(x / 16));
        push_char(&mut out, hex_digit(x % 16));
        proof {
            let p = b@.subrange(0, i as int + 1);
            assert(p.drop_last() =~= b@.subrange(0, i as int));
            assert(p.last() == x);
            assert(out@ =~= hex_bytes(p));
        }
        i = i + 1;
    }
    assert(b@.subrange(0, b@.len() as int) =~= b@);
    out
}

/// How an IP address value is written: as its text, as `[redacted-ip]`, as
/// the mask, or as the lowercase hex SHA-256 of its text.
pub open spec fn ip_text(r: Redaction, v: JsonValue) -> Seq<char> {
    match r.ip_mode {
        IpMode::Keep => text_or_empty(value_text(v)),
        IpMode::Redact => "[redacted-ip]"@,
        IpMode::Mask => r.mask@,
        IpMode::Hash => hex_bytes(sha256_of(encode_utf8(text_or_empty(value_text(v))))),
    }
}

fn redact_ip(r: &Redaction, v: &JsonValue) -> (s: String)
    ensures
        s@ == ip_text(*r, *v),
{
    match r.ip_mode {
        IpMode::Keep => match value_as_string(v) {
            Some(t) => t,
            None => String::new(),
        },
        IpMode::Redact => str_to_string("[redacted-ip]"),
        IpMode::Mask => copy_string(&r.mask),
        IpMode::Hash => {
            let t = match value_as_string(v) {
                Some(t) => t,
                None => String::new(),
            };
            let digest = sha256(t.as_str().as_bytes());
            hex_string(&digest)
        },
    }
}

/// `out` is `v` redacted under `key`: in objects each member is redacted by
/// its lower-cased key; array items keep the key; a string under an IP key
/// is written as an IP address; anything else stays.
pub open spec fn redacted_is(r: Redaction, key: Option<Seq<char>>, v: JsonValue, out: JsonValue) -> bool
    decreases v, 0nat,
{
    match v {
        JsonValue::Object(fs) => match out {
            JsonValue::Object(gs) => members_redacted(r, fs@, member_values(gs@)) && same_keys(fs@, gs@),
            _ => false,
        },
        JsonValue::Array(xs) => match out {
            JsonValue::Array(ys) => items_redacted(r, key, xs@, ys@),
            _ => false,
        },
        JsonValue::Str(s) => match out {
            JsonValue::Str(t) => t@ == if key matches Some(k) && ip_key(k) {
                ip_text(r, v)
            } else {
                s@
            },
            _ => false,
        },
        JsonValue::Null => out is Null,
        JsonValue::Bool(b) => out matches JsonValue::Bool(c) && c == b,
        JsonValue::Number(n) => out matches JsonValue::Number(m) && m@ == n@,
    }
}

pub open spec fn items_redacted(r: Redaction, key: Option<Seq<char>>, xs: Seq<JsonValue>, ys: Seq<JsonValue>) -> bool
    decreases xs, 0nat,
{
    &&& xs.len() == ys.len()
    &&& xs.len() > 0 ==> {
        &&& items_redacted(r, key, xs.drop_last(), ys.drop_last())
        &&& redacted_is(r, key, xs.last(), ys.last())
    }
}

pub open spec fn members_redacted(r: Redaction, fs: Seq<JsonMember>, gs: Seq<JsonValue>) -> bool
    decreases fs, 0nat,
{
    &&& fs.len() == gs.len()
    &&& fs.len() > 0 ==> {
        &&& members_redacted(r, fs.drop_last(), gs.drop_last())
        &&& member_redacted(r, fs.last(), gs.last())
    }
}

/// A member: a listed key is masked, an IP key written as an IP address,
/// anything else redacted under its lower-cased key.
pub open spec fn member_redacted(r: Redaction, m: JsonMember, out: JsonValue) -> bool
    decreases m, 0nat,
{
    let low = lowered(m.key@);
    if lists_key(r, low) {
        out matches JsonValue::Str(t) && t@ == r.mask@
    } else if ip_key(low) {
        out matches JsonValue::Str(t) && t@ == ip_text(r, m.value)
    } else {
        redacted_is(r, Some(low), m.value, out)
    }
}

/// The member list of a redacted object has the keys of the object it was made from.
pub open spec fn same_keys(fs: Seq<JsonMember>, gs: Seq<JsonMember>) -> bool {
    fs.len() == gs.len() && forall|i: int| 0 <= i < fs.len() ==> (#[trigger] gs[i]).key@ == fs[i].key@
}

pub open spec fn member_values(gs: Seq<JsonMember>) -> Seq<JsonValue> {
    gs.map_values(|m: JsonMember| m.value)
}

/// The redacted copy of `v` under `key`.
pub fn redact_value(r: &Redaction, key: Option<&str>, v: &JsonValue) -> (out: JsonValue)
    ensures
        redacted_is(
            *r,
            match key {
                Some(k) => Some(k@),
                None => None,
            },
            *v,
            out,
        ),
        v is Object ==> (out matches JsonValue::Object(gs) && v matches JsonValue::Object(fs) && same_keys(fs@, gs@)),
    decreases *v, 0nat,
{
    match v {
        JsonValue::Object(fs) => {
            proof {
                assert(decreases_to!(*v => fs));
            }
            let gs = redact_members(r, fs);
            JsonValue::Object(gs)
        },
        JsonValue::Array(xs) => {
            proof {
                assert(decreases_to!(*v => xs));
            }
            let ys = redact_items(r, key, xs);
            JsonValue::Array(ys)
        },
        JsonValue::Str(s) => {
            let ip = match key {
                Some(k) => is_ip_key(k),
                None => false,
            };
            if ip {
                JsonValue::Str(redact_ip(r, v))
            } else {
                JsonValue::Str(copy_string(s))
            }
        },
        JsonValue::Null => JsonValue::Null,
        JsonValue::Bool(b) => JsonValue::Bool(*b),
        JsonValue::Number(n) => JsonValue::Number(copy_string(n)),
    }
}

fn redact_items(r: &Redaction, key: Option<&str>, xs: &Vec<JsonValue>) -> (ys: Vec<JsonValue>)
    ensures
        items_redacted(
            *r,
            match key {
                Some(k) => Some(k@),
                None => None,
            },
            xs@,
            ys@,
        ),
    decreases xs@, 1nat,
{
    let ghost kv = match key {
        Some(k) => Some(k@),
        None => None::<Seq<char>>,
    };
    let mut ys: Vec<JsonValue> = Vec::new();
    let mut i: usize = 0;
    proof {
        assert(xs@.subrange(0, 0) =~= Seq::<JsonValue>::empty());
    }
    while i < xs.len()
        invariant
            i <= xs@.len(),
            kv == match key {
                Some(k) => Some(k@),
                None => None::<Seq<char>>,
            },
            items_redacted(*r, kv, xs@.subrange(0, i as int), ys@),
        decreases xs.len() - i,
    {
        proof {
            assert(decreases_to!(xs@ => xs@[i as int]));
        }
        let y = redact_value(r, key, &xs[i]);
        let ghost before = ys@;
        ys.push(y);
        proof {
            let p = xs@.subrange(0, i as int + 1);
            assert(p.drop_last() =~= xs@.subrange(0, i as int));
            assert(p.last() == xs@[i as int]);
            assert(ys@.drop_last() =~= before);
        }
        i = i + 1;
    }
    assert(xs@.subrange(0, xs@.len() as int) =~= xs@);
    ys
}

fn redact_members(r: &Redaction, fs: &Vec<JsonMember>) -> (gs: Vec<JsonMember>)
    ensures
        members_redacted(*r, fs@, member_values(gs@)),
        same_keys(fs@, gs@),
    decreases fs@, 1nat,
{
    let mut gs: Vec<JsonMember> = Vec::new();
    let mut i: usize = 0;
    proof {
        assert(fs@.subrange(0, 0) =~= Seq::<JsonMember>::empty());
        assert(member_values(gs@) =~= Seq::<JsonValue>::empty());
    }
    while i < fs.len()
        invariant
            i <= fs@.len(),
            members_redacted(*r, fs@.subrange(0, i as int), member_values(gs@)),
            same_keys(fs@.subrange(0, i as int), gs@),
        decreases fs.len() - i,
    {
        proof {
            assert(decreases_to!(fs@ => fs@[i as int]));
            assert(decreases_to!(fs@[i as int] => fs@[i as int].value));
        }
        let m = &fs[i];
        let low = to_ascii_lowercase(m.key.as_str());
        let value = if lists_key_exec(r, low.as_str()) {
            JsonValue::Str(copy_string(&r.mask))
        } else if is_ip_key(low.as_str()) {
            JsonValue::Str(redact_ip(r, &m.value))
        } else {
            redact_value(r, Some(low.as_str()), &m.value)
        };
        let ghost before = gs@;
        gs.push(JsonMember { key: copy_string(&m.key), value });
        proof {
            let p = fs@.subrange(0, i as int + 1);
            assert(p.drop_last() =~= fs@.subrange(0, i as int));
            assert(p.last() == fs@[i as int]);
            assert(member_values(gs@).drop_last() =~= member_values(before));
            assert(member_values(gs@).last() == value);
            assert(low@ == lowered(fs@[i as int].key@));
            assert(member_redacted(*r, fs@[i as int], value));
            assert(members_redacted(*r, p, member_values(gs@)));
            assert forall|k: int| 0 <= k < p.len() implies (#[trigger] gs@[k]).key@ == p[k].key@ by {
                if k < i {
                    assert(gs@[k] == before[k]);
                }
            }
        }
        i = i + 1;
    }
    assert(fs@.subrange(0, fs@.len() as int) =~= fs@);
    gs
}

/// The severity of an event.
#[derive(Clone, Copy, Debug, PartialEq, Eq, Structural)]
pub enum Severity {
    Error,
    Warn,
    Info,
    Debug,
    Trace,
}

/// The lower-case name of a level.
pub open spec fn level_name(s: Severity) -> Seq<char> {
    match s {
        Severity::Error => "error"@,
        Severity::Warn => "warn"@,
        Severity::Info => "info"@,
        Severity::Debug => "debug"@,
        Severity::Trace => "trace"@,
    }
}

fn level_text(s: Severity) -> (r: &'static str)
    ensures
        r@ == level_name(s),
{
    match s {
        Severity::Error => "error",
        Severity::Warn => "warn",
        Severity::Info => "info",
        Severity::Debug => "debug",
        Severity::Trace => "trace",
    }
}

/// What an event says of itself besides its fields.
#[derive(Debug)]
pub struct EventMeta {
    pub level: Severity,
    pub target: String,
    pub file: Option<String>,
    pub line: Option<u32>,
}

/// A structured log record.
#[derive(Debug)]
pub struct StructuredRecord {
    pub id: String,
    pub created_at_ms: i64,
    pub level: String,
    pub severity: Severity,
    pub stream: Stream,
    pub message: String,
    pub event_type: String,
    pub category: String,
    pub org_id: String,
    pub actor_id: Option<String>,
    pub actor_type: Option<String>,
    pub aggregate_id: Option<String>,
    pub aggregate_type: Option<String>,
    pub resource_type: Option<String>,
    pub request_id: Option<String>,
    pub session_id: Option<String>,
    pub flow_id: Option<String>,
    pub fingerprint: Option<String>,
    pub client_id: Option<String>,
    pub token_id: Option<String>,
    pub delegation_type: Option<String>,
    pub sdk_name: Option<String>,
    pub sdk_version: Option<String>,
    pub payload: JsonValue,
    pub metadata: JsonValue,
}

/// The text of field `k`, where it has a value other than `null`.
pub open spec fn take(fields: Seq<JsonMember>, k: Seq<char>) -> Option<Seq<char>> {
    match member(fields, k) {
        Some(v) => value_text(v),
        None => None,
    }
}

pub open spec fn opt_text(o: Option<String>) -> Option<Seq<char>> {
    match o {
        Some(s) => Some(s@),
        None => None,
    }
}

fn take_text(fields: &Vec<JsonMember>, k: &str) -> (r: Option<String>)
    ensures
        opt_text(r) == take(fields@, k@),
{
    match member_of(fields, k) {
        Some(v) => value_as_string(v),
        None => None,
    }
}

/// The fields a record carries itself, which stay out of its payload.
pub open spec fn record_key(k: Seq<char>) -> bool {
    ||| k == "stream"@
    ||| k == "message"@
    ||| k == "event_type"@
    ||| k == "category"@
    ||| k == "org_id"@
    ||| k == "actor_id"@
    ||| k == "actor_type"@
    ||| k == "aggregate_id"@
    ||| k == "aggregate_type"@
    ||| k == "resource_type"@
    ||| k == "parent_span_id"@
    ||| k == "x-request-id"@
    ||| k == "request_id"@
    ||| k == "session_id"@
    ||| k == "flow_id"@
    ||| k == "fingerprint"@
    ||| k == "client_id"@
    ||| k == "token_id"@
    ||| k == "delegation_type"@
    ||| k == "sdk_name"@
    ||| k == "sdk_version"@
}

fn is_record_key(k: &str) -> (r: bool)
    ensures
        r == record_key(k@),
{
    str_eq(k, "stream") || str_eq(k, "message") || str_eq(k, "event_type") || str_eq(k, "category") || str_eq(
        k,
        "org_id",
    ) || str_eq(k, "actor_id") || str_eq(k, "actor_type") || str_eq(k, "aggregate_id") || str_eq(k, "aggregate_type")
        || str_eq(k, "resource_type") || str_eq(k, "parent_span_id") || str_eq(k, "x-request-id") || str_eq(
        k,
        "request_id",
    ) || str_eq(k, "session_id") || str_eq(k, "flow_id") || str_eq(k, "fingerprint") || str_eq(k, "client_id")
        || str_eq(k, "token_id") || str_eq(k, "delegation_type") || str_eq(k, "sdk_name") || str_eq(k, "sdk_version")
}

/// The fields that go to the payload, in order.
pub open spec fn kept_members(fs: Seq<JsonMember>) -> Seq<JsonMember>
    decreases fs.len(),
{
    if fs.len() == 0 {
        Seq::empty()
    } else {
        kept_members(fs.drop_last()) + if record_key(fs.last().key@) {
            Seq::empty()
        } else {
            seq![fs.last()]
        }
    }
}

/// The payload: the message first where there is one, then the kept fields.
pub open spec fn payload_is(gs: Seq<JsonMember>, message: Seq<char>, fields: Seq<JsonMember>) -> bool {
    if message.len() > 0 {
        &&& gs.len() >= 1
        &&& gs[0].key@ == "message"@
        &&& gs[0].value matches JsonValue::Str(t) && t@ == message
        &&& gs.subrange(1, gs.len() as int) == kept_members(fields)
    } else {
        gs == kept_members(fields)
    }
}

/// Members whose keys and texts are `exp`, in order; a `true` marks a number.
pub open spec fn text_members_are(gs: Seq<JsonMember>, exp: Seq<(Seq<char>, bool, Seq<char>)>) -> bool {
    &&& gs.len() == exp.len()
    &&& forall|i: int|
        0 <= i < gs.len() ==> (#[trigger] gs[i]).key@ == exp[i].0 && if exp[i].1 {
            gs[i].value matches JsonValue::Number(n) && n@ == exp[i].2
        } else {
            gs[i].value matches JsonValue::Str(t) && t@ == exp[i].2
        }
}

pub open spec fn opt_entry(key: Seq<char>, number: bool, o: Option<Seq<char>>) -> Seq<(Seq<char>, bool, Seq<char>)> {
    match o {
        Some(t) => seq![(key, number, t)],
        None => Seq::empty(),
    }
}

/// The metadata of a record: stream, level, target and version, then file,
/// line and parent span where known.
pub open spec fn expected_metadata(
    stream: Stream,
    meta: EventMeta,
    version: Seq<char>,
    parent_span_id: Option<Seq<char>>,
) -> Seq<(Seq<char>, bool, Seq<char>)> {
    seq![
        ("stream"@, false, stream_name(stream)),
        ("level"@, false, level_name(meta.level)),
        ("target"@, false, meta.target@),
        ("version"@, false, version),
    ] + opt_entry("file"@, false, opt_text(meta.file)) + opt_entry(
        "line"@,
        true,
        match meta.line {
            Some(l) => Some(spec_decimal(l as nat)),
            None => None,
        },
    ) + opt_entry("parent_span_id"@, false, parent_span_id)
}

pub open spec fn spec_record_stream(fields: Seq<JsonMember>) -> Stream {
    match take(fields, "stream"@) {
        Some(n) => match spec_stream_from_name(n) {
            Some(s) => s,
            None => Stream::Runtime,
        },
        None => Stream::Runtime,
    }
}

pub open spec fn spec_event_type(fields: Seq<JsonMember>, level: Severity) -> Seq<char> {
    match take(fields, "event_type"@) {
        Some(t) => t,
        None => "log."@ + level_name(level),
    }
}

fn push_text_member(ms: &mut Vec<JsonMember>, key: &str, text: &str)
    ensures
        final(ms)@.len() == old(ms)@.len() + 1,
        final(ms)@.subrange(0, old(ms)@.len() as int) == old(ms)@,
        final(ms)@.last().key@ == key@,
        final(ms)@.last().value matches JsonValue::Str(t) && t@ == text@,
{
    ms.push(JsonMember { key: str_to_string(key), value: JsonValue::Str(str_to_string(text)) });
    assert(ms@.subrange(0, old(ms)@.len() as int) =~= old(ms)@);
}

proof fn lemma_text_members_push(
    gs: Seq<JsonMember>,
    e: Seq<(Seq<char>, bool, Seq<char>)>,
    gs2: Seq<JsonMember>,
    x: (Seq<char>, bool, Seq<char>),
)
    requires
        text_members_are(gs, e),
        gs2.len() == gs.len() + 1,
        gs2.subrange(0, gs.len() as int) == gs,
        gs2.last().key@ == x.0,
        if x.1 {
            gs2.last().value matches JsonValue::Number(n) && n@ == x.2
        } else {
            gs2.last().value matches JsonValue::Str(t) && t@ == x.2
        },
    ensures
        text_members_are(gs2, e.push(x)),
{
    assert forall|i: int| 0 <= i < gs2.len() implies (#[trigger] gs2[i]).key@ == e.push(x)[i].0 && if e.push(x)[i].1 {
        gs2[i].value matches JsonValue::Number(n) && n@ == e.push(x)[i].2
    } else {
        gs2[i].value matches JsonValue::Str(t) && t@ == e.push(x)[i].2
    } by {
        if i < gs.len() {
            assert(gs2[i] == gs2.subrange(0, gs.len() as int)[i]);
            assert(gs[i] == gs2[i]);
        }
    }
}

fn record_payload(fields: Vec<JsonMember>, message: &str) -> (payload: Vec<JsonMember>)
    ensures
        payload_is(payload@, message@, fields@),
{
        let ghost all = fields@;
        let mut payload: Vec<JsonMember> = Vec::new();
        let has_message = !message.is_empty();
        if has_message {
            push_text_member(&mut payload, "message", message);
        }
        let ghost head = payload@;
        let mut rest = fields;
        let ghost mut k: int = 0;
        proof {
            assert(all.subrange(0, 0) =~= Seq::<JsonMember>::empty());
            assert(payload@ =~= head + kept_members(all.subrange(0, 0)));
        }
        while rest.len() > 0
            invariant
                0 <= k <= all.len(),
                rest@ == all.subrange(k, all.len() as int),
                payload@ == head + kept_members(all.subrange(0, k)),
            decreases rest.len(),
        {
            let f = rest.remove(0);
            proof {
                assert(f == all[k]);
                let p = all.subrange(0, k + 1);
                assert(p.drop_last() =~= all.subrange(0, k));
                assert(p.last() == f);
            }
            if !is_record_key(f.key.as_str()) {
                let ghost before = payload@;
                payload.push(f);
                proof {
                    assert(payload@ =~= before.push(all[k]));
                }
            }
            proof {
                let p = all.subrange(0, k + 1);
                assert(payload@ =~= head + kept_members(p));
                k = k + 1;
                assert(rest@ =~= all.subrange(k, all.len() as int));
            }
        }
        proof {
            assert(all.subrange(0, k) =~= all);
            if has_message {
                assert(payload@.subrange(1, payload@.len() as int) =~= kept_members(all));
            } else {
                assert(head.len() == 0);
                assert(payload@ =~= kept_members(all));
            }
        }

    payload
}

fn record_metadata(stream: Stream, meta: &EventMeta, version: &str, parent_span_id: &Option<String>) -> (md: Vec<JsonMember>)
    ensures
        text_members_are(md@, expected_metadata(stream, *meta, version@, opt_text(*parent_span_id))),
{
    let level = level_text(meta.level);
        let mut md: Vec<JsonMember> = Vec::new();
        let ghost mut e: Seq<(Seq<char>, bool, Seq<char>)> = Seq::empty();
        proof {
            assert(text_members_are(md@, e));
        }
        let ghost pre = md@;
        push_text_member(&mut md, "stream", stream.as_str());
        proof {
            lemma_text_members_push(pre, e, md@, ("stream"@, false, stream_name(stream)));
            e = e.push(("stream"@, false, stream_name(stream)));
        }
        let ghost pre = md@;
        push_text_member(&mut md, "level", level);
        proof {
            lemma_text_members_push(pre, e, md@, ("level"@, false, level_name(meta.level)));
            e = e.push(("level"@, false, level_name(meta.level)));
        }
        let ghost pre = md@;
        push_text_member(&mut md, "target", meta.target.as_str());
        proof {
            lemma_text_members_push(pre, e, md@, ("target"@, false, meta.target@));
            e = e.push(("target"@, false, meta.target@));
        }
        let ghost pre = md@;
        push_text_member(&mut md, "version", version);
        proof {
            lemma_text_members_push(pre, e, md@, ("version"@, false, version@));
            e = e.push(("version"@, false, version@));
        }
        if let Some(file) = &meta.file {
            let ghost pre = md@;
            push_text_member(&mut md, "file", file.as_str());
            proof {
                lemma_text_members_push(pre, e, md@, ("file"@, false, file@));
                e = e.push(("file"@, false, file@));
            }
        }
        if let Some(line) = meta.line {
            let text = u64_to_decimal(line as u64);
            let ghost pre = md@;
            md.push(JsonMember { key: str_to_string("line"), value: JsonValue::Number(text) });
            proof {
                assert(md@.subrange(0, pre.len() as int) =~= pre);
                lemma_text_members_push(pre, e, md@, ("line"@, true, spec_decimal(line as nat)));
                e = e.push(("line"@, true, spec_decimal(line as nat)));
            }
        }
        if let Some(p) = parent_span_id {
            let ghost pre = md@;
            push_text_member(&mut md, "parent_span_id", p.as_str());
            proof {
                lemma_text_members_push(pre, e, md@, ("parent_span_id"@, false, p@));
                e = e.push(("parent_span_id"@, false, p@));
            }
        }
        proof {
            assert(e =~= expected_metadata(stream, *meta, version@, opt_text(*parent_span_id)));
        }
    md
}

impl StructuredRecord {
    /// The record of an event: the well-known fields are taken out of the
    /// fields (a stream by name, defaulting to runtime; the event type
    /// defaulting to `log.<level>`, the category to that of the event type,
    /// the org to `0`, the request id from `x-request-id` before
    /// `request_id`); the payload holds the message, if any, and the other
    /// fields; the metadata says stream, level, target, version and where
    /// the event came from.
    pub fn from_event(meta: &EventMeta, fields: Vec<JsonMember>, id: String, created_at_ms: i64, version: &str) -> (r:
        StructuredRecord)
        ensures
            r.id@ == id@,
            r.created_at_ms == created_at_ms,
            r.level@ == level_name(meta.level),
            r.severity == meta.level,
            r.stream == spec_record_stream(fields@),
            r.message@ == text_or_empty(take(fields@, "message"@)),
            r.event_type@ == spec_event_type(fields@, meta.level),
            r.category@ == match take(fields@, "category"@) {
                Some(c) => c,
                None => spec_category(spec_event_type(fields@, meta.level)),
            },
            r.org_id@ == match take(fields@, "org_id"@) {
                Some(o) => o,
                None => "0"@,
            },
            opt_text(r.actor_id) == take(fields@, "actor_id"@),
            opt_text(r.actor_type) == take(fields@, "actor_type"@),
            opt_text(r.aggregate_id) == take(fields@, "aggregate_id"@),
            opt_text(r.aggregate_type) == take(fields@, "aggregate_type"@),
            opt_text(r.resource_type) == take(fields@, "resource_type"@),
            opt_text(r.request_id) == match take(fields@, "x-request-id"@) {
                Some(x) => Some(x),
                None => take(fields@, "request_id"@),
            },
            opt_text(r.session_id) == take(fields@, "session_id"@),
            opt_text(r.flow_id) == take(fields@, "flow_id"@),
            opt_text(r.fingerprint) == take(fields@, "fingerprint"@),
            opt_text(r.client_id) == take(fields@, "client_id"@),
            opt_text(r.token_id) == take(fields@, "token_id"@),
            opt_text(r.delegation_type) == take(fields@, "delegation_type"@),
            opt_text(r.sdk_name) == take(fields@, "sdk_name"@),
            opt_text(r.sdk_version) == take(fields@, "sdk_version"@),
            r.payload matches JsonValue::Object(gs) && payload_is(
                gs@,
                text_or_empty(take(fields@, "message"@)),
                fields@,
            ),
            r.metadata matches JsonValue::Object(ms) && text_members_are(
                ms@,
                expected_metadata(
                    spec_record_stream(fields@),
                    *meta,
                    version@,
                    take(fields@, "parent_span_id"@),
                ),
            ),
    {
        let level = level_text(meta.level);
        let stream = match take_text(&fields, "stream") {
            Some(n) => match Stream::from_name(n.as_str()) {
                Some(s) => s,
                None => Stream::Runtime,
            },
            None => Stream::Runtime,
        };
        let message = match take_text(&fields, "message") {
            Some(m) => m,
            None => String::new(),
        };
        let event_type = match take_text(&fields, "event_type") {
            Some(t) => t,
            None => concat2("log.", level),
        };
        let category = match take_text(&fields, "category") {
            Some(c) => c,
            None => category_for(event_type.as_str()),
        };
        let org_id = match take_text(&fields, "org_id") {
            Some(o) => o,
            None => str_to_string("0"),
        };
        let actor_id = take_text(&fields, "actor_id");
        let actor_type = take_text(&fields, "actor_type");
        let aggregate_id = take_text(&fields, "aggregate_id");
        let aggregate_type = take_text(&fields, "aggregate_type");
        let resource_type = take_text(&fields, "resource_type");
        let parent_span_id = take_text(&fields, "parent_span_id");
        let request_id = match take_text(&fields, "x-request-id") {
            Some(x) => Some(x),
            None => take_text(&fields, "request_id"),
        };
        let session_id = take_text(&fields, "session_id");
        let flow_id = take_text(&fields, "flow_id");
        let fingerprint = take_text(&fields, "fingerprint");
        let client_id = take_text(&fields, "client_id");
        let token_id = take_text(&fields, "token_id");
        let delegation_type = take_text(&fields, "delegation_type");
        let sdk_name = take_text(&fields, "sdk_name");
        let sdk_version = take_text(&fields, "sdk_version");

        let payload = record_payload(fields, message.as_str());
        let md = record_metadata(stream, meta, version, &parent_span_id);
        StructuredRecord {
            id,
            created_at_ms,
            level: str_to_string(level),
            severity: meta.level,
            stream,
            message,
            event_type,
            category,
            org_id,
            actor_id,
            actor_type,
            aggregate_id,
            aggregate_type,
            resource_type,
            request_id,
            session_id,
            flow_id,
            fingerprint,
            client_id,
            token_id,
            delegation_type,
            sdk_name,
            sdk_version,
            payload: JsonValue::Object(payload),
            metadata: JsonValue::Object(md),
        }
    }
}

/// A record as it leaves the process: payload and metadata redacted, a
/// fingerprint masked where its key is listed; everything else as it was.
pub fn redact_record(r: &Redaction, rec: StructuredRecord) -> (out: StructuredRecord)
    ensures
        redacted_is(*r, None, rec.payload, out.payload),
        redacted_is(*r, None, rec.metadata, out.metadata),
        opt_text(out.fingerprint) == match rec.fingerprint {
            Some(f) => Some(
                if lists_key(*r, "fingerprint"@) {
                    r.mask@
                } else {
                    f@
                },
            ),
            None => None,
        },
        out.id == rec.id && out.created_at_ms == rec.created_at_ms && out.level == rec.level && out.severity
            == rec.severity && out.stream == rec.stream && out.message == rec.message && out.event_type
            == rec.event_type && out.category == rec.category && out.org_id == rec.org_id,
        out.actor_id == rec.actor_id && out.actor_type == rec.actor_type && out.aggregate_id == rec.aggregate_id
            && out.aggregate_type == rec.aggregate_type && out.resource_type == rec.resource_type && out.request_id
            == rec.request_id && out.session_id == rec.session_id && out.flow_id == rec.flow_id,
        out.client_id == rec.client_id && out.token_id == rec.token_id && out.delegation_type == rec.delegation_type
            && out.sdk_name == rec.sdk_name && out.sdk_version == rec.sdk_version,
{
    let payload = redact_value(r, None, &rec.payload);
    let metadata = redact_value(r, None, &rec.metadata);
    let fingerprint = match &rec.fingerprint {
        Some(f) => {
            if lists_key_exec(r, "fingerprint") {
                Some(copy_string(&r.mask))
            } else {
                Some(copy_string(f))
            }
        },
        None => None,
    };
    StructuredRecord {
        id: rec.id,
        created_at_ms: rec.created_at_ms,
        level: rec.level,
        severity: rec.severity,
        stream: rec.stream,
        message: rec.message,
        event_type: rec.event_type,
        category: rec.category,
        org_id: rec.org_id,
        actor_id: rec.actor_id,
        actor_type: rec.actor_type,
        aggregate_id: rec.aggregate_id,
        aggregate_type: rec.aggregate_type,
        resource_type: rec.resource_type,
        request_id: rec.request_id,
        session_id: rec.session_id,
        flow_id: rec.flow_id,
        fingerprint,
        client_id: rec.client_id,
        token_id: rec.token_id,
        delegation_type: rec.delegation_type,
        sdk_name: rec.sdk_name,
        sdk_version: rec.sdk_version,
        payload,
        metadata,
    }
}

} // verus!
