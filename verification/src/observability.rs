//! Observability decisions: log streams, request families, trace context
//! headers, record keys and the analytics circuit breaker.

use vstd::prelude::*;

use crate::num::{parse_u64, spec_parse_u64};
use crate::oidc::{is_whitespace, is_ws};
use crate::text::{chars_of, copy_string, find_char, index_of, is_prefix, push_char, str_eq, str_starts_with, str_to_string, string_from_range, ends_with, is_suffix};
use vstd::utf8::encode_utf8;

verus! {

/// The log streams.
#[derive(Clone, Copy, Debug, PartialEq, Eq, Structural)]
pub enum Stream {
    Runtime,
    Request,
    Jobs,
    EventHandler,
    EventPusher,
}

pub open spec fn stream_name(s: Stream) -> Seq<char> {
    match s {
        Stream::Runtime => "runtime"@,
        Stream::Request => "request"@,
        Stream::Jobs => "jobs"@,
        Stream::EventHandler => "event_handler"@,
        Stream::EventPusher => "event_pusher"@,
    }
}

/// The stream a configured name stands for; `queue` is another name for jobs.
pub open spec fn spec_stream_from_name(n: Seq<char>) -> Option<Stream> {
    if n == "runtime"@ {
        Some(Stream::Runtime)
    } else if n == "request"@ {
        Some(Stream::Request)
    } else if n == "jobs"@ || n == "queue"@ {
        Some(Stream::Jobs)
    } else if n == "event_handler"@ {
        Some(Stream::EventHandler)
    } else if n == "event_pusher"@ {
        Some(Stream::EventPusher)
    } else {
        None
    }
}

impl Stream {
    /// The name of the stream.
    pub fn as_str(self) -> (r: &'static str)
        ensures
            r@ == stream_name(self),
    {
        match self {
            Stream::Runtime => "runtime",
            Stream::Request => "request",
            Stream::Jobs => "jobs",
            Stream::EventHandler => "event_handler",
            Stream::EventPusher => "event_pusher",
        }
    }

    /// The stream a configured name stands for.
    pub fn from_name(name: &str) -> (r: Option<Stream>)
        ensures
            r == spec_stream_from_name(name@),
    {
        if str_eq(name, "runtime") {
            Some(Stream::Runtime)
        } else if str_eq(name, "request") {
            Some(Stream::Request)
        } else if str_eq(name, "jobs") || str_eq(name, "queue") {
            Some(Stream::Jobs)
        } else if str_eq(name, "event_handler") {
            Some(Stream::EventHandler)
        } else if str_eq(name, "event_pusher") {
            Some(Stream::EventPusher)
        } else {
            None
        }
    }
}

/// Reading a stream's name gives the stream back.
pub proof fn lemma_stream_round_trip(s: Stream)
    ensures
        spec_stream_from_name(stream_name(s)) == Some(s),
{
    reveal_strlit("runtime");
    reveal_strlit("request");
    reveal_strlit("jobs");
    reveal_strlit("queue");
    reveal_strlit("event_handler");
    reveal_strlit("event_pusher");
    assert("runtime"@.len() == 7 && "request"@.len() == 7 && "runtime"@[2] != "request"@[2]);
    assert("event_handler"@.len() == 13 && "event_pusher"@.len() == 12);
    assert("jobs"@.len() == 4 && "queue"@.len() == 5);
}

/// The event family of a request path: none for health checks, `request.login`
/// for login pages, `request.api` for the API, `request.oidc` for the
/// provider's endpoints.
pub open spec fn spec_classify(p: Seq<char>) -> Option<Seq<char>> {
    if p == "/healthz"@ || p == "/readyz"@ {
        None
    } else if is_prefix("/v1/auth/sso/"@, p) || is_prefix("/login"@, p) || is_prefix("/conformance/login"@, p) {
        Some("request.login"@)
    } else if is_prefix("/v1/"@, p) {
        Some("request.api"@)
    } else if is_prefix("/.well-known/"@, p) || is_prefix("/oauth/"@, p) || is_prefix("/oidc/"@, p) || p
        == "/authorize"@ || p == "/token"@ || p == "/userinfo"@ || p == "/jwks"@ {
        Some("request.oidc"@)
    } else {
        None
    }
}

/// The event family of a request path.
pub fn classify_request(path: &str) -> (r: Option<&'static str>)
    ensures
        match r {
            Some(s) => spec_classify(path@) == Some(s@),
            None => spec_classify(path@) is None,
        },
{
    if str_eq(path, "/healthz") || str_eq(path, "/readyz") {
        return None;
    }
    if str_starts_with(path, "/v1/auth/sso/") || str_starts_with(path, "/login") || str_starts_with(
        path,
        "/conformance/login",
    ) {
        return Some("request.login");
    }
    if str_starts_with(path, "/v1/") {
        return Some("request.api");
    }
    if str_starts_with(path, "/.well-known/") || str_starts_with(path, "/oauth/") || str_starts_with(path, "/oidc/")
        || str_eq(path, "/authorize") || str_eq(path, "/token") || str_eq(path, "/userinfo") || str_eq(path, "/jwks") {
        return Some("request.oidc");
    }
    None
}

/// The pieces of `s` between the separators `sep`, as `str::split` gives
/// them (empty pieces included).
pub open spec fn split_on(s: Seq<char>, sep: char) -> Seq<Seq<char>>
    decreases s.len(),
{
    if s.len() == 0 {
        seq![Seq::empty()]
    } else {
        let p = split_on(s.drop_last(), sep);
        if s.last() == sep {
            p.push(Seq::empty())
        } else {
            p.update(p.len() - 1, p.last().push(s.last()))
        }
    }
}

proof fn lemma_split_on_nonempty(s: Seq<char>, sep: char)
    ensures
        split_on(s, sep).len() >= 1,
    decreases s.len(),
{
    if s.len() > 0 {
        lemma_split_on_nonempty(s.drop_last(), sep);
    }
}

/// The pieces of `s` between the separators `sep`.
pub fn split_char(s: &str, sep: char) -> (r: Vec<String>)
    ensures
        r@.len() == split_on(s@, sep).len(),
        forall|i: int| 0 <= i < r@.len() ==> (#[trigger] r@[i])@ == split_on(s@, sep)[i],
{
    let v = chars_of(s);
    let mut parts: Vec<String> = Vec::new();
    parts.push(String::new());
    let mut i: usize = 0;
    assert(v@.subrange(0, 0) =~= Seq::<char>::empty());
    proof {
        assert(parts@[0]@ =~= Seq::<char>::empty());
    }
    while i < v.len()
        invariant
            i <= v@.len(),
            v@ == s@,
            parts@.len() == split_on(v@.subrange(0, i as int), sep).len(),
            forall|j: int| 0 <= j < parts@.len() ==> (#[trigger] parts@[j])@ == split_on(v@.subrange(0, i as int), sep)[j],
        decreases v.len() - i,
    {
        let c = v[i];
        proof {
            let pre = v@.subrange(0, i as int + 1);
            assert(pre.drop_last() =~= v@.subrange(0, i as int));
            assert(pre.last() == c);
            lemma_split_on_nonempty(v@.subrange(0, i as int), sep);
        }
        let ghost before = parts@;
        if c == sep {
            parts.push(String::new());
            proof {
                assert forall|j: int| 0 <= j < parts@.len() implies (#[trigger] parts@[j])@ == split_on(
                    v@.subrange(0, i as int + 1),
                    sep,
                )[j] by {
                    if j < before.len() {
                        assert(parts@[j] == before[j]);
                    } else {
                        assert(parts@[j]@ =~= Seq::<char>::empty());
                    }
                }
            }
        } else {
            let last = parts.len() - 1;
            let mut w = parts.remove(last);
            push_char(&mut w, c);
            parts.push(w);
            proof {
                assert forall|j: int| 0 <= j < parts@.len() implies (#[trigger] parts@[j])@ == split_on(
                    v@.subrange(0, i as int + 1),
                    sep,
                )[j] by {
                    if j < last {
                        assert(parts@[j] == before[j]);
                    }
                }
            }
        }
        i = i + 1;
    }
    assert(v@.subrange(0, v@.len() as int) =~= v@);
    parts
}

/// The trace and parent span ids of a W3C `traceparent` header: exactly four
/// dash-separated fields, a 32-byte trace id and a 16-byte span id.
pub open spec fn spec_traceparent(value: Seq<char>) -> Option<(Seq<char>, Seq<char>)> {
    let parts = split_on(value, '-');
    if parts.len() == 4 && encode_utf8(parts[1]).len() == 32 && encode_utf8(parts[2]).len() == 16 {
        Some((parts[1], parts[2]))
    } else {
        None
    }
}

/// Reads a W3C `traceparent` header.
pub fn parse_traceparent(value: &str) -> (r: Option<(String, String)>)
    ensures
        match r {
            Some((t, s)) => spec_traceparent(value@) == Some((t@, s@)),
            None => spec_traceparent(value@) is None,
        },
{
    let parts = split_char(value, '-');
    if parts.len() != 4 {
        return None;
    }
    let trace = parts[1].as_str().as_bytes();
    let span = parts[2].as_str().as_bytes();
    proof {
        assert(parts@[1]@ == split_on(value@, '-')[1]);
        assert(parts@[2]@ == split_on(value@, '-')[2]);
    }
    if trace.len() != 32 || span.len() != 16 {
        return None;
    }
    Some((copy_string(&parts[1]), copy_string(&parts[2])))
}

/// Whether a record field is one the record carries itself.
pub fn is_reserved_key(key: &str) -> (r: bool)
    ensures
        r == (key@ == "stream"@ || key@ == "event_type"@ || key@ == "category"@ || key@ == "request_id"@ || key@
            == "x-request-id"@ || key@ == "parent_span_id"@),
{
    str_eq(key, "stream") || str_eq(key, "event_type") || str_eq(key, "category") || str_eq(key, "request_id")
        || str_eq(key, "x-request-id") || str_eq(key, "parent_span_id")
}

/// Whether a record field holds an IP address.
pub fn is_ip_key(key: &str) -> (r: bool)
    ensures
        r == (key@ == "ip"@ || key@ == "ip_address"@ || key@ == "client_ip"@),
{
    str_eq(key, "ip") || str_eq(key, "ip_address") || str_eq(key, "client_ip")
}

/// The category of an event type: the part before its first dot, or `log`
/// where that part is empty.
pub open spec fn spec_category(event_type: Seq<char>) -> Seq<char> {
    let head = match index_of(event_type, '.') {
        Some(i) => event_type.subrange(0, i),
        None => event_type,
    };
    if head.len() == 0 {
        "log"@
    } else {
        head
    }
}

/// The category of an event type.
pub fn category_for(event_type: &str) -> (r: String)
    ensures
        r@ == spec_category(event_type@),
{
    let v = chars_of(event_type);
    let head = match find_char(v.as_slice(), '.') {
        Some(i) => string_from_range(v.as_slice(), 0, i),
        None => string_from_range(v.as_slice(), 0, v.len()),
    };
    proof {
        assert(v@.subrange(0, v@.len() as int) =~= v@);
    }
    if head.as_str().is_empty() {
        str_to_string("log")
    } else {
        head
    }
}

/// Consecutive failures after which the breaker opens.
pub const BREAKER_FAILURES: u32 = 5;

/// How long an open breaker stays open, in milliseconds.
pub const BREAKER_COOLDOWN_MS: u64 = 30000;

/// Stops writing to the analytics store after repeated failures, for a
/// cooldown; times are milliseconds of a monotonic clock.
#[derive(Debug)]
pub struct CircuitBreaker {
    pub failures: u32,
    pub open_until: Option<u64>,
}

impl CircuitBreaker {
    /// A closed breaker.
    pub fn new() -> (r: CircuitBreaker)
        ensures
            r.failures == 0,
            r.open_until is None,
    {
        CircuitBreaker { failures: 0, open_until: None }
    }

    /// Whether a write may be tried at `now`.
    pub fn allows(&self, now: u64) -> (r: bool)
        ensures
            r == match self.open_until {
                Some(deadline) => now >= deadline,
                None => true,
            },
    {
        match self.open_until {
            Some(deadline) => now >= deadline,
            None => true,
        }
    }

    /// A write succeeded: the breaker closes.
    pub fn on_success(&mut self)
        ensures
            final(self).failures == 0,
            final(self).open_until is None,
    {
        self.failures = 0;
        self.open_until = None;
    }

    /// A write failed at `now`: from the fifth consecutive failure on, the
    /// breaker stays open for the cooldown.
    pub fn on_failure(&mut self, now: u64)
        ensures
            final(self).failures == if old(self).failures == u32::MAX {
                u32::MAX
            } else {
                (old(self).failures + 1) as u32
            },
            final(self).failures >= BREAKER_FAILURES ==> final(self).open_until == Some(
                if now > u64::MAX - BREAKER_COOLDOWN_MS {
                    u64::MAX
                } else {
                    (now + BREAKER_COOLDOWN_MS) as u64
                },
            ),
            final(self).failures < BREAKER_FAILURES ==> final(self).open_until == old(self).open_until,
    {
        self.failures = self.failures.saturating_add(1);
        if self.failures >= BREAKER_FAILURES {
            self.open_until = Some(now.saturating_add(BREAKER_COOLDOWN_MS));
        }
    }
}

/// After five failures in a row the breaker refuses writes until the
/// cooldown has passed, and a success lets writes through again.
pub proof fn lemma_breaker_opens_after_failures(failures: u32, now: u64, later: u64)
    requires
        failures + 1 >= BREAKER_FAILURES,
        failures < u32::MAX,
        now <= later,
        later < now + BREAKER_COOLDOWN_MS,
        now <= u64::MAX - BREAKER_COOLDOWN_MS,
    ensures
        ({
            let after = CircuitBreaker { failures: (failures + 1) as u32, open_until: Some((now + BREAKER_COOLDOWN_MS) as u64) };
            &&& !(match after.open_until {
                Some(deadline) => later >= deadline,
                None => true,
            })
        }),
{
}

/// A duration as seconds and the milliseconds beyond them.
#[derive(Debug)]
pub struct Delay {
    pub secs: u64,
    pub millis: u32,
}

/// `s` without white space at either end.
pub open spec fn trim_ws(s: Seq<char>) -> Seq<char>
    decreases s.len(),
{
    if s.len() > 0 && is_ws(s[0]) {
        trim_ws(s.drop_first())
    } else if s.len() > 0 && is_ws(s.last()) {
        trim_ws(s.drop_last())
    } else {
        s
    }
}

/// `s` without white space at either end; `str::trim`.
pub fn trim(s: &str) -> (r: String)
    ensures
        r@ == trim_ws(s@),
{
    let v = chars_of(s);
    let mut a: usize = 0;
    let mut b: usize = v.len();
    assert(v@.subrange(0, b as int) =~= v@);
    while a < b && (is_whitespace(v[a]) || is_whitespace(v[b - 1]))
        invariant
            a <= b <= v@.len(),
            v@ == s@,
            trim_ws(s@) == trim_ws(v@.subrange(a as int, b as int)),
        decreases b - a,
    {
        let ghost t = v@.subrange(a as int, b as int);
        if is_whitespace(v[a]) {
            proof {
                assert(t[0] == v@[a as int]);
                assert(t.drop_first() =~= v@.subrange(a + 1, b as int));
            }
            a = a + 1;
        } else {
            proof {
                assert(t[0] == v@[a as int]);
                assert(t.last() == v@[b - 1]);
                assert(t.drop_last() =~= v@.subrange(a as int, b - 1));
            }
            b = b - 1;
        }
    }
    proof {
        let t = v@.subrange(a as int, b as int);
        if a < b {
            assert(t[0] == v@[a as int]);
            assert(t.last() == v@[b - 1]);
        }
    }
    string_from_range(v.as_slice(), a, b)
}

pub open spec fn parse_or(text: Seq<char>, default: u64) -> u64 {
    match spec_parse_u64(text) {
        Some(v) => v as u64,
        None => default,
    }
}

/// A configured duration: `<n>ms`, `<n>s` or `<n>m` (after trimming), with
/// defaults of 100 ms, 5 s and 1 m where the number does not parse, and 5 s
/// for anything else; minutes wrap around as the multiplication does.
pub open spec fn spec_parse_duration(raw: Seq<char>) -> Delay {
    let t = trim_ws(raw);
    if is_suffix("ms"@, t) {
        let v = parse_or(t.subrange(0, t.len() - 2), 100);
        Delay { secs: (v / 1000) as u64, millis: (v % 1000) as u32 }
    } else if is_suffix("s"@, t) {
        Delay { secs: parse_or(t.subrange(0, t.len() - 1), 5), millis: 0 }
    } else if is_suffix("m"@, t) {
        Delay { secs: ((parse_or(t.subrange(0, t.len() - 1), 1) * 60) % 0x1_0000_0000_0000_0000) as u64, millis: 0 }
    } else {
        Delay { secs: 5, millis: 0 }
    }
}

/// Reads a configured duration.
pub fn parse_duration(raw: &str) -> (r: Delay)
    ensures
        r == spec_parse_duration(raw@),
{
    let trimmed = trim(raw);
    let v = chars_of(trimmed.as_str());
    let ms: Vec<char> = vec!['m', 's'];
    let s_only: Vec<char> = vec!['s'];
    let m_only: Vec<char> = vec!['m'];
    proof {
        reveal_strlit("ms");
        reveal_strlit("s");
        reveal_strlit("m");
        assert(ms@ =~= "ms"@);
        assert(s_only@ =~= "s"@);
        assert(m_only@ =~= "m"@);
    }
    if ends_with(v.as_slice(), ms.as_slice()) {
        let head = string_from_range(v.as_slice(), 0, v.len() - 2);
        let n = match parse_u64(head.as_str()) {
            Some(n) => n,
            None => 100,
        };
        return Delay { secs: n / 1000, millis: (n % 1000) as u32 };
    }
    if ends_with(v.as_slice(), s_only.as_slice()) {
        let head = string_from_range(v.as_slice(), 0, v.len() - 1);
        let n = match parse_u64(head.as_str()) {
            Some(n) => n,
            None => 5,
        };
        return Delay { secs: n, millis: 0 };
    }
    if ends_with(v.as_slice(), m_only.as_slice()) {
        let head = string_from_range(v.as_slice(), 0, v.len() - 1);
        let n = match parse_u64(head.as_str()) {
            Some(n) => n,
            None => 1,
        };
        return Delay { secs: n.wrapping_mul(60), millis: 0 };
    }
    Delay { secs: 5, millis: 0 }
}

} // verus!
