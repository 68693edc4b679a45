//! HTTP as a source of events: every request becomes an event, and the
//! handler's answer becomes the response.
//!
//! Binding to loopback is not enough on its own: a page in a browser on the
//! same machine can have its own name resolve to a loopback address.  So the
//! `Host` header must name a loopback name or the address the listener is
//! bound to, and so must an `Origin` header, when there is one.  When a bearer
//! token is configured every request must carry it.  Those checks come before
//! the request becomes an event: a refused request never reaches a handler.

use vstd::prelude::*;

use crate::bridge::http::{lossy, lossy_text};
use crate::bus::event::{failure_words, is_uuid, random_id, AckOutcome, Event};
use crate::json::{is_text, Json, Number};
use crate::table::Table;
use crate::text::{
    all_digits, chars_of, digits_from, find, find_chars, find_last, is_digit, last_place,
    law_trim_drops_the_white_space_around, lemma_find_from, occurs_at, opt_text, same, stands_at,
    string_of, trim, trimmed, views,
};

verus! {

broadcast use vstd::string::group_string_axioms;

/// How long a request waits for the handler's answer, in seconds.
pub const ACK_TIMEOUT_SECS: u64 = 30;

/// How long a shutdown waits for requests in flight, in seconds.
pub const SHUTDOWN_TIMEOUT_SECS: u64 = 5;

/// What the listener is.
pub struct HttpSourceConfig {
    /// The address to bind.
    pub bind: String,
    /// The bearer token every request must carry, if any.
    pub token: Option<String>,
    /// The kind requests are dispatched under.
    pub kind: String,
    /// What every event's `meta` carries: an object; anything else counts as
    /// an empty one.
    pub meta: Json,
}

impl HttpSourceConfig {
    /// A listener on `bind`: no token, kind `http`, empty meta.
    pub fn new(bind: &str) -> (out: HttpSourceConfig)
        ensures
            out.bind@ == bind@,
            out.token is None,
            out.kind@ == "http"@,
            out.meta matches Json::Object(t) && t.well_formed() && t@ == Map::<
                Seq<char>,
                Json,
            >::empty(),
    {
        HttpSourceConfig {
            bind: bind.to_owned(),
            token: None,
            kind: "http".to_owned(),
            meta: Json::empty_object(),
        }
    }

    /// The listener with a bearer token.
    pub fn token(self, token: &str) -> (out: HttpSourceConfig)
        ensures
            out.token matches Some(t) && t@ == token@,
            out.bind == self.bind,
            out.kind == self.kind,
            out.meta == self.meta,
    {
        HttpSourceConfig {
            bind: self.bind,
            token: Some(token.to_owned()),
            kind: self.kind,
            meta: self.meta,
        }
    }

    /// The listener with another kind.
    pub fn kind(self, kind: &str) -> (out: HttpSourceConfig)
        ensures
            out.kind@ == kind@,
            out.bind == self.bind,
            out.token == self.token,
            out.meta == self.meta,
    {
        HttpSourceConfig {
            bind: self.bind,
            token: self.token,
            kind: kind.to_owned(),
            meta: self.meta,
        }
    }

    /// The listener with another meta.
    pub fn meta(self, meta: Json) -> (out: HttpSourceConfig)
        ensures
            out.meta == meta,
            out.bind == self.bind,
            out.token == self.token,
            out.kind == self.kind,
    {
        HttpSourceConfig { bind: self.bind, token: self.token, kind: self.kind, meta }
    }

    /// The meta every event starts from: the configured one when it is an
    /// object, else an empty one.
    pub fn base_meta(self) -> (out: Json)
        requires
            self.meta.well_formed(),
        ensures
            self.meta is Object ==> out == self.meta,
            !(self.meta is Object) ==> (out matches Json::Object(t) && t.well_formed() && t@
                == Map::<Seq<char>, Json>::empty()),
    {
        if self.meta.is_object() {
            self.meta
        } else {
            Json::empty_object()
        }
    }
}

/// The host part of a `Host` header value, or of an origin's authority: the
/// port dropped, IPv6 brackets dropped.
pub open spec fn host_part(value: Seq<char>) -> Seq<char> {
    let v = trim(value);
    let close = find(v.skip(1), seq![']']);
    if v.len() > 0 && v[0] == '[' && close is Some {
        v.skip(1).take(close->0)
    } else {
        match last_place(v, ':') {
            Some(p) => if all_digits(v.skip(p + 1)) {
                v.take(p)
            } else {
                v
            },
            None => v,
        }
    }
}

/// The host part of a `Host` header value, or of an origin's authority.
pub fn host_only(value: &str) -> (out: String)
    ensures
        out@ == host_part(value@),
{
    let raw = chars_of(value);
    assert(raw@.skip(0) =~= raw@);
    let text = trimmed(raw.as_slice(), 0);
    let v = chars_of(text.as_str());
    let n: usize = v.len();
    if n > 0 && v[0] == '[' {
        let mut bracket: Vec<char> = Vec::new();
        bracket.push(']');
        assert(bracket@ =~= seq![']']);
        let rest = vstd::slice::slice_subrange(v.as_slice(), 1, n);
        assert(rest@ =~= v@.skip(1));
        proof {
            lemma_find_from(rest@, seq![']'], 0);
        }
        if let Some(p) = find_chars(rest, bracket.as_slice(), 0) {
            let out = string_of(rest, 0, p);
            assert(out@ =~= v@.skip(1).take(p as int));
            return out;
        }
    }
    match find_last(v.as_slice(), ':') {
        Some(p) => if digits_from(v.as_slice(), p + 1) {
            let out = string_of(v.as_slice(), 0, p);
            assert(out@ =~= v@.take(p as int));
            out
        } else {
            text
        },
        None => text,
    }
}

/// What stands before the first `/`.
pub open spec fn before_slash(s: Seq<char>) -> Seq<char> {
    match find(s, seq!['/']) {
        Some(p) => s.take(p),
        None => s,
    }
}

/// The host part of an `Origin` header value, `scheme://host[:port]`.
pub open spec fn origin_part(value: Seq<char>) -> Option<Seq<char>> {
    let v = trim(value);
    match find(v, seq![':', '/', '/']) {
        Some(p) => Some(host_part(before_slash(v.skip(p + 3)))),
        None => None,
    }
}

/// The host part of an `Origin` header value.
pub fn origin_host(value: &str) -> (out: Option<String>)
    ensures
        match out {
            Some(h) => origin_part(value@) == Some(h@),
            None => origin_part(value@) is None,
        },
{
    let raw = chars_of(value);
    assert(raw@.skip(0) =~= raw@);
    let text = trimmed(raw.as_slice(), 0);
    let v = chars_of(text.as_str());
    let n: usize = v.len();
    proof {
        reveal_strlit("://");
        assert("://"@ =~= seq![':', '/', '/']);
        reveal_strlit("/");
        assert("/"@ =~= seq!['/']);
        lemma_find_from(v@, seq![':', '/', '/'], 0);
    }
    let mark = chars_of("://");
    match find_chars(v.as_slice(), mark.as_slice(), 0) {
        Some(p) => {
            assert(occurs_at(v@, seq![':', '/', '/'], p as int));
            let rest = vstd::slice::slice_subrange(v.as_slice(), p + 3, n);
            assert(rest@ =~= v@.skip(p + 3));
            let slash = chars_of("/");
            proof {
                lemma_find_from(rest@, seq!['/'], 0);
            }
            let end: usize = match find_chars(rest, slash.as_slice(), 0) {
                Some(q) => q,
                None => rest.len(),
            };
            let authority = string_of(rest, 0, end);
            assert(authority@ =~= before_slash(rest@));
            Some(host_only(authority.as_str()))
        },
        None => None,
    }
}

/// The names and addresses a request may be addressed to: the loopback ones,
/// and the one the listener is bound to.
pub open spec fn allowed(bound_ip: Seq<char>) -> Seq<Seq<char>> {
    seq!["localhost"@, "127.0.0.1"@, "::1"@, bound_ip]
}

/// Whether a host is a loopback one or the one the listener is bound to.
pub open spec fn is_here(bound_ip: Seq<char>, host: Seq<char>) -> bool {
    host == "localhost"@ || host == "127.0.0.1"@ || host == "::1"@ || host == bound_ip
}

/// The list holds just those hosts.
proof fn lemma_allowed(bound_ip: Seq<char>, host: Seq<char>)
    ensures
        allowed(bound_ip).contains(host) == is_here(bound_ip, host),
{
    let list = allowed(bound_ip);
    assert(list[0] == "localhost"@ && list[1] == "127.0.0.1"@ && list[2] == "::1"@ && list[3]
        == bound_ip);
}

/// The names and addresses a request may be addressed to.
pub fn allowed_hosts(bound_ip: &str) -> (out: Vec<String>)
    ensures
        views(out@) == allowed(bound_ip@),
{
    let mut out: Vec<String> = Vec::new();
    out.push("localhost".to_owned());
    out.push("127.0.0.1".to_owned());
    out.push("::1".to_owned());
    out.push(bound_ip.to_owned());
    assert(views(out@) =~= allowed(bound_ip@));
    out
}

/// Whether a list holds a name.
fn lists(names: &[String], name: &str) -> (yes: bool)
    ensures
        yes == views(names@).contains(name@),
{
    let mut i: usize = 0;
    while i < names.len()
        invariant
            0 <= i <= names@.len(),
            forall|k: int| 0 <= k < i ==> views(names@)[k] != name@,
        decreases names@.len() - i,
    {
        if same(names[i].as_str(), name) {
            assert(views(names@)[i as int] == name@);
            return true;
        }
        i += 1;
    }
    false
}

/// A header of a request.
pub enum HeaderText {
    /// It is not there.
    Absent,
    /// It is there, and plain text.
    Text(String),
    /// It is there, and is not plain text.
    Unreadable,
}

/// The headers of a request that decide whether it is let in.
pub struct Credentials {
    pub host: HeaderText,
    pub origin: HeaderText,
    pub authorization: HeaderText,
}

/// Why a request is not let in.
#[derive(Clone, Copy, PartialEq, Eq, Structural)]
pub enum Refusal {
    Host,
    Origin,
    Token,
}

/// Whether the request is addressed to this listener.
pub open spec fn host_fits(hosts: Seq<Seq<char>>, c: Credentials) -> bool {
    c.host matches HeaderText::Text(h) && hosts.contains(host_part(h@))
}

/// Whether the request comes from an allowed origin, or names none.  An origin
/// that cannot be read is none that is allowed.
pub open spec fn origin_fits(hosts: Seq<Seq<char>>, c: Credentials) -> bool {
    match c.origin {
        HeaderText::Absent => true,
        HeaderText::Text(o) => origin_part(o@) matches Some(h) && hosts.contains(h),
        HeaderText::Unreadable => false,
    }
}

/// The bearer token an authorization header presents.
pub open spec fn bearer(value: Seq<char>) -> Option<Seq<char>> {
    if occurs_at(value, "Bearer "@, 0) {
        Some(trim(value.skip(7)))
    } else {
        None
    }
}

/// Whether the request carries the token, or none is asked for.
pub open spec fn token_fits(token: Option<Seq<char>>, c: Credentials) -> bool {
    token matches Some(t) ==> (c.authorization matches HeaderText::Text(a) && bearer(a@) == Some(
        t,
    ))
}

/// Why a request is not let in: the host is looked at first, then the origin,
/// then the token.
pub open spec fn refusal(
    hosts: Seq<Seq<char>>,
    token: Option<Seq<char>>,
    c: Credentials,
) -> Option<Refusal> {
    if !host_fits(hosts, c) {
        Some(Refusal::Host)
    } else if !origin_fits(hosts, c) {
        Some(Refusal::Origin)
    } else if !token_fits(token, c) {
        Some(Refusal::Token)
    } else {
        None
    }
}

/// A foreign host or origin is refused before the token is read: the answer is
/// the same whatever token is configured and whatever the request presents.
pub proof fn law_a_foreign_request_is_refused_before_the_token_is_read(
    hosts: Seq<Seq<char>>,
    token: Option<Seq<char>>,
    other_token: Option<Seq<char>>,
    c: Credentials,
    d: Credentials,
)
    requires
        c.host == d.host,
        c.origin == d.origin,
        !host_fits(hosts, c) || !origin_fits(hosts, c),
    ensures
        refusal(hosts, token, c) is Some,
        refusal(hosts, token, c) == refusal(hosts, other_token, d),
{
}

/// What is let in is addressed to a loopback name or to the address the listener
/// is bound to, and comes from a page there or from none.
pub proof fn law_what_is_let_in_is_addressed_here(
    bound_ip: Seq<char>,
    token: Option<Seq<char>>,
    c: Credentials,
)
    requires
        refusal(allowed(bound_ip), token, c) is None,
    ensures
        c.host matches HeaderText::Text(h) && is_here(bound_ip, host_part(h@)),
        c.origin is Absent || (c.origin matches HeaderText::Text(o) && (origin_part(o@) matches Some(
            h,
        ) && is_here(bound_ip, h))),
{
    if let HeaderText::Text(h) = c.host {
        lemma_allowed(bound_ip, host_part(h@));
    }
    if let HeaderText::Text(o) = c.origin {
        if let Some(h) = origin_part(o@) {
            lemma_allowed(bound_ip, h);
        }
    }
}

/// A request that is addressed to any other host, or to none, is refused for it;
/// one that reaches this listener from a page of any other host is refused for
/// that.
pub proof fn law_a_request_from_elsewhere_is_refused(
    bound_ip: Seq<char>,
    token: Option<Seq<char>>,
    c: Credentials,
)
    ensures
        !(c.host matches HeaderText::Text(h) && is_here(bound_ip, host_part(h@))) ==> refusal(
            allowed(bound_ip),
            token,
            c,
        ) == Some(Refusal::Host),
        (c.host matches HeaderText::Text(h) && is_here(bound_ip, host_part(h@))) && !(
        c.origin is Absent || (c.origin matches HeaderText::Text(o) && (origin_part(o@) matches Some(
            h,
        ) && is_here(bound_ip, h)))) ==> refusal(allowed(bound_ip), token, c) == Some(
            Refusal::Origin,
        ),
{
    if let HeaderText::Text(h) = c.host {
        lemma_allowed(bound_ip, host_part(h@));
    }
    if let HeaderText::Text(o) = c.origin {
        if let Some(h) = origin_part(o@) {
            lemma_allowed(bound_ip, h);
        }
    }
}

/// With a token configured, nothing is let in without it.
pub proof fn law_nothing_passes_without_the_token(
    hosts: Seq<Seq<char>>,
    token: Seq<char>,
    c: Credentials,
)
    requires
        !(c.authorization matches HeaderText::Text(a) && bearer(a@) == Some(token)),
    ensures
        refusal(hosts, Some(token), c) is Some,
{
}

/// The bearer token an authorization header presents.
fn presented(value: &str) -> (out: Option<String>)
    ensures
        match out {
            Some(t) => bearer(value@) == Some(t@),
            None => bearer(value@) is None,
        },
{
    let v = chars_of(value);
    let scheme = chars_of("Bearer ");
    proof {
        reveal_strlit("Bearer ");
    }
    if stands_at(v.as_slice(), scheme.as_slice(), 0) {
        Some(trimmed(v.as_slice(), 7))
    } else {
        None
    }
}

/// Decide whether a request is let in.
pub fn check_request(hosts: &[String], token: &Option<String>, c: &Credentials) -> (out: Option<Refusal>)
    ensures
        out == refusal(views(hosts@), opt_text(*token), *c),
{
    let host_ok = match &c.host {
        HeaderText::Text(h) => {
            let name = host_only(h.as_str());
            lists(hosts, name.as_str())
        },
        HeaderText::Absent | HeaderText::Unreadable => false,
    };
    if !host_ok {
        return Some(Refusal::Host);
    }
    let origin_ok = match &c.origin {
        HeaderText::Absent => true,
        HeaderText::Text(o) => match origin_host(o.as_str()) {
            Some(name) => lists(hosts, name.as_str()),
            None => false,
        },
        HeaderText::Unreadable => false,
    };
    if !origin_ok {
        return Some(Refusal::Origin);
    }
    if let Some(expected) = token {
        let token_ok = match &c.authorization {
            HeaderText::Text(a) => match presented(a.as_str()) {
                Some(t) => same(t.as_str(), expected.as_str()),
                None => false,
            },
            HeaderText::Absent | HeaderText::Unreadable => false,
        };
        if !token_ok {
            return Some(Refusal::Token);
        }
    }
    None
}

/// A response: its status, and the JSON value it carries.
pub struct Reply {
    pub status: u16,
    pub body: Json,
}

/// The status a response goes out with: one that is none becomes 500.
pub open spec fn sent_status(status: u16) -> u16 {
    if 100 <= status < 1000 {
        status
    } else {
        500
    }
}

/// A response with a status and a body.
pub fn reply(status: u16, body: Json) -> (out: Reply)
    ensures
        out.status == sent_status(status),
        out.body == body,
{
    let status = if 100 <= status && status < 1000 {
        status
    } else {
        500
    };
    Reply { status, body }
}

/// Whether a value is the object `{ "error": message }`.
pub open spec fn is_error_body(body: Json, message: Seq<char>) -> bool {
    &&& body matches Json::Object(t) && t.well_formed() && t@.dom() =~= set!["error"@]
    &&& body.field("error"@) matches Json::Text(m) && m@ == message
}

/// A response that reports an error.
pub fn error_reply(status: u16, message: &str) -> (out: Reply)
    ensures
        out.status == sent_status(status),
        is_error_body(out.body, message@),
{
    let mut t: Table<Json> = Table::new();
    t.set("error", Json::Text(message.to_owned()));
    reply(status, Json::Object(t))
}

/// The status a refused request is answered with.
pub open spec fn refusal_status(r: Refusal) -> u16 {
    match r {
        Refusal::Host => 403,
        Refusal::Origin => 403,
        Refusal::Token => 401,
    }
}

/// What a refused request is told.
pub open spec fn refusal_words(r: Refusal) -> Seq<char> {
    match r {
        Refusal::Host => "host not allowed"@,
        Refusal::Origin => "origin not allowed"@,
        Refusal::Token => "token required"@,
    }
}

/// The response to a refused request.
pub fn refuse(r: Refusal) -> (out: Reply)
    ensures
        out.status == refusal_status(r),
        is_error_body(out.body, refusal_words(r)),
{
    match r {
        Refusal::Host => error_reply(403, "host not allowed"),
        Refusal::Origin => error_reply(403, "origin not allowed"),
        Refusal::Token => error_reply(401, "token required"),
    }
}

/// Whether a handler's value says itself what the response is.
pub open spec fn shapes_response(value: Json) -> bool {
    value.has("status"@) || value.has("body"@)
}

/// The status a handler's value asks for: 200 where it names none that fits.
pub open spec fn asked_status(value: Json) -> u16 {
    match value.field("status"@).unsigned() {
        Some(s) => if value.has("status"@) && s <= u16::MAX {
            s as u16
        } else {
            200
        },
        None => 200,
    }
}

/// What a handler's value means as a response: `{ status?, body? }` is read as
/// such, anything else is a 200 with that value as the body.
pub fn answer(value: Json) -> (out: Reply)
    requires
        value.well_formed(),
    ensures
        shapes_response(value) ==> {
            &&& out.status == sent_status(asked_status(value))
            &&& out.body == if value.has("body"@) {
                value.field("body"@)
            } else {
                Json::Null
            }
        },
        !shapes_response(value) ==> out.status == 200 && out.body == value,
        value matches Json::Object(t) ==> t@.dom().contains("status"@) ==> (t@["status"@] matches Json::Number(
            Number::Unsigned(n),
        ) ==> (100 <= n <= 999 ==> out.status == n)),
{
    match value {
        Json::Object(mut t) => {
            if t.contains("status") || t.contains("body") {
                let status: u16 = match t.get("status") {
                    Some(s) => match s.as_u64() {
                        Some(n) => if n <= 65535 {
                            n as u16
                        } else {
                            200
                        },
                        None => 200,
                    },
                    None => 200,
                };
                let body = match t.take("body") {
                    Some(b) => b,
                    None => Json::Null,
                };
                reply(status, body)
            } else {
                reply(200, Json::Object(t))
            }
        },
        other => reply(200, other),
    }
}

/// The response to a request that became an event, from what waiting for the
/// handler's answer came to.
pub fn respond(outcome: AckOutcome) -> (out: Reply)
    requires
        outcome matches AckOutcome::Answered(v) ==> v.well_formed(),
    ensures
        match outcome {
            AckOutcome::Answered(v) => {
                &&& shapes_response(v) ==> out.status == sent_status(asked_status(v)) && out.body
                    == if v.has("body"@) {
                    v.field("body"@)
                } else {
                    Json::Null
                }
                &&& !shapes_response(v) ==> out.status == 200 && out.body == v
                &&& v matches Json::Object(t) ==> t@.dom().contains("status"@) ==> (
                t@["status"@] matches Json::Number(Number::Unsigned(n)) ==> (100 <= n <= 999
                    ==> out.status == n))
            },
            AckOutcome::ChannelClosed => out.status == 503 && is_error_body(
                out.body,
                failure_words(outcome)->0,
            ),
            AckOutcome::Failed(_) | AckOutcome::Dropped => out.status == 500 && is_error_body(
                out.body,
                failure_words(outcome)->0,
            ),
            AckOutcome::TimedOut => out.status == 504 && is_error_body(
                out.body,
                failure_words(outcome)->0,
            ),
        },
{
    match outcome {
        AckOutcome::Answered(v) => answer(v),
        AckOutcome::ChannelClosed => error_reply(503, "bus channel closed"),
        AckOutcome::Failed(e) => error_reply(500, e.as_str()),
        AckOutcome::Dropped => error_reply(500, "ack dropped"),
        AckOutcome::TimedOut => error_reply(504, "handler timeout"),
    }
}

/// What the body of a request is as a value: nothing when it is empty, the
/// JSON value it is when it is one, else its text.
pub fn body_value(bytes: &[u8], parsed: Option<Json>) -> (out: Json)
    ensures
        bytes@.len() == 0 ==> out == Json::Null,
        bytes@.len() > 0 && parsed is Some ==> out == parsed->0,
        bytes@.len() > 0 && parsed is None ==> (out matches Json::Text(t) && t@ == lossy(bytes@)),
{
    if bytes.len() == 0 {
        Json::Null
    } else {
        match parsed {
            Some(v) => v,
            None => Json::Text(lossy_text(bytes)),
        }
    }
}

/// What of a request a handler gets to see.
pub struct Request {
    pub method: String,
    pub path: String,
    pub query: Option<String>,
    pub body: Json,
    pub remote: String,
}

/// Whether an event's payload states the request: method, path, query and
/// body.
pub open spec fn states_request(payload: Json, r: Request) -> bool {
    &&& payload matches Json::Object(t) && t.well_formed() && t@.dom() =~= set![
        "method"@,
        "path"@,
        "query"@,
        "body"@,
    ]
    &&& is_text(payload.field("method"@), r.method@)
    &&& is_text(payload.field("path"@), r.path@)
    &&& match r.query {
        Some(q) => is_text(payload.field("query"@), q@),
        None => payload.field("query"@) == Json::Null,
    }
    &&& payload.field("body"@) == r.body
}

/// Whether an event's meta is the base meta with the peer's address added.
pub open spec fn carries_remote(meta: Json, base: Json, remote: Seq<char>) -> bool {
    &&& meta matches Json::Object(t) && t.well_formed() && t@.dom() =~= base->Object_0@.dom().insert(
        "remote"@,
    )
    &&& is_text(meta.field("remote"@), remote)
    &&& forall|k: Seq<char>|
        k != "remote"@ && #[trigger] base->Object_0@.dom().contains(k) ==> meta.field(k)
            == base->Object_0@[k]
}

/// The event a request becomes.
pub fn request_event(kind: &str, base_meta: Json, request: Request) -> (out: Event)
    requires
        base_meta matches Json::Object(t) && t.well_formed(),
    ensures
        out.kind@ == kind@,
        is_uuid(out.id@, '4'),
        states_request(out.payload, request),
        carries_remote(out.meta, base_meta, request.remote@),
{
    proof {
        reveal_strlit("method");
        reveal_strlit("path");
        reveal_strlit("query");
        reveal_strlit("body");
        assert("method"@.len() == 6 && "path"@.len() == 4 && "query"@.len() == 5);
        assert("path"@[0] == 'p' && "body"@[0] == 'b');
    }
    let mut p: Table<Json> = Table::new();
    p.set("method", Json::Text(request.method));
    p.set("path", Json::Text(request.path));
    p.set(
        "query",
        match request.query {
            Some(q) => Json::Text(q),
            None => Json::Null,
        },
    );
    p.set("body", request.body);
    let mut m = match base_meta {
        Json::Object(t) => t,
        _ => Table::new(),
    };
    m.set("remote", Json::Text(request.remote));
    Event {
        kind: kind.to_owned(),
        id: random_id(),
        payload: Json::Object(p),
        meta: Json::Object(m),
    }
}

/// A request on its way in: the event it becomes when it is let in, and
/// otherwise the response it gets without ever becoming one.
pub fn receive(
    hosts: &[String],
    token: &Option<String>,
    kind: &str,
    base_meta: Json,
    credentials: &Credentials,
    request: Request,
) -> (out: Result<Event, Reply>)
    requires
        base_meta matches Json::Object(t) && t.well_formed(),
    ensures
        out is Ok <==> refusal(views(hosts@), opt_text(*token), *credentials) is None,
        match out {
            Ok(e) => e.kind@ == kind@ && is_uuid(e.id@, '4') && states_request(e.payload, request)
                && carries_remote(e.meta, base_meta, request.remote@),
            Err(r) => {
                let why = refusal(views(hosts@), opt_text(*token), *credentials)->0;
                r.status == refusal_status(why) && is_error_body(r.body, refusal_words(why))
            },
        },
{
    match check_request(hosts, token, credentials) {
        Some(r) => Err(refuse(r)),
        None => Ok(request_event(kind, base_meta, request)),
    }
}

// ── laws ─────────────────────────────────────────────────────────────

/// The status a handler asks for is the one its answer goes out with, for every
/// status there is.
pub proof fn law_a_handler_chooses_its_status(t: Table<Json>, n: u64)
    requires
        t@.dom().contains("status"@),
        t@["status"@] == Json::Number(Number::Unsigned(n)),
        100 <= n <= 999,
    ensures
        shapes_response(Json::Object(t)),
        sent_status(asked_status(Json::Object(t))) == n,
{
}

/// An answer that asks for no status, or for something that is no number, goes
/// out with 200; a number of up to sixteen bits that is no status, with 500.
pub proof fn law_what_is_no_status_becomes_one(t: Table<Json>, n: u64)
    ensures
        !t@.dom().contains("status"@) ==> sent_status(asked_status(Json::Object(t))) == 200,
        t@.dom().contains("status"@) && !(t@["status"@] is Number) ==> sent_status(
            asked_status(Json::Object(t)),
        ) == 200,
        t@.dom().contains("status"@) && t@["status"@] == Json::Number(Number::Unsigned(n)) && (n
            < 100 || 1000 <= n <= 65535) ==> sent_status(asked_status(Json::Object(t))) == 500,
        t@.dom().contains("status"@) && t@["status"@] == Json::Number(Number::Unsigned(n)) && n
            > 65535 ==> sent_status(asked_status(Json::Object(t))) == 200,
{
}

/// An object says itself what the response is when it names a status or a body,
/// and no other value does.
pub proof fn law_only_an_object_shapes_a_response(value: Json)
    ensures
        shapes_response(value) <==> (value matches Json::Object(t) && (t@.dom().contains("status"@)
            || t@.dom().contains("body"@))),
{
}

/// A handler is shown the request as it came: its method, its path, its query
/// where it had one, and its body.
pub proof fn law_a_handler_is_shown_the_request(payload: Json, r: Request)
    requires
        states_request(payload, r),
    ensures
        payload matches Json::Object(t) && {
            &&& t@.dom().contains("method"@) && (t@["method"@] matches Json::Text(m) && m@
                == r.method@)
            &&& t@.dom().contains("path"@) && (t@["path"@] matches Json::Text(p) && p@ == r.path@)
            &&& t@.dom().contains("query"@) && match r.query {
                Some(q) => t@["query"@] matches Json::Text(text) && text@ == q@,
                None => t@["query"@] is Null,
            }
            &&& t@.dom().contains("body"@) && t@["body"@] == r.body
        },
{
}

/// What every event carries is the configured meta, and the address the request
/// came from beside it.
pub proof fn law_the_meta_is_kept(meta: Json, base: Table<Json>, remote: Seq<char>, key: Seq<char>)
    requires
        carries_remote(meta, Json::Object(base), remote),
        base@.dom().contains(key),
        key != "remote"@,
    ensures
        meta matches Json::Object(t) && t@.dom().contains(key) && t@[key] == base@[key]
            && t@.dom().contains("remote"@) && (t@["remote"@] matches Json::Text(r) && r@
            == remote),
{
    assert(Json::Object(base)->Object_0@.dom().contains(key));
}

/// Each refusal has its status and its words.
pub proof fn law_a_refused_request_is_told_why()
    ensures
        refusal_status(Refusal::Host) == 403 && refusal_words(Refusal::Host)
            == "host not allowed"@,
        refusal_status(Refusal::Origin) == 403 && refusal_words(Refusal::Origin)
            == "origin not allowed"@,
        refusal_status(Refusal::Token) == 401 && refusal_words(Refusal::Token)
            == "token required"@,
{
}

/// What a handler failed with is what the client is told.
pub proof fn law_a_failure_is_told(e: String)
    ensures
        failure_words(AckOutcome::Failed(e)) == Some(e@),
        failure_words(AckOutcome::ChannelClosed) == Some("bus channel closed"@),
        failure_words(AckOutcome::Dropped) == Some("ack dropped"@),
        failure_words(AckOutcome::TimedOut) == Some("handler timeout"@),
{
}

proof fn lemma_last_place(a: Seq<char>, c: char, b: Seq<char>)
    requires
        !b.contains(c),
    ensures
        last_place(a + seq![c] + b, c) == Some(a.len() as int),
    decreases b.len(),
{
    let whole = a + seq![c] + b;
    if b.len() == 0 {
        assert(whole.last() == c);
    } else {
        assert(b.contains(b.last())) by {
            assert(b[b.len() - 1] == b.last());
        }
        assert(whole.last() == b.last());
        assert(whole.drop_last() =~= a + seq![c] + b.drop_last());
        assert forall|k: int| 0 <= k < b.drop_last().len() implies b.drop_last()[k] != c by {
            assert(b.contains(b[k]));
        }
        lemma_last_place(a, c, b.drop_last());
    }
}

proof fn lemma_no_place(s: Seq<char>, c: char)
    requires
        !s.contains(c),
    ensures
        last_place(s, c) is None,
    decreases s.len(),
{
    if s.len() > 0 {
        assert(s.contains(s.last())) by {
            assert(s[s.len() - 1] == s.last());
        }
        assert forall|k: int| 0 <= k < s.drop_last().len() implies s.drop_last()[k] != c by {
            assert(s.contains(s[k]));
        }
        lemma_no_place(s.drop_last(), c);
    }
}

proof fn lemma_first_at(s: Seq<char>, pat: Seq<char>, at: int)
    requires
        0 <= at,
        pat.len() > 0,
        occurs_at(s, pat, at),
        forall|k: int| 0 <= k < at ==> #[trigger] s[k] != pat[0],
    ensures
        find(s, pat) == Some(at),
{
    lemma_find_from(s, pat, 0);
    let got = find(s, pat)->0;
    if got < at {
        assert(s.subrange(got, got + pat.len())[0] == s[got]);
    }
}

proof fn lemma_bare_host(host: Seq<char>)
    requires
        host.len() > 0,
        '!' <= host[0] <= '~' && host[0] != '[',
        '!' <= host.last() <= '~',
        !host.contains(':'),
    ensures
        host_part(host) == host,
{
    let none = Seq::<char>::empty();
    law_trim_drops_the_white_space_around(none, host, none);
    assert(none + host + none =~= host);
    lemma_no_place(host, ':');
}

proof fn lemma_host_and_tail(host: Seq<char>, tail: Seq<char>)
    requires
        host.len() > 0,
        '!' <= host[0] <= '~' && host[0] != '[',
        tail.len() > 0,
        '!' <= tail.last() <= '~',
        !tail.contains(':'),
    ensures
        host_part(host + seq![':'] + tail) == if all_digits(tail) {
            host
        } else {
            host + seq![':'] + tail
        },
{
    let none = Seq::<char>::empty();
    let whole = host + seq![':'] + tail;
    assert(whole.last() == tail.last());
    assert(whole[0] == host[0]);
    law_trim_drops_the_white_space_around(none, whole, none);
    assert(none + whole + none =~= whole);
    lemma_last_place(host, ':', tail);
    assert(whole.skip(host.len() as int + 1) =~= tail);
    assert(whole.take(host.len() as int) =~= host);
}

/// The port behind a host, and the brackets around an address, are no part of
/// it; what stands behind a colon and is no port stays.
pub proof fn law_a_port_is_no_part_of_a_host(host: Seq<char>, port: Seq<char>, word: Seq<char>)
    requires
        host.len() > 0,
        forall|i: int| 0 <= i < host.len() ==> '!' <= #[trigger] host[i] <= '~',
        !host.contains('[') && !host.contains(']'),
        port.len() > 0,
        forall|i: int| 0 <= i < port.len() ==> '0' <= #[trigger] port[i] <= '9',
        word.len() > 0,
        forall|i: int| 0 <= i < word.len() ==> 'a' <= #[trigger] word[i] <= 'z',
    ensures
        !host.contains(':') ==> host_part(host) == host,
        host_part(host + seq![':'] + port) == host,
        host_part(host + seq![':'] + word) == host + seq![':'] + word,
        host_part(seq!['['] + host + seq![']']) == host,
        host_part(seq!['['] + host + seq![']', ':'] + port) == host,
{
    let none = Seq::<char>::empty();
    assert(host.contains(host[0]));
    if !host.contains(':') {
        lemma_bare_host(host);
    }
    assert(!port.contains(':'));
    assert(all_digits(port)) by {
        assert forall|i: int| 0 <= i < port.len() implies is_digit(#[trigger] port[i]) by {}
    }
    lemma_host_and_tail(host, port);
    assert(!word.contains(':'));
    assert(!is_digit(word[0]));
    lemma_host_and_tail(host, word);
    lemma_bracketed(host, none);
    assert(seq!['['] + host + seq![']'] + none =~= seq!['['] + host + seq![']']);
    lemma_bracketed(host, seq![':'] + port);
    assert(seq!['['] + host + seq![']'] + (seq![':'] + port) =~= seq!['['] + host + seq![']', ':']
        + port);
}

proof fn lemma_bracketed(host: Seq<char>, behind: Seq<char>)
    requires
        !host.contains(']'),
        behind.len() == 0 || '!' <= behind.last() <= '~',
    ensures
        host_part(seq!['['] + host + seq![']'] + behind) == host,
{
    let none = Seq::<char>::empty();
    let v = seq!['['] + host + seq![']'] + behind;
    assert(v.last() == if behind.len() == 0 {
        ']'
    } else {
        behind.last()
    });
    law_trim_drops_the_white_space_around(none, v, none);
    assert(none + v + none =~= v);
    let inner = v.skip(1);
    let n = host.len() as int;
    assert(inner =~= host + seq![']'] + behind);
    assert(inner.subrange(n, n + 1) =~= seq![']']);
    assert forall|k: int| 0 <= k < n implies #[trigger] inner[k] != seq![']'][0] by {
        assert(host.contains(host[k]));
    }
    lemma_first_at(inner, seq![']'], n);
    assert(inner.take(n) =~= host);
}

/// The host of an origin is what stands between its scheme and its port, its
/// path or its end; what has no scheme is no origin.
pub proof fn law_the_host_of_an_origin(
    scheme: Seq<char>,
    host: Seq<char>,
    port: Seq<char>,
    path: Seq<char>,
)
    requires
        scheme.len() > 0,
        forall|i: int|
            0 <= i < scheme.len() ==> '!' <= #[trigger] scheme[i] <= '~' && scheme[i] != ':',
        host.len() > 0,
        forall|i: int|
            0 <= i < host.len() ==> '!' <= #[trigger] host[i] <= '~' && host[i] != ':' && host[i]
                != '/' && host[i] != '[' && host[i] != ']',
        port.len() > 0,
        forall|i: int| 0 <= i < port.len() ==> '0' <= #[trigger] port[i] <= '9',
        path.len() == 0 || path[0] == '/' && '!' <= path.last() <= '~',
    ensures
        origin_part(scheme + seq![':', '/', '/'] + host + path) == Some(host),
        origin_part(scheme + seq![':', '/', '/'] + (host + seq![':'] + port) + path) == Some(host),
        origin_part(scheme) is None,
{
    let none = Seq::<char>::empty();
    law_a_port_is_no_part_of_a_host(host, port, seq!['a']);
    assert forall|k: int| 0 <= k < host.len() implies host[k] != '/' by {}
    lemma_origin(scheme, host, path);
    let with_port = host + seq![':'] + port;
    assert forall|k: int| 0 <= k < with_port.len() implies with_port[k] != '/' by {
        if k < host.len() {
            assert(with_port[k] == host[k]);
        } else if k > host.len() {
            assert(with_port[k] == port[k - host.len() - 1]);
        }
    }
    assert(with_port.last() == port.last());
    lemma_origin(scheme, with_port, path);
    law_trim_drops_the_white_space_around(none, scheme, none);
    assert(none + scheme + none =~= scheme);
    lemma_find_from(scheme, seq![':', '/', '/'], 0);
    if let Some(p) = find(scheme, seq![':', '/', '/']) {
        assert(scheme.subrange(p, p + 3)[0] == scheme[p]);
    }
}

proof fn lemma_origin(scheme: Seq<char>, authority: Seq<char>, path: Seq<char>)
    requires
        scheme.len() > 0,
        '!' <= scheme[0] <= '~',
        forall|i: int| 0 <= i < scheme.len() ==> #[trigger] scheme[i] != ':',
        authority.len() > 0,
        '!' <= authority.last() <= '~',
        forall|k: int| 0 <= k < authority.len() ==> #[trigger] authority[k] != '/',
        path.len() == 0 || path[0] == '/' && '!' <= path.last() <= '~',
    ensures
        origin_part(scheme + seq![':', '/', '/'] + authority + path) == Some(host_part(authority)),
{
    let none = Seq::<char>::empty();
    let mark = seq![':', '/', '/'];
    let v = scheme + mark + authority + path;
    assert(v.last() == if path.len() == 0 {
        authority.last()
    } else {
        path.last()
    });
    assert(v[0] == scheme[0]);
    law_trim_drops_the_white_space_around(none, v, none);
    assert(none + v + none =~= v);
    let n = scheme.len() as int;
    assert(v.subrange(n, n + 3) =~= mark);
    assert forall|k: int| 0 <= k < n implies #[trigger] v[k] != mark[0] by {
        assert(v[k] == scheme[k]);
    }
    lemma_first_at(v, mark, n);
    let behind = v.skip(n + 3);
    assert(behind =~= authority + path);
    let m = authority.len() as int;
    if path.len() == 0 {
        assert(behind =~= authority);
        lemma_find_from(behind, seq!['/'], 0);
        if let Some(p) = find(behind, seq!['/']) {
            assert(behind.subrange(p, p + 1)[0] == behind[p]);
        }
    } else {
        assert(behind.subrange(m, m + 1) =~= seq!['/']);
        assert forall|k: int| 0 <= k < m implies #[trigger] behind[k] != seq!['/'][0] by {
            assert(behind[k] == authority[k]);
        }
        lemma_first_at(behind, seq!['/'], m);
        assert(behind.take(m) =~= authority);
    }
}

/// The token a request presents is what stands behind the word `Bearer`; without
/// the word it presents none.
pub proof fn law_a_bearer_token_stands_behind_its_word(value: Seq<char>, token: Seq<char>)
    requires
        token.len() > 0,
        '!' <= token[0] <= '~',
        '!' <= token.last() <= '~',
    ensures
        value == seq!['B', 'e', 'a', 'r', 'e', 'r', ' '] + token ==> bearer(value) == Some(token),
        value.len() < 7 ==> bearer(value) is None,
        value.len() >= 7 && value.take(7) != seq!['B', 'e', 'a', 'r', 'e', 'r', ' ']
            ==> bearer(value) is None,
{
    reveal_strlit("Bearer ");
    let word = seq!['B', 'e', 'a', 'r', 'e', 'r', ' '];
    assert("Bearer "@ =~= word);
    if value == word + token {
        assert(value.subrange(0, 7) =~= word);
        let none = Seq::<char>::empty();
        law_trim_drops_the_white_space_around(none, token, none);
        assert(value.skip(7) =~= none + token + none);
    }
    if value.len() >= 7 {
        assert(value.take(7) =~= value.subrange(0, 7));
    }
}

/// A request is let in when it is addressed to this listener, comes from a page
/// here or from none, and carries the token where one is asked for.
pub proof fn law_a_request_in_order_is_let_in(
    bound_ip: Seq<char>,
    token: Option<Seq<char>>,
    c: Credentials,
)
    requires
        c.host matches HeaderText::Text(h) && is_here(bound_ip, host_part(h@)),
        c.origin is Absent || (c.origin matches HeaderText::Text(o) && (origin_part(o@) matches Some(
            h,
        ) && is_here(bound_ip, h))),
        token is None || (c.authorization matches HeaderText::Text(a) && bearer(a@) == token),
    ensures
        refusal(allowed(bound_ip), token, c) is None,
{
    if let HeaderText::Text(h) = c.host {
        lemma_allowed(bound_ip, host_part(h@));
    }
    if let HeaderText::Text(o) = c.origin {
        if let Some(h) = origin_part(o@) {
            lemma_allowed(bound_ip, h);
        }
    }
}

/// What is wrong with a request is told in turn: its host first, its origin next,
/// its token last.
pub proof fn law_the_first_fault_of_a_request_is_told(
    bound_ip: Seq<char>,
    token: Option<Seq<char>>,
    c: Credentials,
)
    ensures
        !(c.host is Text) ==> refusal(allowed(bound_ip), token, c) == Some(Refusal::Host),
        c.host matches HeaderText::Text(h) ==> !is_here(bound_ip, host_part(h@)) ==> refusal(
            allowed(bound_ip),
            token,
            c,
        ) == Some(Refusal::Host),
        c.host matches HeaderText::Text(h) ==> is_here(bound_ip, host_part(h@)) ==> {
            &&& c.origin is Unreadable ==> refusal(allowed(bound_ip), token, c) == Some(
                Refusal::Origin,
            )
            &&& c.origin matches HeaderText::Text(o) ==> !(origin_part(o@) matches Some(g)
                && is_here(bound_ip, g)) ==> refusal(allowed(bound_ip), token, c) == Some(
                Refusal::Origin,
            )
            &&& c.origin is Absent && token is Some && !(c.authorization is Text) ==> refusal(
                allowed(bound_ip),
                token,
                c,
            ) == Some(Refusal::Token)
            &&& c.origin is Absent ==> (token matches Some(t) ==> (
            c.authorization matches HeaderText::Text(a) ==> bearer(a@) != Some(t) ==> refusal(
                allowed(bound_ip),
                token,
                c,
            ) == Some(Refusal::Token)))
        },
{
    if let HeaderText::Text(h) = c.host {
        lemma_allowed(bound_ip, host_part(h@));
    }
    if let HeaderText::Text(o) = c.origin {
        if let Some(g) = origin_part(o@) {
            lemma_allowed(bound_ip, g);
        }
    }
}

/// This machine is known by its name, its two loopback addresses and the address
/// it is bound to, and by nothing else.
pub proof fn law_this_machine_is_known_by_four_names(bound_ip: Seq<char>, host: Seq<char>)
    ensures
        is_here(bound_ip, "localhost"@),
        is_here(bound_ip, "127.0.0.1"@),
        is_here(bound_ip, "::1"@),
        is_here(bound_ip, bound_ip),
        is_here(bound_ip, host) ==> host == "localhost"@ || host == "127.0.0.1"@ || host == "::1"@
            || host == bound_ip,
        allowed(bound_ip).contains(host) <==> is_here(bound_ip, host),
{
    lemma_allowed(bound_ip, host);
}

} // verus!
