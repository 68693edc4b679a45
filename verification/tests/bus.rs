use agent_block_core::bus::dispatcher::{
    panic_message, settle, woken, EventBus, HandlerEnd, LoopStep, PanicPayload, Wake,
};
use agent_block_core::bus::event::{ack_value, AckOutcome};
use agent_block_core::bus::http_source::{
    allowed_hosts, answer, body_value, check_request, error_reply, host_only, origin_host, receive,
    refuse, reply, request_event, respond, Credentials, HeaderText, HttpSourceConfig, Refusal, Request,
};
use agent_block_core::json::{Json, Number};
use agent_block_core::table::Table;

fn text(s: &str) -> Json {
    Json::Text(s.to_string())
}

fn number(n: u64) -> Json {
    Json::Number(Number::Unsigned(n))
}

fn object(fields: Vec<(&str, Json)>) -> Json {
    let mut t: Table<Json> = Table::new();
    for (name, value) in fields {
        t.set(name, value);
    }
    Json::Object(t)
}

fn field<'a>(v: &'a Json, name: &str) -> &'a str {
    v.get(name).expect("a field").as_text().expect("a text")
}

fn get_request(path: &str) -> Request {
    Request {
        method: "GET".to_string(),
        path: path.to_string(),
        query: None,
        body: Json::Null,
        remote: "127.0.0.1:50000".to_string(),
    }
}

#[test]
fn host_only_drops_a_port_and_ipv6_brackets() {
    assert_eq!(host_only("localhost:7788"), "localhost");
    assert_eq!(host_only("127.0.0.1"), "127.0.0.1");
    assert_eq!(host_only("[::1]:7788"), "::1");
    assert_eq!(host_only("[::1]"), "::1");
    assert_eq!(host_only("evil.example"), "evil.example");
}

#[test]
fn origin_host_reads_the_authority() {
    assert_eq!(origin_host("http://localhost:3000").as_deref(), Some("localhost"));
    assert_eq!(origin_host("https://evil.example/x").as_deref(), Some("evil.example"));
    assert_eq!(origin_host("null"), None);
}

#[test]
fn the_handler_of_the_kind_is_asked_before_the_fallback() {
    let mut bus: EventBus<&str> = EventBus::new();
    assert!(!bus.has_handlers());
    assert_eq!(bus.route("mesh").err().as_deref(), Some("no handler for kind `mesh`"));
    assert_eq!(bus.on("mesh", "first").ok(), Some(false));
    assert_eq!(bus.on("mesh", "second").ok(), Some(true));
    assert_eq!(bus.on_any("any").ok(), Some(false));
    assert_eq!(bus.handler_count(), 1);
    assert!(bus.has_handlers());
    assert_eq!(bus.route("mesh").ok(), Some(&"second"));
    assert_eq!(bus.route("unknown_kind").ok(), Some(&"any"));
}

#[test]
fn nothing_is_registered_once_the_loop_runs() {
    let mut bus: EventBus<&str> = EventBus::new();
    bus.start();
    let e = bus.on("mesh", "x").err().expect("too late");
    assert!(e.contains("bus.on"), "{e}");
    let e = bus.on_any("x").err().expect("too late");
    assert!(e.contains("bus.on_any"), "{e}");
    assert_eq!(bus.handler_count(), 0);
}

#[test]
fn the_shutdown_is_looked_at_before_the_queue() {
    assert!(matches!(woken(true, Some(1)), Wake::Cancelled));
    assert!(matches!(woken(false, Some(1)), Wake::Received(1)));
    assert!(matches!(woken::<i32>(false, None), Wake::SendersDropped));
    let mut bus: EventBus<&str> = EventBus::new();
    bus.start();
    assert!(matches!(bus.wake(Wake::Received(1)), LoopStep::Dispatch(1)));
    let mut bus: EventBus<&str> = EventBus::new();
    bus.start();
    assert!(matches!(bus.wake::<i32>(Wake::Cancelled), LoopStep::CloseAndStop));
    let mut bus: EventBus<&str> = EventBus::new();
    bus.start();
    assert!(matches!(bus.wake::<i32>(Wake::SendersDropped), LoopStep::Stop));
}

/// Runs a loop over a queue, each event with how its handler ends, until it
/// stops: what was dispatched and what each event was answered.
fn served(
    queue: Vec<(u32, HandlerEnd<u32>)>,
    cancel_before: Option<usize>,
) -> (Vec<u32>, Vec<Result<u32, String>>, bool) {
    let mut bus: EventBus<&str> = EventBus::new();
    bus.start();
    let (mut dispatched, mut answers) = (Vec::new(), Vec::new());
    let mut queue = queue.into_iter();
    for turn in 0.. {
        let wake = if cancel_before == Some(turn) {
            woken(true, None)
        } else {
            woken(false, queue.next())
        };
        match bus.wake(wake) {
            LoopStep::CloseAndStop => return (dispatched, answers, true),
            LoopStep::Stop => return (dispatched, answers, false),
            LoopStep::Dispatch((event, end)) => {
                dispatched.push(event);
                answers.push(bus.handled(end));
            }
        }
    }
    unreachable!()
}

fn queue_of_four() -> Vec<(u32, HandlerEnd<u32>)> {
    vec![
        (1, HandlerEnd::Returned(Ok(10))),
        (2, HandlerEnd::Returned(Err("no".to_string()))),
        (3, HandlerEnd::Panicked(PanicPayload::Str("boom"))),
        (4, HandlerEnd::Returned(Ok(40))),
    ]
}

#[test]
fn no_handler_stops_the_later_ones() {
    let (dispatched, answers, cancelled) = served(queue_of_four(), None);
    assert_eq!(dispatched, [1, 2, 3, 4]);
    assert_eq!(answers[0], Ok(10));
    assert_eq!(answers[1], Err("no".to_string()));
    assert_eq!(answers[2], Err("handler panic: boom".to_string()));
    assert_eq!(answers[3], Ok(40));
    assert!(!cancelled);
}

#[test]
fn a_cancel_drains_nothing() {
    let (dispatched, answers, cancelled) = served(queue_of_four(), Some(2));
    assert_eq!((dispatched.as_slice(), answers.len(), cancelled), ([1, 2].as_slice(), 2, true));
    let (dispatched, answers, cancelled) = served(queue_of_four(), Some(0));
    assert_eq!((dispatched.len(), answers.len(), cancelled), (0, 0, true));
}

#[test]
fn a_panic_is_told_by_its_message() {
    assert_eq!(panic_message(PanicPayload::Text("boom".to_string())), "boom");
    let e = settle::<i32>(HandlerEnd::Panicked(PanicPayload::Text("boom".to_string())));
    let e = e.err().expect("a failure");
    assert!(e.contains("panic") || e.contains("boom"), "{e}");
    assert_eq!(e, "handler panic: boom");
    let lost = settle::<i32>(HandlerEnd::Lost("gone".to_string())).err().expect("a failure");
    assert_eq!(lost, "handler panic: handler task error: gone");
    assert_eq!(panic_message(PanicPayload::Other), "<non-string panic payload>");
    assert_eq!(panic_message(PanicPayload::Str("x")), "x");
    assert_eq!(settle(HandlerEnd::Returned(Ok(4))).ok(), Some(4));
}

#[test]
fn an_event_that_was_not_answered_says_why() {
    assert!(matches!(ack_value(AckOutcome::Answered(Json::Bool(true))), Ok(Json::Bool(true))));
    assert_eq!(ack_value(AckOutcome::ChannelClosed).err().unwrap(), "bus channel closed");
    assert_eq!(ack_value(AckOutcome::Dropped).err().unwrap(), "ack dropped");
    assert_eq!(ack_value(AckOutcome::TimedOut).err().unwrap(), "handler timeout");
    assert_eq!(ack_value(AckOutcome::Failed("x".to_string())).err().unwrap(), "x");
}

fn credentials(host: &str, origin: Option<&str>, auth: Option<&str>) -> Credentials {
    let header = |value: Option<&str>| match value {
        Some(text) => HeaderText::Text(text.to_string()),
        None => HeaderText::Absent,
    };
    Credentials { host: header(Some(host)), origin: header(origin), authorization: header(auth) }
}

#[test]
fn an_origin_that_cannot_be_read_is_refused() {
    let hosts = allowed_hosts("127.0.0.1");
    let mut c = credentials("localhost", None, None);
    assert!(check_request(&hosts, &None, &c).is_none());
    c.origin = HeaderText::Unreadable;
    let refused =
        receive(&hosts, &None, "http", Json::empty_object(), &c, get_request("/")).err().expect("a reply");
    assert_eq!(refused.status, 403);
    assert!(matches!(
        refused.body.get("error"),
        Some(Json::Text(m)) if m == "origin not allowed"
    ));
    c.host = HeaderText::Unreadable;
    assert!(matches!(check_request(&hosts, &None, &c), Some(Refusal::Host)));
    let mut c = credentials("localhost", None, None);
    c.authorization = HeaderText::Unreadable;
    assert!(matches!(check_request(&hosts, &Some("t".to_string()), &c), Some(Refusal::Token)));
}

#[test]
fn the_bound_address_is_always_allowed() {
    let hosts = allowed_hosts("127.0.0.2");
    assert!(check_request(&hosts, &None, &credentials("127.0.0.2:7788", None, None)).is_none());
    assert!(check_request(&hosts, &None, &credentials("[::1]:7788", None, None)).is_none());
    assert!(matches!(
        check_request(&hosts, &None, &credentials("127.0.0.3", None, None)),
        Some(Refusal::Host)
    ));
    assert_eq!(allowed_hosts("10.0.0.1"), ["localhost", "127.0.0.1", "::1", "10.0.0.1"]);
}

#[test]
fn a_foreign_request_is_refused_before_its_token_is_read() {
    let hosts = allowed_hosts("127.0.0.1");
    let token = Some("t0k3n".to_string());
    let right = Some("Bearer t0k3n");
    assert!(matches!(
        check_request(&hosts, &token, &credentials("evil.example", None, None)),
        Some(Refusal::Host)
    ));
    assert!(matches!(
        check_request(
            &hosts,
            &token,
            &credentials("127.0.0.1:7788", Some("http://evil.example"), right)
        ),
        Some(Refusal::Origin)
    ));
    assert!(matches!(
        check_request(&hosts, &token, &credentials("127.0.0.1:7788", None, None)),
        Some(Refusal::Token)
    ));
    assert!(matches!(
        check_request(&hosts, &token, &credentials("127.0.0.1:7788", None, Some("Bearer wrong"))),
        Some(Refusal::Token)
    ));
    assert!(check_request(
        &hosts,
        &token,
        &credentials("127.0.0.1:7788", Some("http://localhost:5173"), right)
    )
    .is_none());
    assert_eq!(refuse(Refusal::Host).status, 403);
    assert_eq!(refuse(Refusal::Origin).status, 403);
    assert_eq!(refuse(Refusal::Token).status, 401);
}

#[test]
fn a_handlers_answer_shapes_the_response() {
    let shaped = answer(object(vec![("status", number(201)), ("body", text("made"))]));
    assert_eq!(shaped.status, 201);
    assert_eq!(shaped.body.as_text(), Some("made"));
    let plain = answer(text("hello"));
    assert_eq!(plain.status, 200);
    assert_eq!(plain.body.as_text(), Some("hello"));
    assert_eq!(reply(404, Json::Null).status, 404);
    assert_eq!(field(&error_reply(500, "x").body, "error"), "x");
}

#[test]
fn each_outcome_has_its_status() {
    assert_eq!(respond(AckOutcome::ChannelClosed).status, 503);
    let r = respond(AckOutcome::Failed("no".to_string()));
    assert_eq!((r.status, field(&r.body, "error")), (500, "no"));
    let r = respond(AckOutcome::Dropped);
    assert_eq!((r.status, field(&r.body, "error")), (500, "ack dropped"));
    let r = respond(AckOutcome::TimedOut);
    assert_eq!((r.status, field(&r.body, "error")), (504, "handler timeout"));
    assert_eq!(respond(AckOutcome::Answered(text("ok"))).status, 200);
}

#[test]
fn a_request_becomes_an_event() {
    let mut request = get_request("/jobs/x/runs");
    request.query = Some("limit=3".to_string());
    request.method = "POST".to_string();
    request.body = object(vec![("by", text("test"))]);
    let event = request_event("http", Json::empty_object(), request);
    assert_eq!(event.kind, "http");
    assert_eq!(field(&event.payload, "method"), "POST");
    assert_eq!(field(&event.payload, "path"), "/jobs/x/runs");
    assert_eq!(field(&event.payload, "query"), "limit=3");
    assert_eq!(field(event.payload.get("body").expect("a body"), "by"), "test");
    assert_eq!(field(&event.meta, "remote"), "127.0.0.1:50000");
    assert_eq!(event.id.len(), 36);
    assert_eq!(event.id.as_bytes()[14], b'4');
    let other = request_event("http", Json::empty_object(), get_request("/"));
    assert_ne!(event.id, other.id);
}

#[test]
fn a_body_that_is_no_json_is_a_text() {
    assert!(matches!(body_value(b"", None), Json::Null));
    assert_eq!(body_value(b"plain", None).as_text(), Some("plain"));
    assert!(matches!(body_value(b"true", Some(Json::Bool(true))), Json::Bool(true)));
}

#[test]
fn a_listener_is_configured_in_steps() {
    let c = HttpSourceConfig::new("127.0.0.1:0").token("t").kind("hook");
    assert_eq!(c.bind, "127.0.0.1:0");
    assert_eq!(c.token.as_deref(), Some("t"));
    assert_eq!(c.kind, "hook");
    let c = c.meta(object(vec![("source", text("ci"))]));
    assert_eq!(field(&c.base_meta(), "source"), "ci");
    assert_eq!(HttpSourceConfig::new("x").kind, "http");
}

#[test]
fn what_is_received_is_refused_or_an_event() {
    let hosts = allowed_hosts("127.0.0.1");
    let token = Some("t".to_string());
    let refused = receive(
        &hosts,
        &token,
        "http",
        Json::empty_object(),
        &credentials("127.0.0.1", None, None),
        get_request("/"),
    );
    assert_eq!(refused.err().expect("a reply").status, 401);
    let event = receive(
        &hosts,
        &token,
        "http",
        Json::empty_object(),
        &credentials("127.0.0.1", None, Some("Bearer t")),
        get_request("/jobs"),
    );
    assert_eq!(field(&event.ok().expect("an event").payload, "path"), "/jobs");
}
