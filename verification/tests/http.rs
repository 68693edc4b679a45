use agent_block_core::bridge::http::{
    body_text, correlation_id, dump_dir, dump_file_name, dump_request_record, dump_response_record,
    plan_request, record_response, redact_headers, request_headers, sanitize_id, send_failure,
    RequestOpts, SendFailure, SinkState, SseReader, TraceContext, MAX_BODY_SIZE,
};
use agent_block_core::calendar::{civil_date, utc_stamp};
use agent_block_core::table::Table;

const REDACTED_VALUE: &str = "***REDACTED***";

fn value<'a>(t: &'a Table<String>, name: &str) -> &'a str {
    t.get(name).expect("a header").as_str()
}

fn rendered(t: &Table<String>) -> String {
    (0..t.len()).map(|i| format!("{}={};", t.entry(i).0, t.entry(i).1)).collect()
}

fn no_trace() -> TraceContext {
    TraceContext { trace_id: None, run_id: None, agent_id: None, agent_name: None }
}

fn pair(name: &str, value: &str) -> (String, String) {
    (name.to_string(), value.to_string())
}

fn plain_request() -> RequestOpts {
    RequestOpts {
        method: None,
        timeout: None,
        body: None,
        stream: None,
        dump: None,
        headers: Vec::new(),
    }
}

#[test]
fn redact_headers_masks_sensitive_keys_case_insensitively() {
    let pairs = vec![
        ("X-Api-Key".to_string(), "secret-key".to_string()),
        ("Authorization".to_string(), "Bearer tok".to_string()),
        ("set-cookie".to_string(), "sid=abc".to_string()),
        ("Cookie".to_string(), "session=xyz".to_string()),
        ("Proxy-Authorization".to_string(), "Basic pxy".to_string()),
        ("content-type".to_string(), "application/json".to_string()),
    ];
    let got = redact_headers(&pairs);
    assert_eq!(value(&got, "X-Api-Key"), REDACTED_VALUE);
    assert_eq!(value(&got, "Authorization"), REDACTED_VALUE);
    assert_eq!(value(&got, "set-cookie"), REDACTED_VALUE);
    assert_eq!(value(&got, "Cookie"), REDACTED_VALUE);
    assert_eq!(value(&got, "Proxy-Authorization"), REDACTED_VALUE);
    assert_eq!(value(&got, "content-type"), "application/json");
    let rendered = rendered(&got);
    assert!(!rendered.contains("secret-key"), "leaked: {rendered}");
    assert!(!rendered.contains("Bearer tok"), "leaked: {rendered}");
    assert!(!rendered.contains("sid=abc"), "leaked: {rendered}");
    assert!(!rendered.contains("session=xyz"), "leaked: {rendered}");
    assert!(!rendered.contains("Basic pxy"), "leaked: {rendered}");
}

#[test]
fn stamps_sort_as_instants() {
    let instants = [
        0_u64,
        1,
        59,
        60,
        3599,
        3600,
        86399,
        86400,
        951_782_399,
        951_782_400,
        1_709_251_199,
        1_709_251_200,
        4_102_444_799,
        4_102_444_800,
        253_402_300_799,
    ];
    let stamps: Vec<String> = instants.iter().map(|t| utc_stamp(*t)).collect();
    for pair in stamps.windows(2) {
        assert!(pair[0] < pair[1], "{pair:?}");
    }
    assert!(stamps.iter().all(|s| s.len() == 16));
    assert_eq!(stamps.last().map(String::as_str), Some("99991231T235959Z"));
}

#[test]
fn utc_stamp_formats_known_instants() {
    assert_eq!(utc_stamp(0), "19700101T000000Z");
    // 2021-01-01T00:00:00Z
    assert_eq!(utc_stamp(1_609_459_200), "20210101T000000Z");
    // 2024-02-29T23:59:59Z (leap day)
    assert_eq!(utc_stamp(1_709_251_199), "20240229T235959Z");
}

#[test]
fn sanitize_id_keeps_file_name_single_component() {
    assert_eq!(sanitize_id("run/../id"), "run_.._id");
    assert_eq!(sanitize_id("a b:c"), "a_b_c");
    assert_eq!(sanitize_id("run-1_a.b"), "run-1_a.b");
}

#[test]
fn request_record_omits_body_when_absent() {
    let ctx = ("t".into(), "r".into(), "a".into(), "n".into());
    let rec = dump_request_record(7, &ctx, "GET", "https://example.com", &[], None);
    assert_eq!(rec.kind, "http_request");
    assert!(rec.body.is_none());
    let rec = rec.to_json();
    assert_eq!(rec.get("kind").and_then(|k| k.as_text()), Some("http_request"));
    assert!(rec.get("body").is_none());
    assert!(rec.get("status").is_none());
    assert!(rec.get("body_skipped").is_none());
}

#[test]
fn response_record_carries_skip_reason_for_streams() {
    let ctx = (String::new(), String::new(), String::new(), String::new());
    let rec = dump_response_record(
        7,
        &ctx,
        "POST",
        "https://example.com",
        200,
        &[],
        None,
        Some("sse_stream"),
    );
    assert_eq!(rec.body_skipped.as_deref(), Some("sse_stream"));
    assert!(rec.body.is_none());
    let rec = rec.to_json();
    assert_eq!(rec.get("body_skipped").and_then(|w| w.as_text()), Some("sse_stream"));
    assert!(rec.get("body").is_none());
    assert_eq!(rec.get("status").and_then(|n| n.as_u64()), Some(200));
}

#[test]
fn a_record_states_its_exchange() {
    let ctx = ("t".into(), "r".into(), "a".into(), "n".into());
    let rec = record_response(9, &ctx, "GET", "u", 204, &[pair("Cookie", "x")], Some("body"));
    assert_eq!((rec.ts, rec.kind, rec.status), (9, "http_response", Some(204)));
    assert_eq!((rec.trace_id.as_str(), rec.run_id.as_str()), ("t", "r"));
    assert_eq!((rec.agent_id.as_str(), rec.agent_name.as_str()), ("a", "n"));
    assert_eq!((rec.method.as_str(), rec.url.as_str()), ("GET", "u"));
    assert_eq!(value(&rec.headers, "Cookie"), REDACTED_VALUE);
    assert_eq!(rec.body.as_deref(), Some("body"));
    assert!(rec.body_skipped.is_none());
    let streamed = record_response(9, &ctx, "GET", "u", 200, &[], None);
    assert_eq!(streamed.body_skipped.as_deref(), Some("sse_stream"));
}

#[test]
fn a_request_falls_back_to_its_defaults() {
    let plan = plan_request(plain_request(), &no_trace(), &None).ok().expect("a plan");
    assert_eq!(plan.method, "GET");
    assert_eq!(plan.timeout_secs, 120);
    assert!(plan.headers.is_empty() && plan.body.is_none());
    assert!(!plan.stream && !plan.dump_full);
    let mut opts = plain_request();
    opts.method = Some("POST".to_string());
    opts.timeout = Some(3);
    opts.stream = Some(true);
    opts.dump = Some("full".to_string());
    let plan = plan_request(opts, &no_trace(), &None).ok().expect("a plan");
    assert_eq!((plan.method.as_str(), plan.timeout_secs), ("POST", 3));
    assert!(plan.stream && plan.dump_full);
}

#[test]
fn a_method_has_to_be_a_token() {
    let mut opts = plain_request();
    opts.method = Some("NO SUCH".to_string());
    assert_eq!(
        plan_request(opts, &no_trace(), &None).err().expect("refused"),
        "invalid HTTP method 'NO SUCH': invalid HTTP method"
    );
    let mut opts = plain_request();
    opts.method = Some(String::new());
    assert!(plan_request(opts, &no_trace(), &None).is_err());
    let mut opts = plain_request();
    opts.method = Some("X-CUSTOM".to_string());
    assert!(plan_request(opts, &no_trace(), &None).is_ok());
}

#[test]
fn the_scripts_headers_win_over_the_trace() {
    let trace = TraceContext {
        trace_id: Some("t".to_string()),
        run_id: None,
        agent_id: None,
        agent_name: Some("n".to_string()),
    };
    let explicit = [pair("X-Trace-Id", "mine")];
    let got = request_headers(&explicit, &trace, &Some("fallback".to_string()));
    assert_eq!(
        got,
        vec![
            pair("X-Trace-Id", "mine"),
            pair("x-agent-id", "fallback"),
            pair("x-agent-name", "n"),
        ]
    );
}

#[test]
fn each_failure_to_send_has_its_words() {
    assert_eq!(send_failure(&SendFailure::Timeout, 5, "e"), "http timeout after 5s: e");
    assert_eq!(send_failure(&SendFailure::Connect, 5, "e"), "http connection error: e");
    assert_eq!(send_failure(&SendFailure::Other, 5, "e"), "http request error: e");
}

#[test]
fn a_body_reads_as_text_up_to_its_limit() {
    assert_eq!(body_text("héllo".as_bytes()).unwrap(), "héllo");
    assert_eq!(body_text(&[b'a', 0xff, b'b']).unwrap(), "a\u{fffd}b");
    let big = vec![b'x'; MAX_BODY_SIZE + 1];
    assert_eq!(
        body_text(&big).unwrap_err(),
        "response body too large: 10485761 bytes (max 10485760)"
    );
}

#[test]
fn events_arrive_whole_however_they_are_cut() {
    let stream = "data: one\n\ndata: two\ndata: three\n\n: a comment\n\ndata: [DONE]\n\ndata: late\n\n";
    let mut whole = SseReader::new();
    let all = whole.feed(stream);
    assert_eq!(all, vec!["one", "two", "three"]);
    assert!(whole.is_done());

    let mut pieces = SseReader::new();
    let mut got: Vec<String> = Vec::new();
    for c in stream.chars() {
        got.extend(pieces.feed(&c.to_string()));
    }
    assert_eq!(got, all);
    assert!(pieces.is_done());
}

#[test]
fn an_unfinished_event_waits() {
    let mut r = SseReader::new();
    assert!(r.feed("data: half").is_empty());
    assert!(!r.is_done());
    assert_eq!(r.feed(" a line\n\n"), vec!["half a line"]);
}

#[test]
fn a_dump_goes_where_the_setting_says() {
    assert_eq!(dump_dir(None), None);
    assert_eq!(dump_dir(Some("")), None);
    assert_eq!(dump_dir(Some("/d")).as_deref(), Some("/d"));
    assert_eq!(correlation_id(Some("r"), Some("t"), "p"), "r");
    assert_eq!(correlation_id(Some(""), Some("t"), "p"), "t");
    assert_eq!(correlation_id(None, None, "p"), "p");
    assert_eq!(dump_file_name(0, "a/b", 42), "19700101T000000Z-a_b-p42.jsonl");
}

#[test]
fn a_sink_that_failed_once_stays_quiet() {
    let mut s = SinkState::Open;
    assert_eq!(s.line("{}").as_deref(), Some("{}\n"));
    s.note(true);
    assert_eq!(s.line("{}").as_deref(), Some("{}\n"));
    s.note(false);
    assert_eq!(s.line("{}"), None);
    s.note(true);
    assert_eq!(s.line("{}"), None);
}

#[test]
fn a_day_has_its_date() {
    assert_eq!(civil_date(0), (1970, 1, 1));
    assert_eq!(civil_date(19782), (2024, 2, 29));
    assert_eq!(civil_date(19783), (2024, 3, 1));
    assert_eq!(civil_date(47541), (2100, 3, 1));
}

#[test]
fn bytes_that_are_no_text_are_replaced_in_the_stream() {
    let mut reader = SseReader::new();
    assert_eq!(reader.feed_bytes(b"data: a\xffb\n"), Vec::<String>::new());
    assert_eq!(reader.feed_bytes(b"\ndata: [DONE]\n\n"), vec!["a\u{fffd}b".to_string()]);
    assert!(reader.is_done());
    assert_eq!(reader.feed_bytes(b"data: c\n\n"), Vec::<String>::new());
}

#[test]
fn a_record_is_written_with_what_it_has() {
    let ctx = ("t".into(), "r".into(), "a".into(), "n".into());
    let headers = [pair("Cookie", "sid=1"), pair("Accept", "*/*")];
    let rec = record_response(9, &ctx, "PUT", "u", 201, &headers, Some("b")).to_json();
    let text = |name: &str| rec.get(name).and_then(|v| v.as_text());
    assert_eq!(rec.get("ts").and_then(|v| v.as_u64()), Some(9));
    assert_eq!(text("trace_id"), Some("t"));
    assert_eq!(text("run_id"), Some("r"));
    assert_eq!(text("agent_id"), Some("a"));
    assert_eq!(text("agent_name"), Some("n"));
    assert_eq!(text("method"), Some("PUT"));
    assert_eq!(text("url"), Some("u"));
    assert_eq!(text("body"), Some("b"));
    let shown = rec.get("headers").expect("headers");
    assert_eq!(shown.get("Cookie").and_then(|v| v.as_text()), Some("***REDACTED***"));
    assert_eq!(shown.get("Accept").and_then(|v| v.as_text()), Some("*/*"));
}
