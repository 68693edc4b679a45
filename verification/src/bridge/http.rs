//! The rules of the `http.*` bridge: what a request is made of, how a
//! Server-Sent-Events stream is read, and what the dump sink records.
//!
//! The trust boundary is the script author: there are no restrictions on the
//! URL.  A request may opt into a byte-level audit trail with `dump = "full"`;
//! sensitive header values never reach it.

use vstd::prelude::*;

use crate::calendar::{is_stamp, utc_stamp};
use crate::json::{is_text, Json, Number};
use crate::table::{law_names_are_the_keys, Table};
use crate::text::{
    chars_of, dec, decimal, find, find_chars, law_a_line_is_read_off,
    law_trim_drops_the_white_space_around, lemma_find_from, lines_of, lower, occurs_at, opt_text,
    same, stands_at, string_of, text_lines, to_lower, trim, trimmed, views,
};

verus! {

broadcast use vstd::string::group_string_axioms;

/// Default request timeout in seconds.
pub const DEFAULT_TIMEOUT_SECS: u64 = 120;

/// Maximum size of a buffered response body: ten mebibytes.
pub const MAX_BODY_SIZE: usize = 10 * 1024 * 1024;

/// Whether a character may stand in an HTTP token.
pub open spec fn is_token_char(c: char) -> bool {
    ||| '0' <= c <= '9'
    ||| 'a' <= c <= 'z'
    ||| 'A' <= c <= 'Z'
    ||| c == '!' || c == '#' || c == '$' || c == '%' || c == '&' || c == '\'' || c == '*' || c
        == '+' || c == '-' || c == '.' || c == '^' || c == '_' || c == '`' || c == '|' || c == '~'
}

/// Whether a text is an HTTP token: at least one character, all of them token
/// characters.
pub open spec fn is_token(s: Seq<char>) -> bool {
    s.len() > 0 && forall|i: int| 0 <= i < s.len() ==> is_token_char(#[trigger] s[i])
}

/// Parsing a `reqwest::Method` succeeds exactly on HTTP tokens; otherwise the
/// error reads "invalid HTTP method".
#[verifier::external_body]
fn method_error(method: &str) -> (out: Option<String>)
    ensures
        out is None <==> is_token(method@),
        out matches Some(e) ==> e@ == "invalid HTTP method"@,
{
    method.parse::<reqwest::Method>().err().map(|e| e.to_string())
}

/// The text that bytes read as, each ill-formed part replaced by U+FFFD.
pub uninterp spec fn lossy(bytes: Seq<u8>) -> Seq<char>;

/// `String::from_utf8_lossy`: the text of the bytes, a function of the bytes
/// alone.  Bytes that are the UTF-8 encoding of a text read as that text.
#[verifier::external_body]
pub(crate) fn lossy_text(bytes: &[u8]) -> (out: String)
    ensures
        out@ == lossy(bytes@),
        vstd::utf8::valid_utf8(bytes@) ==> vstd::utf8::encode_utf8(out@) == bytes@,
{
    String::from_utf8_lossy(bytes).into_owned()
}

/// What a script may say about a request.
pub struct RequestOpts {
    pub method: Option<String>,
    pub timeout: Option<u64>,
    pub body: Option<String>,
    pub stream: Option<bool>,
    pub dump: Option<String>,
    pub headers: Vec<(String, String)>,
}

/// The trace context of the run, as its environment states it.
pub struct TraceContext {
    pub trace_id: Option<String>,
    pub run_id: Option<String>,
    pub agent_id: Option<String>,
    pub agent_name: Option<String>,
}

/// A request ready to be sent, and what of it the dump sink is to see.
pub struct RequestPlan {
    pub method: String,
    pub timeout_secs: u64,
    pub headers: Vec<(String, String)>,
    pub body: Option<String>,
    pub stream: bool,
    pub dump_full: bool,
}

/// What a list of header pairs reads as.
pub open spec fn pair_views(pairs: Seq<(String, String)>) -> Seq<(Seq<char>, Seq<char>)> {
    pairs.map_values(|p: (String, String)| (p.0@, p.1@))
}

/// What an optional text reads as.
pub open spec fn text_of(o: Option<String>) -> Option<Seq<char>> {
    match o {
        Some(s) => Some(s@),
        None => None,
    }
}

/// Whether the script set a header of this name, in any letter case.
pub open spec fn sets_header(explicit: Seq<(String, String)>, name: Seq<char>) -> bool {
    exists|i: int| 0 <= i < explicit.len() && lower((#[trigger] explicit[i]).0@) == name
}

/// The trace header of this name, when the run has a value for it and the
/// script did not set it.
pub open spec fn trace_header(
    explicit: Seq<(String, String)>,
    name: Seq<char>,
    value: Option<Seq<char>>,
) -> Seq<(Seq<char>, Seq<char>)> {
    if value is Some && value->0.len() > 0 && !sets_header(explicit, name) {
        seq![(name, value->0)]
    } else {
        Seq::<(Seq<char>, Seq<char>)>::empty()
    }
}

/// The agent id a request carries: the environment's, else the fallback.
pub open spec fn effective_agent_id(
    trace: TraceContext,
    fallback: Option<Seq<char>>,
) -> Option<Seq<char>> {
    if trace.agent_id is Some {
        text_of(trace.agent_id)
    } else {
        fallback
    }
}

/// The headers a request goes out with: the script's own, then the trace
/// context of the run.
pub open spec fn outbound_headers(
    explicit: Seq<(String, String)>,
    trace: TraceContext,
    fallback: Option<Seq<char>>,
) -> Seq<(Seq<char>, Seq<char>)> {
    pair_views(explicit) + trace_header(explicit, "x-trace-id"@, text_of(trace.trace_id))
        + trace_header(explicit, "x-run-id"@, text_of(trace.run_id)) + trace_header(
        explicit,
        "x-agent-id"@,
        effective_agent_id(trace, fallback),
    ) + trace_header(explicit, "x-agent-name"@, text_of(trace.agent_name))
}

/// The script's headers always win: they all go out, in front and unchanged,
/// and no header added for the trace context has the name of one of them.
pub proof fn law_the_scripts_headers_win(
    explicit: Seq<(String, String)>,
    trace: TraceContext,
    fallback: Option<Seq<char>>,
)
    ensures
        outbound_headers(explicit, trace, fallback).len() >= explicit.len(),
        outbound_headers(explicit, trace, fallback).take(explicit.len() as int) == pair_views(
            explicit,
        ),
        forall|j: int|
            explicit.len() <= j < outbound_headers(explicit, trace, fallback).len()
                ==> !sets_header(
                explicit,
                (#[trigger] outbound_headers(explicit, trace, fallback)[j]).0,
            ),
{
    let out = outbound_headers(explicit, trace, fallback);
    let p = pair_views(explicit);
    let a = trace_header(explicit, "x-trace-id"@, text_of(trace.trace_id));
    let b = trace_header(explicit, "x-run-id"@, text_of(trace.run_id));
    let c = trace_header(explicit, "x-agent-id"@, effective_agent_id(trace, fallback));
    let d = trace_header(explicit, "x-agent-name"@, text_of(trace.agent_name));
    assert(out == p + a + b + c + d);
    assert(out.take(explicit.len() as int) =~= p);
    assert forall|j: int| explicit.len() <= j < out.len() implies !sets_header(
        explicit,
        (#[trigger] out[j]).0,
    ) by {
        let k = j - p.len();
        if k < a.len() {
            assert(out[j] == a[k]);
        } else if k < a.len() + b.len() {
            assert(out[j] == b[k - a.len()]);
        } else if k < a.len() + b.len() + c.len() {
            assert(out[j] == c[k - a.len() - b.len()]);
        } else {
            assert(out[j] == d[k - a.len() - b.len() - c.len()]);
        }
    }
}

/// Whether the script set a header of this name.
fn header_set(explicit: &[(String, String)], name: &str) -> (yes: bool)
    ensures
        yes == sets_header(explicit@, name@),
{
    let mut i: usize = 0;
    while i < explicit.len()
        invariant
            0 <= i <= explicit@.len(),
            forall|k: int| 0 <= k < i ==> lower((#[trigger] explicit@[k]).0@) != name@,
        decreases explicit@.len() - i,
    {
        let l = to_lower(explicit[i].0.as_str());
        if same(l.as_str(), name) {
            assert(lower(explicit@[i as int].0@) == name@);
            return true;
        }
        i += 1;
    }
    false
}

/// Add a trace header, unless the run has no value for it or the script set
/// it.
fn add_trace_header(
    out: &mut Vec<(String, String)>,
    explicit: &[(String, String)],
    name: &str,
    value: &Option<String>,
)
    ensures
        pair_views(final(out)@) == pair_views(old(out)@) + trace_header(
            explicit@,
            name@,
            text_of(*value),
        ),
{
    let ghost before = out@;
    assert(pair_views(before) + Seq::<(Seq<char>, Seq<char>)>::empty() =~= pair_views(before));
    if let Some(v) = value {
        if !v.as_str().is_empty() && !header_set(explicit, name) {
            out.push((name.to_owned(), v.clone()));
            assert(pair_views(out@) =~= pair_views(before) + seq![(name@, v@)]);
        }
    }
}

/// The headers a request goes out with.
pub fn request_headers(
    explicit: &[(String, String)],
    trace: &TraceContext,
    fallback_agent_id: &Option<String>,
) -> (out: Vec<(String, String)>)
    ensures
        pair_views(out@) == outbound_headers(explicit@, *trace, text_of(*fallback_agent_id)),
{
    let mut out: Vec<(String, String)> = Vec::new();
    let mut i: usize = 0;
    while i < explicit.len()
        invariant
            0 <= i <= explicit@.len(),
            pair_views(out@) == pair_views(explicit@.take(i as int)),
        decreases explicit@.len() - i,
    {
        let ghost so_far = out@;
        let pair = (explicit[i].0.clone(), explicit[i].1.clone());
        out.push(pair);
        assert(pair_views(out@) =~= pair_views(so_far).push(
            (explicit@[i as int].0@, explicit@[i as int].1@),
        ));
        assert(pair_views(explicit@.take(i + 1)) =~= pair_views(explicit@.take(i as int)).push(
            (explicit@[i as int].0@, explicit@[i as int].1@),
        ));
        i += 1;
    }
    assert(explicit@.take(explicit@.len() as int) =~= explicit@);
    add_trace_header(&mut out, explicit, "x-trace-id", &trace.trace_id);
    add_trace_header(&mut out, explicit, "x-run-id", &trace.run_id);
    if trace.agent_id.is_some() {
        add_trace_header(&mut out, explicit, "x-agent-id", &trace.agent_id);
    } else {
        add_trace_header(&mut out, explicit, "x-agent-id", fallback_agent_id);
    }
    add_trace_header(&mut out, explicit, "x-agent-name", &trace.agent_name);
    out
}

/// The method a request uses: the script's, else GET.
pub open spec fn chosen_method(opts: RequestOpts) -> Seq<char> {
    match opts.method {
        Some(m) => m@,
        None => "GET"@,
    }
}

/// Work out a request from what the script said and from the run's trace
/// context, or say what is wrong with the method.
pub fn plan_request(
    opts: RequestOpts,
    trace: &TraceContext,
    fallback_agent_id: &Option<String>,
) -> (out: Result<RequestPlan, String>)
    ensures
        out is Ok <==> is_token(chosen_method(opts)),
        match out {
            Ok(plan) => {
                &&& plan.method@ == chosen_method(opts)
                &&& plan.timeout_secs == match opts.timeout {
                    Some(t) => t,
                    None => DEFAULT_TIMEOUT_SECS,
                }
                &&& pair_views(plan.headers@) == outbound_headers(
                    opts.headers@,
                    *trace,
                    text_of(*fallback_agent_id),
                )
                &&& plan.body == opts.body
                &&& plan.stream == (opts.stream == Some(true))
                &&& plan.dump_full == (opts.dump matches Some(d) && d@ == "full"@)
            },
            Err(e) => e@ == "invalid HTTP method '"@ + chosen_method(opts) + "': "@
                + "invalid HTTP method"@,
        },
{
    let method = match opts.method {
        Some(m) => m,
        None => "GET".to_owned(),
    };
    if let Some(e) = method_error(method.as_str()) {
        let mut text = "invalid HTTP method '".to_owned();
        text.append(method.as_str());
        text.append("': ");
        text.append(e.as_str());
        return Err(text);
    }
    let dump_full = match &opts.dump {
        Some(d) => same(d.as_str(), "full"),
        None => false,
    };
    let stream = match opts.stream {
        Some(s) => s,
        None => false,
    };
    let timeout_secs: u64 = match opts.timeout {
        Some(t) => t,
        None => DEFAULT_TIMEOUT_SECS,
    };
    let headers = request_headers(opts.headers.as_slice(), trace, fallback_agent_id);
    Ok(RequestPlan { method, timeout_secs, headers, body: opts.body, stream, dump_full })
}

/// How sending a request failed.
pub enum SendFailure {
    Timeout,
    Connect,
    Other,
}

/// What the script is told when sending failed with the error `text`.
pub fn send_failure(kind: &SendFailure, timeout_secs: u64, text: &str) -> (out: String)
    ensures
        out@ == match kind {
            SendFailure::Timeout => "http timeout after "@ + dec(timeout_secs as nat) + "s: "@
                + text@,
            SendFailure::Connect => "http connection error: "@ + text@,
            SendFailure::Other => "http request error: "@ + text@,
        },
{
    match kind {
        SendFailure::Timeout => {
            let mut out = "http timeout after ".to_owned();
            out.append(decimal(timeout_secs).as_str());
            out.append("s: ");
            out.append(text);
            out
        },
        SendFailure::Connect => {
            let mut out = "http connection error: ".to_owned();
            out.append(text);
            out
        },
        SendFailure::Other => {
            let mut out = "http request error: ".to_owned();
            out.append(text);
            out
        },
    }
}

/// The text of a buffered body, or why it is refused.
pub fn body_text(bytes: &[u8]) -> (out: Result<String, String>)
    ensures
        match out {
            Ok(text) => bytes@.len() <= MAX_BODY_SIZE && text@ == lossy(bytes@),
            Err(e) => bytes@.len() > MAX_BODY_SIZE && e@ == "response body too large: "@ + dec(
                bytes@.len(),
            ) + " bytes (max "@ + dec(MAX_BODY_SIZE as nat) + ")"@,
        },
{
    let n: usize = bytes.len();
    if n > MAX_BODY_SIZE {
        let mut e = "response body too large: ".to_owned();
        e.append(decimal(n as u64).as_str());
        e.append(" bytes (max ");
        e.append(decimal(MAX_BODY_SIZE as u64).as_str());
        e.append(")");
        Err(e)
    } else {
        Ok(lossy_text(bytes))
    }
}

// ── Server-Sent Events ───────────────────────────────────────────────

/// Whether a line of an event carries data.
pub open spec fn is_data_line(line: Seq<char>) -> bool {
    occurs_at(line, "data:"@, 0)
}

/// The data of a data line, without the white space around it.
pub open spec fn line_data(line: Seq<char>) -> Seq<char> {
    trim(line.skip(5))
}

/// The data of an event's lines, up to the `[DONE]` sentinel, and whether the
/// sentinel was met.  Lines that carry no data are skipped.
pub open spec fn event_data(lines: Seq<Seq<char>>) -> (Seq<Seq<char>>, bool)
    decreases lines.len(),
{
    if lines.len() == 0 {
        (Seq::<Seq<char>>::empty(), false)
    } else {
        let front = event_data(lines.drop_last());
        if front.1 || !is_data_line(lines.last()) {
            front
        } else if line_data(lines.last()) == "[DONE]"@ {
            (front.0, true)
        } else {
            (front.0.push(line_data(lines.last())), false)
        }
    }
}

/// What reading a stream came to: the data delivered, the text that is not yet
/// a whole event, and whether the sentinel ended the stream.
pub ghost struct SseOutcome {
    pub data: Seq<Seq<char>>,
    pub rest: Seq<char>,
    pub done: bool,
}

/// The blank line that ends an event.
pub open spec fn event_end() -> Seq<char> {
    seq!['\n', '\n']
}

/// Reading a text as a stream of events, each ended by a blank line.
pub open spec fn sse(text: Seq<char>) -> SseOutcome
    decreases text.len(),
{
    match find(text, event_end()) {
        None => SseOutcome { data: Seq::<Seq<char>>::empty(), rest: text, done: false },
        Some(p) => {
            let event = event_data(text_lines(text.take(p)));
            let after = text.skip(p + 2);
            if event.1 {
                SseOutcome { data: event.0, rest: after, done: true }
            } else {
                proof {
                    lemma_find_from(text, event_end(), 0);
                }
                let more = sse(after);
                SseOutcome { data: event.0 + more.data, rest: more.rest, done: more.done }
            }
        },
    }
}

/// Where a stream is cut into chunks does not matter: reading `a` and then `b`
/// delivers what reading `a` followed by `b` in one piece does.
pub proof fn law_chunks_do_not_matter(a: Seq<char>, b: Seq<char>)
    ensures
        sse(a).done ==> sse(a + b).done && sse(a + b).data == sse(a).data,
        !sse(a).done ==> {
            let more = sse(sse(a).rest + b);
            &&& sse(a + b).data == sse(a).data + more.data
            &&& sse(a + b).rest == more.rest
            &&& sse(a + b).done == more.done
        },
    decreases a.len(),
{
    let end = event_end();
    lemma_find_from(a, end, 0);
    lemma_find_from(a + b, end, 0);
    match find(a, end) {
        None => {
            assert(sse(a).data + sse(a + b).data =~= sse(a + b).data);
        },
        Some(p) => {
            let whole = a + b;
            assert(whole.subrange(p, p + 2) =~= a.subrange(p, p + 2));
            assert(occurs_at(whole, end, p));
            let q = find(whole, end)->0;
            if q < p {
                assert(a.subrange(q, q + 2) =~= whole.subrange(q, q + 2));
                assert(occurs_at(a, end, q));
            }
            assert(q == p);
            assert(whole.take(p) =~= a.take(p));
            assert(whole.skip(p + 2) =~= a.skip(p + 2) + b);
            law_chunks_do_not_matter(a.skip(p + 2), b);
            let event = event_data(text_lines(a.take(p)));
            if !event.1 && !sse(a).done {
                let more = sse(sse(a).rest + b);
                assert(sse(whole).data =~= sse(a).data + more.data);
            }
        },
    }
}

/// A reader of a Server-Sent-Events stream.
pub struct SseReader {
    buffer: String,
    done: bool,
}

impl SseReader {
    /// The text that is not yet a whole event.
    pub closed spec fn pending(&self) -> Seq<char> {
        self.buffer@
    }

    /// Whether the sentinel ended the stream.
    pub closed spec fn ended(&self) -> bool {
        self.done
    }

    /// A reader at the beginning of a stream.
    pub fn new() -> (out: SseReader)
        ensures
            out.pending() == Seq::<char>::empty(),
            !out.ended(),
    {
        SseReader { buffer: String::new(), done: false }
    }

    /// Whether the sentinel ended the stream.
    pub fn is_done(&self) -> (yes: bool)
        ensures
            yes == self.ended(),
    {
        self.done
    }

    /// Take in the next chunk of the stream and give out the data it
    /// completes.  After the sentinel nothing is given out any more.
    pub fn feed(&mut self, chunk: &str) -> (out: Vec<String>)
        ensures
            old(self).ended() ==> views(out@) == Seq::<Seq<char>>::empty() && *final(self) == *old(
                self,
            ),
            !old(self).ended() ==> {
                let r = sse(old(self).pending() + chunk@);
                &&& views(out@) == r.data
                &&& final(self).pending() == r.rest
                &&& final(self).ended() == r.done
            },
    {
        let mut out: Vec<String> = Vec::new();
        assert(views(out@) =~= Seq::<Seq<char>>::empty());
        if self.done {
            return out;
        }
        let mut joined = self.buffer.clone();
        joined.append(chunk);
        let ghost whole = joined@;
        let mut rest = chars_of(joined.as_str());
        proof {
            reveal_strlit("\n\n");
            assert("\n\n"@ =~= event_end());
            assert(views(out@) + sse(rest@).data =~= sse(whole).data);
        }
        let end = chars_of("\n\n");
        let mut done = false;
        let mut more = true;
        while more
            invariant
                end@ == event_end(),
                views(out@) + sse(rest@).data == sse(whole).data || done,
                !done ==> sse(rest@).rest == sse(whole).rest && sse(rest@).done == sse(whole).done,
                done ==> !more && views(out@) == sse(whole).data && rest@ == sse(whole).rest
                    && sse(whole).done,
                !more && !done ==> find(rest@, event_end()) is None,
            decreases rest@.len(), if more { 1int } else { 0int },
        {
            let ghost now = rest@;
            proof {
                lemma_find_from(now, event_end(), 0);
            }
            match find_chars(rest.as_slice(), end.as_slice(), 0) {
                None => {
                    more = false;
                },
                Some(p) => {
                    let head = vstd::slice::slice_subrange(rest.as_slice(), 0, p);
                    assert(head@ =~= now.take(p as int));
                    let lines = lines_of(head);
                    let n: usize = rest.len();
                    assert(occurs_at(now, event_end(), p as int));
                    assert(p + 2 <= n);
                    let after = chars_of(string_of(rest.as_slice(), p + 2, n).as_str());
                    assert(after@ =~= now.skip(p + 2));
                    let ghost before = views(out@);
                    let sentinel = deliver(lines.as_slice(), &mut out);
                    let ghost event = event_data(text_lines(now.take(p as int)));
                    rest = after;
                    if sentinel {
                        done = true;
                        more = false;
                    }
                    assert(before + sse(now).data =~= before + event.0 + if event.1 {
                        Seq::<Seq<char>>::empty()
                    } else {
                        sse(after@).data
                    });
                },
            }
        }
        if !done {
            assert(views(out@) + sse(rest@).data =~= views(out@));
        }
        self.buffer = string_of(rest.as_slice(), 0, rest.len());
        assert(self.buffer@ =~= rest@);
        self.done = done;
        out
    }

    /// Take in the next bytes of the stream, read as text by themselves, and
    /// give out the data they complete.
    pub fn feed_bytes(&mut self, chunk: &[u8]) -> (out: Vec<String>)
        ensures
            old(self).ended() ==> views(out@) == Seq::<Seq<char>>::empty() && *final(self) == *old(
                self,
            ),
            !old(self).ended() ==> {
                let r = sse(old(self).pending() + lossy(chunk@));
                &&& views(out@) == r.data
                &&& final(self).pending() == r.rest
                &&& final(self).ended() == r.done
            },
    {
        let text = lossy_text(chunk);
        self.feed(text.as_str())
    }
}

/// Append the data of an event's lines to `out`; whether the sentinel was met.
fn deliver(lines: &[String], out: &mut Vec<String>) -> (sentinel: bool)
    ensures
        sentinel == event_data(views(lines@)).1,
        views(final(out)@) == views(old(out)@) + event_data(views(lines@)).0,
{
    let ghost all = views(lines@);
    let ghost start = views(out@);
    let prefix = chars_of("data:");
    proof {
        reveal_strlit("data:");
        assert("data:"@.len() == 5);
        assert(all.take(0) =~= Seq::<Seq<char>>::empty());
        assert(start + event_data(all.take(0)).0 =~= start);
    }
    let mut i: usize = 0;
    while i < lines.len()
        invariant
            prefix@ == "data:"@,
            "data:"@.len() == 5,
            all == views(lines@),
            start == views(old(out)@),
            0 <= i <= lines@.len(),
            !event_data(all.take(i as int)).1,
            views(out@) == start + event_data(all.take(i as int)).0,
        decreases lines@.len() - i,
    {
        let ghost now = all.take(i + 1);
        assert(now.drop_last() =~= all.take(i as int));
        assert(now.last() == lines@[i as int]@);
        let line = chars_of(lines[i].as_str());
        if stands_at(line.as_slice(), prefix.as_slice(), 0) {
            let data = trimmed(line.as_slice(), 5);
            if same(data.as_str(), "[DONE]") {
                proof {
                    assert(event_data(now).1);
                    lemma_sentinel_stays(all, i + 1);
                }
                return true;
            }
            let ghost so_far = out@;
            out.push(data);
            assert(views(out@) =~= views(so_far).push(data@));
            assert(views(out@) =~= start + event_data(now).0);
        }
        i += 1;
    }
    assert(all.take(all.len() as int) =~= all);
    false
}

/// After the sentinel no line changes what was delivered.
proof fn lemma_sentinel_stays(lines: Seq<Seq<char>>, n: int)
    requires
        0 <= n <= lines.len(),
        event_data(lines.take(n)).1,
    ensures
        event_data(lines) == event_data(lines.take(n)),
    decreases lines.len() - n,
{
    if n == lines.len() {
        assert(lines.take(n) =~= lines);
    } else {
        assert(lines.take(n + 1).drop_last() =~= lines.take(n));
        lemma_sentinel_stays(lines, n + 1);
    }
}

// ── The dump sink ────────────────────────────────────────────────────

/// Whether a header of this (lower-case) name holds a secret.
pub open spec fn is_sensitive(name: Seq<char>) -> bool {
    ||| name == "x-api-key"@
    ||| name == "authorization"@
    ||| name == "set-cookie"@
    ||| name == "cookie"@
    ||| name == "proxy-authorization"@
}

/// What the sink sees of a header's value.
pub open spec fn shown_value(name: Seq<char>, value: Seq<char>) -> Seq<char> {
    if is_sensitive(lower(name)) {
        "***REDACTED***"@
    } else {
        value
    }
}

/// The headers as the sink sees them.  Of two headers with one name the later
/// stands.
pub open spec fn shown_headers(pairs: Seq<(String, String)>) -> Map<Seq<char>, Seq<char>>
    decreases pairs.len(),
{
    if pairs.len() == 0 {
        Map::empty()
    } else {
        let last = pairs.last();
        shown_headers(pairs.drop_last()).insert(last.0@, shown_value(last.0@, last.1@))
    }
}

/// What a map to strings reads as.
pub open spec fn text_map(m: Map<Seq<char>, String>) -> Map<Seq<char>, Seq<char>> {
    m.map_values(|s: String| s@)
}

/// Sensitive values never reach the sink, whatever the letter case of their
/// header; every name the request has is there.
pub proof fn law_secrets_never_reach_the_sink(pairs: Seq<(String, String)>)
    ensures
        forall|k: Seq<char>| #[trigger]
            shown_headers(pairs).dom().contains(k) && is_sensitive(lower(k)) ==> shown_headers(
                pairs,
            )[k] == "***REDACTED***"@,
        forall|i: int|
            0 <= i < pairs.len() ==> shown_headers(pairs).dom().contains((#[trigger] pairs[i]).0@),
    decreases pairs.len(),
{
    if pairs.len() > 0 {
        let front = pairs.drop_last();
        law_secrets_never_reach_the_sink(front);
        assert forall|k: Seq<char>| #[trigger]
            shown_headers(pairs).dom().contains(k) && is_sensitive(lower(k)) implies shown_headers(
            pairs,
        )[k] == "***REDACTED***"@ by {
            if k != pairs.last().0@ {
                assert(shown_headers(front).dom().contains(k));
            }
        }
        assert forall|i: int| 0 <= i < pairs.len() implies shown_headers(pairs).dom().contains(
            (#[trigger] pairs[i]).0@,
        ) by {
            if i < front.len() {
                assert(front[i] == pairs[i]);
            }
        }
    }
}

/// A value of a header that is not sensitive reaches the sink as it is, when
/// no later header has the same name.
pub proof fn law_other_values_stay(pairs: Seq<(String, String)>, i: int)
    requires
        0 <= i < pairs.len(),
        !is_sensitive(lower(pairs[i].0@)),
        forall|j: int| i < j < pairs.len() ==> (#[trigger] pairs[j]).0@ != pairs[i].0@,
    ensures
        shown_headers(pairs).contains_pair(pairs[i].0@, pairs[i].1@),
    decreases pairs.len(),
{
    if i < pairs.len() - 1 {
        let front = pairs.drop_last();
        assert forall|j: int| i < j < front.len() implies (#[trigger] front[j]).0@ != front[i].0@ by {
            assert(front[j] == pairs[j]);
        }
        assert(pairs[pairs.len() - 1].0@ != pairs[i].0@);
        law_other_values_stay(front, i);
    }
}

/// Whether a header of this name holds a secret.
fn sensitive(name: &str) -> (yes: bool)
    ensures
        yes == is_sensitive(lower(name@)),
{
    let l = to_lower(name);
    let n = l.as_str();
    same(n, "x-api-key") || same(n, "authorization") || same(n, "set-cookie") || same(n, "cookie")
        || same(n, "proxy-authorization")
}

/// Render header pairs as a table, masking sensitive values.
pub fn redact_headers(pairs: &[(String, String)]) -> (out: Table<String>)
    ensures
        out.well_formed(),
        text_map(out@) == shown_headers(pairs@),
{
    let mut out: Table<String> = Table::new();
    assert(text_map(out@) =~= Map::empty());
    let mut i: usize = 0;
    while i < pairs.len()
        invariant
            0 <= i <= pairs@.len(),
            out.well_formed(),
            text_map(out@) == shown_headers(pairs@.take(i as int)),
        decreases pairs@.len() - i,
    {
        let ghost now = pairs@.take(i + 1);
        assert(now.drop_last() =~= pairs@.take(i as int));
        assert(now.last() == pairs@[i as int]);
        let name = pairs[i].0.as_str();
        let value = if sensitive(name) {
            "***REDACTED***".to_owned()
        } else {
            pairs[i].1.clone()
        };
        let ghost before = out@;
        out.set(name, value);
        assert(text_map(out@) =~= text_map(before).insert(name@, value@));
        i += 1;
    }
    assert(pairs@.take(pairs@.len() as int) =~= pairs@);
    out
}

/// One record of the dump sink.  A field that is `None` is absent.
pub struct DumpRecord {
    pub ts: u64,
    pub kind: &'static str,
    pub trace_id: String,
    pub run_id: String,
    pub agent_id: String,
    pub agent_name: String,
    pub method: String,
    pub url: String,
    pub status: Option<u16>,
    pub headers: Table<String>,
    pub body: Option<String>,
    pub body_skipped: Option<String>,
}

impl DumpRecord {
    /// Whether the record states the context, the method and the URL of an
    /// exchange, and its headers as the sink may see them.
    pub open spec fn describes(
        &self,
        ts: u64,
        ctx: (String, String, String, String),
        method: Seq<char>,
        url: Seq<char>,
        headers: Seq<(String, String)>,
    ) -> bool {
        &&& self.ts == ts
        &&& self.trace_id@ == ctx.0@
        &&& self.run_id@ == ctx.1@
        &&& self.agent_id@ == ctx.2@
        &&& self.agent_name@ == ctx.3@
        &&& self.method@ == method
        &&& self.url@ == url
        &&& self.headers.well_formed()
        &&& text_map(self.headers@) == shown_headers(headers)
    }
}

/// Whether a field of an object is this text, or absent where there is none.
pub open spec fn text_field(v: Json, name: Seq<char>, text: Option<Seq<char>>) -> bool {
    match text {
        Some(s) => v.has(name) && is_text(v.field(name), s),
        None => !v.has(name),
    }
}

/// Whether an object has exactly these texts.
pub open spec fn is_text_object(v: Json, texts: Map<Seq<char>, String>) -> bool {
    &&& v matches Json::Object(t) && t.well_formed() && t@.dom() =~= texts.dom()
    &&& forall|k: Seq<char>| #[trigger] v.has(k) ==> is_text(v.field(k), texts[k]@)
}

/// The fields a record can have.
pub open spec fn record_names() -> Seq<Seq<char>> {
    seq![
        "ts"@,
        "kind"@,
        "trace_id"@,
        "run_id"@,
        "agent_id"@,
        "agent_name"@,
        "method"@,
        "url"@,
        "headers"@,
        "status"@,
        "body"@,
        "body_skipped"@,
    ]
}

/// Whether an object is a record as it is written.
pub open spec fn is_record(v: Json, r: DumpRecord) -> bool {
    &&& v.well_formed()
    &&& v.has("ts"@) && v.field("ts"@) == Json::Number(Number::Unsigned(r.ts))
    &&& text_field(v, "kind"@, Some(r.kind@))
    &&& text_field(v, "trace_id"@, Some(r.trace_id@))
    &&& text_field(v, "run_id"@, Some(r.run_id@))
    &&& text_field(v, "agent_id"@, Some(r.agent_id@))
    &&& text_field(v, "agent_name"@, Some(r.agent_name@))
    &&& text_field(v, "method"@, Some(r.method@))
    &&& text_field(v, "url"@, Some(r.url@))
    &&& v.has("headers"@) && is_text_object(v.field("headers"@), r.headers@)
    &&& match r.status {
        Some(n) => v.has("status"@) && v.field("status"@) == Json::Number(
            Number::Unsigned(n as u64),
        ),
        None => !v.has("status"@),
    }
    &&& text_field(v, "body"@, opt_text(r.body))
    &&& text_field(v, "body_skipped"@, opt_text(r.body_skipped))
    &&& forall|k: Seq<char>| #[trigger] v.has(k) ==> record_names().contains(k)
}

/// The fields a record can have are named apart.
proof fn lemma_record_names()
    ensures
        record_names().no_duplicates(),
{
    reveal_strlit("ts");
    reveal_strlit("kind");
    reveal_strlit("trace_id");
    reveal_strlit("run_id");
    reveal_strlit("agent_id");
    reveal_strlit("agent_name");
    reveal_strlit("method");
    reveal_strlit("url");
    reveal_strlit("headers");
    reveal_strlit("status");
    reveal_strlit("body");
    reveal_strlit("body_skipped");
    assert("ts"@.len() == 2 && "url"@.len() == 3 && "headers"@.len() == 7);
    assert("agent_name"@.len() == 10 && "body_skipped"@.len() == 12);
    assert("kind"@.len() == 4 && "kind"@[0] == 'k');
    assert("body"@.len() == 4 && "body"@[0] == 'b');
    assert("trace_id"@.len() == 8 && "trace_id"@[0] == 't');
    assert("agent_id"@.len() == 8 && "agent_id"@[0] == 'a');
    assert("run_id"@.len() == 6 && "run_id"@[0] == 'r');
    assert("method"@.len() == 6 && "method"@[0] == 'm');
    assert("status"@.len() == 6 && "status"@[0] == 's');
    let names = record_names();
    assert forall|i: int, j: int| 0 <= i < j < names.len() implies names[i] != names[j] by {
        assert(names[i].len() != names[j].len() || names[i][0] != names[j][0]);
    }
}

/// The texts of a table as an object.
fn text_object(texts: &Table<String>) -> (out: Json)
    requires
        texts.well_formed(),
    ensures
        is_text_object(out, texts@),
{
    let mut t: Table<Json> = Table::new();
    let n: usize = texts.len();
    let mut i: usize = 0;
    proof {
        law_names_are_the_keys(*texts);
        assert(texts.names().take(0) =~= Seq::<Seq<char>>::empty());
    }
    while i < n
        invariant
            texts.well_formed(),
            texts.names().no_duplicates(),
            t.well_formed(),
            n == texts.names().len(),
            0 <= i <= n,
            forall|k: Seq<char>| #[trigger]
                t@.dom().contains(k) <==> texts.names().take(i as int).contains(k),
            forall|k: Seq<char>| #[trigger]
                t@.dom().contains(k) ==> is_text(t@[k], texts@[k]@),
        decreases n - i,
    {
        let (name, value) = texts.entry(i);
        let ghost before = t@;
        t.set(name, Json::Text(value.clone()));
        proof {
            let seen = texts.names().take(i as int);
            let now = texts.names().take(i + 1);
            assert(now =~= seen.push(name@));
            assert forall|k: Seq<char>| #[trigger] t@.dom().contains(k) <==> now.contains(k) by {
                if now.contains(k) {
                    let j = choose|j: int| 0 <= j < now.len() && now[j] == k;
                    if j < i {
                        assert(seen[j] == k);
                        assert(seen.contains(k));
                    }
                }
                if k == name@ {
                    assert(now[i as int] == k);
                }
                if seen.contains(k) {
                    let j = choose|j: int| 0 <= j < seen.len() && seen[j] == k;
                    assert(now[j] == k);
                }
            }
        }
        i += 1;
    }
    proof {
        assert(texts.names().take(n as int) =~= texts.names());
    }
    Json::Object(t)
}

impl DumpRecord {
    /// The record as it is written.
    #[verifier::rlimit(60)]
    pub fn to_json(self) -> (out: Json)
        requires
            self.headers.well_formed(),
        ensures
            is_record(out, self),
    {
        let ghost names = record_names();
        proof {
            lemma_record_names();
            assert(names.len() == 12);
            assert forall|i: int| 0 <= i < 12 implies names.contains(#[trigger] names[i]) by {}
        }
        let mut t: Table<Json> = Table::new();
        t.set("ts", Json::Number(Number::Unsigned(self.ts)));
        t.set("kind", Json::Text(self.kind.to_owned()));
        t.set("trace_id", Json::Text(self.trace_id));
        t.set("run_id", Json::Text(self.run_id));
        t.set("agent_id", Json::Text(self.agent_id));
        t.set("agent_name", Json::Text(self.agent_name));
        t.set("method", Json::Text(self.method));
        t.set("url", Json::Text(self.url));
        t.set("headers", text_object(&self.headers));
        if let Some(n) = self.status {
            t.set("status", Json::Number(Number::Unsigned(n as u64)));
        }
        if let Some(b) = self.body {
            t.set("body", Json::Text(b));
        }
        if let Some(why) = self.body_skipped {
            t.set("body_skipped", Json::Text(why));
        }
        proof {
            assert(names[0] == "ts"@ && names[1] == "kind"@ && names[2] == "trace_id"@);
            assert(names[3] == "run_id"@ && names[4] == "agent_id"@ && names[5] == "agent_name"@);
            assert(names[6] == "method"@ && names[7] == "url"@ && names[8] == "headers"@);
            assert(names[9] == "status"@ && names[10] == "body"@ && names[11] == "body_skipped"@);
        }
        Json::Object(t)
    }
}

/// A copy of an optional text.
fn owned(text: Option<&str>) -> (out: Option<String>)
    ensures
        match text {
            Some(t) => out matches Some(o) && o@ == t@,
            None => out is None,
        },
{
    match text {
        Some(t) => Some(t.to_owned()),
        None => None,
    }
}

/// The record of a request sent at `ts`, milliseconds since the Unix epoch.
/// `ctx` is the trace id, the run id, the agent id and the agent name.
pub fn dump_request_record(
    ts: u64,
    ctx: &(String, String, String, String),
    method: &str,
    url: &str,
    headers: &[(String, String)],
    body: Option<&str>,
) -> (out: DumpRecord)
    ensures
        out.kind@ == "http_request"@,
        out.describes(ts, *ctx, method@, url@, headers@),
        out.status is None,
        out.body is Some <==> body is Some,
        body is Some ==> out.body->0@ == body->0@,
        out.body_skipped is None,
{
    DumpRecord {
        ts,
        kind: "http_request",
        trace_id: ctx.0.clone(),
        run_id: ctx.1.clone(),
        agent_id: ctx.2.clone(),
        agent_name: ctx.3.clone(),
        method: method.to_owned(),
        url: url.to_owned(),
        status: None,
        headers: redact_headers(headers),
        body: owned(body),
        body_skipped: None,
    }
}

/// The record of a response.  A streamed body is not recorded: the record says
/// why in its place.
pub fn dump_response_record(
    ts: u64,
    ctx: &(String, String, String, String),
    method: &str,
    url: &str,
    status: u16,
    headers: &[(String, String)],
    body: Option<&str>,
    body_skipped: Option<&str>,
) -> (out: DumpRecord)
    ensures
        out.kind@ == "http_response"@,
        out.describes(ts, *ctx, method@, url@, headers@),
        out.status == Some(status),
        out.body is Some <==> body is Some,
        body is Some ==> out.body->0@ == body->0@,
        out.body_skipped is Some <==> body_skipped is Some,
        body_skipped is Some ==> out.body_skipped->0@ == body_skipped->0@,
{
    DumpRecord {
        ts,
        kind: "http_response",
        trace_id: ctx.0.clone(),
        run_id: ctx.1.clone(),
        agent_id: ctx.2.clone(),
        agent_name: ctx.3.clone(),
        method: method.to_owned(),
        url: url.to_owned(),
        status: Some(status),
        headers: redact_headers(headers),
        body: owned(body),
        body_skipped: owned(body_skipped),
    }
}

/// The record of a response as the bridge writes it: with the body that was
/// handed to the script, or, for a stream, with the word `sse_stream` in its
/// place.
pub fn record_response(
    ts: u64,
    ctx: &(String, String, String, String),
    method: &str,
    url: &str,
    status: u16,
    headers: &[(String, String)],
    body: Option<&str>,
) -> (out: DumpRecord)
    ensures
        out.kind@ == "http_response"@,
        out.describes(ts, *ctx, method@, url@, headers@),
        out.status == Some(status),
        match body {
            Some(b) => out.body is Some && out.body->0@ == b@ && out.body_skipped is None,
            None => out.body is None && out.body_skipped is Some && out.body_skipped->0@
                == "sse_stream"@,
        },
{
    match body {
        Some(_) => dump_response_record(ts, ctx, method, url, status, headers, body, None),
        None => dump_response_record(
            ts,
            ctx,
            method,
            url,
            status,
            headers,
            None,
            Some("sse_stream"),
        ),
    }
}

/// Whether a character may stand in the sink's file name.
pub open spec fn is_safe_char(c: char) -> bool {
    ||| 'a' <= c <= 'z'
    ||| 'A' <= c <= 'Z'
    ||| '0' <= c <= '9'
    ||| c == '.' || c == '_' || c == '-'
}

/// A character as it may stand in the sink's file name.
pub open spec fn safe_char(c: char) -> char {
    if is_safe_char(c) {
        c
    } else {
        '_'
    }
}

/// An identifier as it may stand in the sink's file name.
pub open spec fn sanitized(raw: Seq<char>) -> Seq<char> {
    raw.map_values(|c: char| safe_char(c))
}

/// A sanitized identifier holds no path separator, is as long as what it was
/// made from, and sanitizing it again changes nothing.
pub proof fn law_a_sanitized_id_is_one_path_component(raw: Seq<char>)
    ensures
        sanitized(raw).len() == raw.len(),
        !sanitized(raw).contains('/'),
        sanitized(sanitized(raw)) == sanitized(raw),
        forall|i: int|
            0 <= i < raw.len() && is_safe_char(raw[i]) ==> #[trigger] sanitized(raw)[i] == raw[i],
{
    assert(sanitized(sanitized(raw)) =~= sanitized(raw));
    if sanitized(raw).contains('/') {
        let i = choose|i: int| 0 <= i < sanitized(raw).len() && sanitized(raw)[i] == '/';
        assert(sanitized(raw)[i] == safe_char(raw[i]));
    }
}

/// Keep the sink file name a single, safe path component.
pub fn sanitize_id(raw: &str) -> (out: String)
    ensures
        out@ == sanitized(raw@),
{
    let chars = chars_of(raw);
    let mut out = String::new();
    let mut i: usize = 0;
    assert(out@ =~= sanitized(chars@.take(0)));
    while i < chars.len()
        invariant
            0 <= i <= chars@.len(),
            out@ == sanitized(chars@.take(i as int)),
        decreases chars@.len() - i,
    {
        let c = chars[i];
        let safe = ('a' <= c && c <= 'z') || ('A' <= c && c <= 'Z') || ('0' <= c && c <= '9') || c
            == '.' || c == '_' || c == '-';
        out.push(
            if safe {
                c
            } else {
                '_'
            },
        );
        assert(sanitized(chars@.take(i + 1)) =~= sanitized(chars@.take(i as int)).push(
            safe_char(c),
        ));
        i += 1;
    }
    assert(chars@.take(chars@.len() as int) =~= chars@);
    out
}

/// The directory the sink writes to: none when the setting is absent or empty.
pub fn dump_dir(setting: Option<&str>) -> (out: Option<String>)
    ensures
        out is Some <==> present(setting),
        out matches Some(d) ==> d@ == setting->0@,
{
    match setting {
        Some(d) => if d.is_empty() {
            None
        } else {
            Some(d.to_owned())
        },
        None => None,
    }
}

/// Whether an optional text is there and not empty.
pub open spec fn present(o: Option<&str>) -> bool {
    o matches Some(s) && s@.len() > 0
}

/// The correlation id of a dump: the run id, else the trace id, else the id of
/// the process.
pub fn correlation_id(
    run_id: Option<&str>,
    trace_id: Option<&str>,
    process_agent_id: &str,
) -> (out: String)
    ensures
        out@ == if present(run_id) {
            run_id->0@
        } else if present(trace_id) {
            trace_id->0@
        } else {
            process_agent_id@
        },
{
    if let Some(r) = run_id {
        if !r.is_empty() {
            return r.to_owned();
        }
    }
    if let Some(t) = trace_id {
        if !t.is_empty() {
            return t.to_owned();
        }
    }
    process_agent_id.to_owned()
}

/// The name of the sink's file: `<UTC>-<id>-p<pid>.jsonl`.  The process id
/// keeps two processes that start in the same second apart.
pub fn dump_file_name(epoch_secs: u64, id: &str, pid: u32) -> (out: String)
    ensures
        exists|stamp: Seq<char>| #[trigger]
            is_stamp(stamp, epoch_secs as int) && out@ == stamp + "-"@ + sanitized(id@) + "-p"@
                + dec(pid as nat) + ".jsonl"@,
{
    let mut out = utc_stamp(epoch_secs);
    let ghost stamp = out@;
    out.append("-");
    out.append(sanitize_id(id).as_str());
    out.append("-p");
    out.append(decimal(pid as u64).as_str());
    out.append(".jsonl");
    assert(is_stamp(stamp, epoch_secs as int));
    out
}

/// Whether the sink still takes records.
#[derive(Clone, Copy, PartialEq, Eq, Structural)]
pub enum SinkState {
    Open,
    Disabled,
}

/// The sink after it was asked to write a record: the first failed write
/// disables it for good.
pub open spec fn sink_after(state: SinkState, written: bool) -> SinkState {
    if state == SinkState::Open && written {
        SinkState::Open
    } else {
        SinkState::Disabled
    }
}

/// A sink that is disabled stays disabled.
pub proof fn law_a_disabled_sink_stays_disabled(written: bool)
    ensures
        sink_after(SinkState::Disabled, written) == SinkState::Disabled,
{
}

impl SinkState {
    /// The line a record is appended as: the record and its newline in one
    /// piece, or nothing when the sink is disabled.
    pub fn line(&self, record: &str) -> (out: Option<String>)
        ensures
            out is Some <==> *self == SinkState::Open,
            out matches Some(l) ==> l@ == record@.push('\n'),
    {
        match self {
            SinkState::Open => {
                let mut l = record.to_owned();
                l.push('\n');
                Some(l)
            },
            SinkState::Disabled => None,
        }
    }

    /// Take note of how writing a record went.
    pub fn note(&mut self, written: bool)
        ensures
            *final(self) == sink_after(*old(self), written),
    {
        if !written {
            *self = SinkState::Disabled;
        }
    }
}

// ── laws ─────────────────────────────────────────────────────────────

/// A line of an event that does not begin with `data:` counts for nothing: the
/// event delivers the same, and ends the stream or not, with it and without it.
pub proof fn law_lines_without_data_do_not_count(lines: Seq<Seq<char>>, i: int)
    requires
        0 <= i < lines.len(),
        lines[i].len() < 5 || lines[i].take(5) != seq!['d', 'a', 't', 'a', ':'],
    ensures
        event_data(lines) == event_data(lines.remove(i)),
    decreases lines.len(),
{
    reveal_strlit("data:");
    assert("data:"@ =~= seq!['d', 'a', 't', 'a', ':']);
    let front = lines.drop_last();
    assert(!is_data_line(lines[i])) by {
        if is_data_line(lines[i]) {
            assert(lines[i].subrange(0, 5) =~= lines[i].take(5));
        }
    }
    if i == lines.len() - 1 {
        assert(lines.remove(i) =~= front);
        assert(lines.last() == lines[i]);
    } else {
        assert(front[i] == lines[i]);
        law_lines_without_data_do_not_count(front, i);
        let fewer = lines.remove(i);
        assert(fewer.last() == lines.last());
        assert(fewer.drop_last() =~= front.remove(i));
    }
}

/// A line that begins with `data:` delivers what stands behind it, without the
/// white space around it, after all that came before; `[DONE]` ends the stream
/// and is not delivered, and behind it nothing is.
pub proof fn law_a_data_line_is_delivered(
    lines: Seq<Seq<char>>,
    a: Seq<char>,
    data: Seq<char>,
    b: Seq<char>,
    line: Seq<char>,
)
    requires
        forall|i: int| 0 <= i < a.len() ==> #[trigger] a[i] == ' ' || a[i] == '\t',
        forall|i: int| 0 <= i < b.len() ==> #[trigger] b[i] == ' ' || b[i] == '\t',
        data.len() == 0 || '!' <= data[0] <= '~' && '!' <= data.last() <= '~',
    ensures
        event_data(Seq::<Seq<char>>::empty()) == (Seq::<Seq<char>>::empty(), false),
        event_data(lines).1 ==> event_data(lines.push(line)) == event_data(lines),
        line == seq!['d', 'a', 't', 'a', ':'] + a + data + b && !event_data(lines).1 ==> (if data
            == seq!['[', 'D', 'O', 'N', 'E', ']'] {
            event_data(lines.push(line)) == (event_data(lines).0, true)
        } else {
            event_data(lines.push(line)) == (event_data(lines).0.push(data), false)
        }),
{
    reveal_strlit("data:");
    reveal_strlit("[DONE]");
    let word = seq!['d', 'a', 't', 'a', ':'];
    assert("data:"@ =~= word);
    assert("[DONE]"@ =~= seq!['[', 'D', 'O', 'N', 'E', ']']);
    let more = lines.push(line);
    assert(more.drop_last() =~= lines);
    assert(more.last() == line);
    if line == word + a + data + b {
        assert(line.subrange(0, 5) =~= word);
        assert(line.skip(5) =~= a + data + b);
        law_trim_drops_the_white_space_around(a, data, b);
    }
}

/// A stream is read event by event: what ends at the first blank line is one, and
/// where it does not end the stream the rest is read as a stream of its own.
pub proof fn law_a_stream_is_read_event_by_event(event: Seq<char>, rest: Seq<char>)
    requires
        forall|k: int|
            0 <= k < event.len() - 1 ==> !(#[trigger] event[k] == '\n' && event[k + 1] == '\n'),
        event.len() == 0 || event.last() != '\n',
    ensures
        event_data(text_lines(event)).1 ==> sse(event + seq!['\n', '\n'] + rest) == (SseOutcome {
            data: event_data(text_lines(event)).0,
            rest,
            done: true,
        }),
        !event_data(text_lines(event)).1 ==> sse(event + seq!['\n', '\n'] + rest) == (SseOutcome {
            data: event_data(text_lines(event)).0 + sse(rest).data,
            rest: sse(rest).rest,
            done: sse(rest).done,
        }),
        sse(event) == (SseOutcome {
            data: Seq::<Seq<char>>::empty(),
            rest: event,
            done: false,
        }),
{
    let end = seq!['\n', '\n'];
    let text = event + end + rest;
    let n = event.len() as int;
    lemma_find_from(text, end, 0);
    assert(text.subrange(n, n + 2) =~= end);
    assert(occurs_at(text, end, n));
    let got = find(text, end)->0;
    if got < n {
        assert(text.subrange(got, got + 2)[0] == text[got]);
        assert(text.subrange(got, got + 2)[1] == text[got + 1]);
        assert(event[got] == '\n');
        if got + 1 < n {
            assert(event[got + 1] == '\n');
        }
    }
    assert(got == n);
    assert(text.take(n) =~= event);
    assert(text.skip(n + 2) =~= rest);
    lemma_find_from(event, end, 0);
    if let Some(p) = find(event, end) {
        assert(event.subrange(p, p + 2)[0] == event[p]);
        assert(event.subrange(p, p + 2)[1] == event[p + 1]);
    }
}

/// A message of a stream is delivered as it was sent, whatever other fields its
/// event has before and behind it, and the sentinel ends the stream.
pub proof fn law_a_message_is_delivered(
    before: Seq<char>,
    data: Seq<char>,
    behind: Seq<char>,
    rest: Seq<char>,
)
    requires
        !before.contains('\n') && !before.contains('\r') && before.len() > 0,
        before.len() < 5 || before.take(5) != seq!['d', 'a', 't', 'a', ':'],
        !behind.contains('\n') && !behind.contains('\r') && behind.len() > 0,
        behind.len() < 5 || behind.take(5) != seq!['d', 'a', 't', 'a', ':'],
        data.len() > 0 && '!' <= data[0] <= '~' && '!' <= data.last() <= '~',
        !data.contains('\n') && !data.contains('\r'),
    ensures
        data != seq!['[', 'D', 'O', 'N', 'E', ']'] ==> sse(
            before + seq!['\n'] + (seq!['d', 'a', 't', 'a', ':', ' '] + data) + seq!['\n'] + behind
                + seq!['\n', '\n'] + rest,
        ) == (SseOutcome {
            data: seq![data] + sse(rest).data,
            rest: sse(rest).rest,
            done: sse(rest).done,
        }),
        data == seq!['[', 'D', 'O', 'N', 'E', ']'] ==> sse(
            before + seq!['\n'] + (seq!['d', 'a', 't', 'a', ':', ' '] + data) + seq!['\n'] + behind
                + seq!['\n', '\n'] + rest,
        ) == (SseOutcome { data: Seq::<Seq<char>>::empty(), rest, done: true }),
{
    let none = Seq::<Seq<char>>::empty();
    let line = seq!['d', 'a', 't', 'a', ':', ' '] + data;
    let event = before + seq!['\n'] + line + seq!['\n'] + behind;
    assert forall|k: int| 0 <= k < line.len() implies line[k] != '\n' by {
        if k >= 6 {
            assert(data.contains(data[k - 6]));
            assert(line[k] == data[k - 6]);
        }
    }
    assert(line.last() == data.last());
    assert forall|k: int| 0 <= k < event.len() - 1 implies !(#[trigger] event[k] == '\n' && event[k
        + 1] == '\n') by {
        let p = before.len() as int;
        let q = p + 1 + line.len();
        if k < p {
            assert(event[k] == before[k]);
            assert(before.contains(before[k]));
        } else if k == p {
            assert(event[k + 1] == line[0]);
        } else if k < q {
            assert(event[k] == line[k - p - 1]);
        } else if k == q {
            assert(event[k + 1] == behind[0]);
            assert(behind.contains(behind[0]));
        } else {
            assert(event[k] == behind[k - q - 1]);
            assert(behind.contains(behind[k - q - 1]));
        }
    }
    assert(behind.contains(behind.last())) by {
        assert(behind[behind.len() - 1] == behind.last());
    }
    assert(before.contains(before.last())) by {
        assert(before[before.len() - 1] == before.last());
    }
    assert(event.last() == behind.last());
    assert(line.len() > 0 && line.last() != '\r') by {
        assert('!' <= line.last());
    }
    law_a_stream_is_read_event_by_event(event, rest);
    // The lines of the event.
    law_a_line_is_read_off(behind, Seq::<char>::empty());
    law_a_line_is_read_off(line, behind);
    law_a_line_is_read_off(before, line + seq!['\n'] + behind);
    assert(event =~= before + seq!['\n'] + (line + seq!['\n'] + behind));
    let lines = seq![before, line, behind];
    assert(text_lines(event) =~= lines);
    // What they deliver.
    law_lines_without_data_do_not_count(lines, 2);
    let two = seq![before, line];
    assert(lines.remove(2) =~= two);
    law_lines_without_data_do_not_count(two, 0);
    assert(two.remove(0) =~= none.push(line));
    assert(line =~= seq!['d', 'a', 't', 'a', ':'] + seq![' '] + data + Seq::<char>::empty());
    law_a_data_line_is_delivered(none, seq![' '], data, Seq::<char>::empty(), line);
    assert(none.push(data) =~= seq![data]);
    assert(event + seq!['\n', '\n'] + rest =~= before + seq!['\n'] + line + seq!['\n'] + behind
        + seq!['\n', '\n'] + rest);
}

/// The value of an API key, of an authorization or of a cookie never reaches the
/// sink, in whatever letter case its header is written; every other value does.
pub proof fn law_the_sink_sees_no_secret(pairs: Seq<(String, String)>, i: int)
    requires
        0 <= i < pairs.len(),
        forall|j: int| i < j < pairs.len() ==> (#[trigger] pairs[j]).0@ != pairs[i].0@,
    ensures
        shown_headers(pairs).dom().contains(pairs[i].0@),
        lower(pairs[i].0@) == "x-api-key"@ || lower(pairs[i].0@) == "authorization"@ || lower(
            pairs[i].0@,
        ) == "set-cookie"@ || lower(pairs[i].0@) == "cookie"@ || lower(pairs[i].0@)
            == "proxy-authorization"@ ==> shown_headers(pairs)[pairs[i].0@] == "***REDACTED***"@,
        !(lower(pairs[i].0@) == "x-api-key"@ || lower(pairs[i].0@) == "authorization"@ || lower(
            pairs[i].0@,
        ) == "set-cookie"@ || lower(pairs[i].0@) == "cookie"@ || lower(pairs[i].0@)
            == "proxy-authorization"@) ==> shown_headers(pairs)[pairs[i].0@] == pairs[i].1@,
{
    law_secrets_never_reach_the_sink(pairs);
    if !is_sensitive(lower(pairs[i].0@)) {
        law_other_values_stay(pairs, i);
    }
}

/// Whether a header goes out with a value.
pub open spec fn goes_out(
    headers: Seq<(Seq<char>, Seq<char>)>,
    name: Seq<char>,
    value: Seq<char>,
) -> bool {
    exists|j: int| 0 <= j < headers.len() && #[trigger] headers[j] == (name, value)
}

proof fn lemma_goes_out(
    a: Seq<(Seq<char>, Seq<char>)>,
    b: Seq<(Seq<char>, Seq<char>)>,
    name: Seq<char>,
    value: Seq<char>,
)
    ensures
        goes_out(a + b, name, value) == (goes_out(a, name, value) || goes_out(b, name, value)),
{
    if goes_out(a, name, value) {
        let j = choose|j: int| 0 <= j < a.len() && #[trigger] a[j] == (name, value);
        assert((a + b)[j] == (name, value));
    }
    if goes_out(b, name, value) {
        let j = choose|j: int| 0 <= j < b.len() && #[trigger] b[j] == (name, value);
        assert((a + b)[a.len() + j] == (name, value));
    }
    if goes_out(a + b, name, value) {
        let j = choose|j: int| 0 <= j < (a + b).len() && #[trigger] (a + b)[j] == (name, value);
        if j < a.len() {
            assert(a[j] == (name, value));
        } else {
            assert(b[j - a.len()] == (name, value));
        }
    }
}

/// What a request is traced by goes along: each of the four identifiers the run
/// has, under its own header, unless the script wrote that header itself.
pub proof fn law_the_trace_goes_along(
    explicit: Seq<(String, String)>,
    trace: TraceContext,
    fallback: Option<Seq<char>>,
)
    ensures
        trace.trace_id matches Some(v) ==> v@.len() > 0 && (forall|i: int|
            0 <= i < explicit.len() ==> lower((#[trigger] explicit[i]).0@) != "x-trace-id"@)
            ==> goes_out(outbound_headers(explicit, trace, fallback), "x-trace-id"@, v@),
        trace.run_id matches Some(v) ==> v@.len() > 0 && (forall|i: int|
            0 <= i < explicit.len() ==> lower((#[trigger] explicit[i]).0@) != "x-run-id"@)
            ==> goes_out(outbound_headers(explicit, trace, fallback), "x-run-id"@, v@),
        trace.agent_id matches Some(v) ==> v@.len() > 0 && (forall|i: int|
            0 <= i < explicit.len() ==> lower((#[trigger] explicit[i]).0@) != "x-agent-id"@)
            ==> goes_out(outbound_headers(explicit, trace, fallback), "x-agent-id"@, v@),
        trace.agent_id is None ==> (fallback matches Some(v) ==> v.len() > 0 && (forall|i: int|
            0 <= i < explicit.len() ==> lower((#[trigger] explicit[i]).0@) != "x-agent-id"@)
            ==> goes_out(outbound_headers(explicit, trace, fallback), "x-agent-id"@, v)),
        trace.agent_name matches Some(v) ==> v@.len() > 0 && (forall|i: int|
            0 <= i < explicit.len() ==> lower((#[trigger] explicit[i]).0@) != "x-agent-name"@)
            ==> goes_out(outbound_headers(explicit, trace, fallback), "x-agent-name"@, v@),
        forall|i: int|
            0 <= i < explicit.len() ==> goes_out(
                outbound_headers(explicit, trace, fallback),
                (#[trigger] explicit[i]).0@,
                explicit[i].1@,
            ),
{
    let p = pair_views(explicit);
    let a = trace_header(explicit, "x-trace-id"@, text_of(trace.trace_id));
    let b = trace_header(explicit, "x-run-id"@, text_of(trace.run_id));
    let c = trace_header(explicit, "x-agent-id"@, effective_agent_id(trace, fallback));
    let d = trace_header(explicit, "x-agent-name"@, text_of(trace.agent_name));
    assert forall|name: Seq<char>, value: Seq<char>| #[trigger]
        goes_out(p + a + b + c + d, name, value) == (goes_out(p, name, value) || goes_out(
            a,
            name,
            value,
        ) || goes_out(b, name, value) || goes_out(c, name, value) || goes_out(d, name, value)) by {
        lemma_goes_out(p + a + b + c, d, name, value);
        lemma_goes_out(p + a + b, c, name, value);
        lemma_goes_out(p + a, b, name, value);
        lemma_goes_out(p, a, name, value);
    }
    if let Some(v) = trace.trace_id {
        if a.len() > 0 {
            assert(a[0] == ("x-trace-id"@, v@));
        }
    }
    if let Some(v) = trace.run_id {
        if b.len() > 0 {
            assert(b[0] == ("x-run-id"@, v@));
        }
    }
    if let Some(v) = effective_agent_id(trace, fallback) {
        if c.len() > 0 {
            assert(c[0] == ("x-agent-id"@, v));
        }
    }
    if let Some(v) = trace.agent_name {
        if d.len() > 0 {
            assert(d[0] == ("x-agent-name"@, v@));
        }
    }
    assert forall|i: int| 0 <= i < explicit.len() implies goes_out(
        p + a + b + c + d,
        (#[trigger] explicit[i]).0@,
        explicit[i].1@,
    ) by {
        assert(p[i] == (explicit[i].0@, explicit[i].1@));
    }
}

/// A request uses the method the script names, and GET where it names none.
pub proof fn law_the_script_names_the_method(opts: RequestOpts)
    ensures
        opts.method matches Some(m) ==> chosen_method(opts) == m@,
        opts.method is None ==> chosen_method(opts) == "GET"@,
{
}

/// A method is a token: letters, digits and the few marks that are allowed, and
/// at least one of them.
pub proof fn law_a_word_is_a_method(method: Seq<char>)
    ensures
        method.len() > 0 && (forall|i: int|
            0 <= i < method.len() ==> 'A' <= #[trigger] method[i] <= 'Z') ==> is_token(method),
        method.len() == 0 ==> !is_token(method),
        method.contains(' ') || method.contains('/') || method.contains('\n') || method.contains(':')
            ==> !is_token(method),
{
    if method.len() > 0 && (forall|i: int|
        0 <= i < method.len() ==> 'A' <= #[trigger] method[i] <= 'Z') {
        assert forall|i: int| 0 <= i < method.len() implies is_token_char(#[trigger] method[i]) by {}
    }
    if is_token(method) {
        assert forall|i: int| 0 <= i < method.len() implies #[trigger] method[i] != ' ' && method[i]
            != '/' && method[i] != '\n' && method[i] != ':' by {
            assert(is_token_char(method[i]));
        }
    }
}

/// A record that is written says all that it holds: when, what kind, the four
/// identifiers, the method and the address, each header, and the status, the body
/// and the reason for its absence where there is one.
pub proof fn law_a_record_says_all_it_holds(v: Json, r: DumpRecord, name: Seq<char>)
    requires
        is_record(v, r),
    ensures
        v matches Json::Object(t) && {
            &&& t@.dom().contains("ts"@) && t@["ts"@] == Json::Number(Number::Unsigned(r.ts))
            &&& t@.dom().contains("kind"@) && (t@["kind"@] matches Json::Text(x) && x@ == r.kind@)
            &&& t@.dom().contains("trace_id"@) && (t@["trace_id"@] matches Json::Text(x) && x@
                == r.trace_id@)
            &&& t@.dom().contains("run_id"@) && (t@["run_id"@] matches Json::Text(x) && x@
                == r.run_id@)
            &&& t@.dom().contains("agent_id"@) && (t@["agent_id"@] matches Json::Text(x) && x@
                == r.agent_id@)
            &&& t@.dom().contains("agent_name"@) && (t@["agent_name"@] matches Json::Text(x) && x@
                == r.agent_name@)
            &&& t@.dom().contains("method"@) && (t@["method"@] matches Json::Text(x) && x@
                == r.method@)
            &&& t@.dom().contains("url"@) && (t@["url"@] matches Json::Text(x) && x@ == r.url@)
            &&& t@.dom().contains("headers"@) && (t@["headers"@] matches Json::Object(h)
                && h@.dom().contains(name) == r.headers@.dom().contains(name) && (
            r.headers@.dom().contains(name) ==> (h@[name] matches Json::Text(x) && x@
                == r.headers@[name]@)))
            &&& match r.status {
                Some(n) => t@.dom().contains("status"@) && t@["status"@] == Json::Number(
                    Number::Unsigned(n as u64),
                ),
                None => !t@.dom().contains("status"@),
            }
            &&& match r.body {
                Some(b) => t@.dom().contains("body"@) && (t@["body"@] matches Json::Text(x) && x@
                    == b@),
                None => !t@.dom().contains("body"@),
            }
            &&& match r.body_skipped {
                Some(b) => t@.dom().contains("body_skipped"@) && (
                t@["body_skipped"@] matches Json::Text(x) && x@ == b@),
                None => !t@.dom().contains("body_skipped"@),
            }
        },
{
    let h = v.field("headers"@);
    if r.headers@.dom().contains(name) {
        assert(h.has(name));
    }
}

/// A record describes the exchange it is of: its time, its identifiers, its
/// method and its address are those it was made from.
pub proof fn law_a_record_describes_its_exchange(
    r: DumpRecord,
    ts: u64,
    ctx: (String, String, String, String),
    method: Seq<char>,
    url: Seq<char>,
    headers: Seq<(String, String)>,
    i: int,
)
    requires
        r.describes(ts, ctx, method, url, headers),
        0 <= i < headers.len(),
    ensures
        r.ts == ts,
        r.trace_id@ == ctx.0@ && r.run_id@ == ctx.1@ && r.agent_id@ == ctx.2@ && r.agent_name@
            == ctx.3@,
        r.method@ == method && r.url@ == url,
        r.headers@.dom().contains(headers[i].0@),
        r.headers@[headers[i].0@]@ == shown_headers(headers)[headers[i].0@],
{
    law_secrets_never_reach_the_sink(headers);
    assert(shown_headers(headers).dom().contains(headers[i].0@));
    assert(text_map(r.headers@).dom().contains(headers[i].0@));
}

/// The sink takes records until one cannot be written, and none after that.
pub proof fn law_a_failed_write_disables_the_sink(state: SinkState)
    ensures
        sink_after(SinkState::Open, true) == SinkState::Open,
        sink_after(state, false) == SinkState::Disabled,
{
}

/// Letters, digits, dots, dashes and underscores stay in a file name, and each
/// other character becomes one underscore.
pub proof fn law_a_file_name_keeps_what_is_safe(raw: Seq<char>, i: int)
    requires
        0 <= i < raw.len(),
    ensures
        sanitized(raw)[i] == if 'a' <= raw[i] <= 'z' || 'A' <= raw[i] <= 'Z' || '0' <= raw[i] <= '9'
            || raw[i] == '.' || raw[i] == '_' || raw[i] == '-' {
            raw[i]
        } else {
            '_'
        },
{
}

} // verus!
