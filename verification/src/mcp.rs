//! The Model Context Protocol client's own rules: its settings, the method
//! of each request and how requests are numbered, the headers an HTTP
//! connection sends, and how a transport answers a request it cannot
//! carry or a reply that reports an error.

use vstd::prelude::*;
use crate::text::concat2;
use crate::text::str_eq;
use crate::auth::json_from_bytes;
use crate::auth::json_member_str;
use crate::auth::json_reading;
use crate::auth::json_string_member;
use crate::layout::split_words;
use crate::layout::words;
use crate::scanner::trim;
use crate::scanner::trim_chars;
use crate::text::chars_of;
use crate::text::string_from_chars;
use vstd::utf8::encode_utf8;

verus! {

/// Settings that an MCP client announces to a server.
pub struct McpClientConfig {
    pub client_name: String,
    pub client_version: String,
    pub protocol_version: String,
    pub timeout_ms: u64,
}

impl McpClientConfig {
    /// The settings used when none are given.
    pub fn default() -> (c: McpClientConfig)
        ensures
            c.client_name@ == "OpenZax"@,
            c.client_version@ == crate::VERSION@,
            c.protocol_version@ == "2024-11-05"@,
            c.timeout_ms == 30000,
    {
        McpClientConfig {
            client_name: String::from_str("OpenZax"),
            client_version: String::from_str(crate::VERSION),
            protocol_version: String::from_str("2024-11-05"),
            timeout_ms: 30000,
        }
    }
}


/// Why a request to an MCP server failed. Failures of the outside services
/// (serialization, I/O, HTTP) are carried as messages.
#[derive(Debug)]
pub enum McpError {
    Transport(String),
    Protocol(String),
    JsonRpc { code: i32, message: String },
    Serialization(String),
    Io(String),
    Http(String),
    ConnectionClosed,
    Timeout(String),
    Other(String),
}

/// The requests the client makes.
#[derive(Clone, Copy, Debug, PartialEq, Eq, Structural)]
pub enum McpOperation {
    Initialize,
    ListTools,
    CallTool,
    ListResources,
    ReadResource,
    ListPrompts,
    GetPrompt,
}

/// The JSON-RPC method of a request.
pub open spec fn method_of(op: McpOperation) -> Seq<char> {
    match op {
        McpOperation::Initialize => "initialize"@,
        McpOperation::ListTools => "tools/list"@,
        McpOperation::CallTool => "tools/call"@,
        McpOperation::ListResources => "resources/list"@,
        McpOperation::ReadResource => "resources/read"@,
        McpOperation::ListPrompts => "prompts/list"@,
        McpOperation::GetPrompt => "prompts/get"@,
    }
}

/// Names the JSON-RPC method of a request.
pub fn method_name(op: McpOperation) -> (s: &'static str)
    ensures
        s@ == method_of(op),
{
    match op {
        McpOperation::Initialize => "initialize",
        McpOperation::ListTools => "tools/list",
        McpOperation::CallTool => "tools/call",
        McpOperation::ListResources => "resources/list",
        McpOperation::ReadResource => "resources/read",
        McpOperation::ListPrompts => "prompts/list",
        McpOperation::GetPrompt => "prompts/get",
    }
}

/// The error of a reply that carries no result: a protocol error, worded
/// differently for the first request.
pub fn missing_result(op: McpOperation) -> (e: McpError)
    ensures
        e matches McpError::Protocol(m) && m@ == if op == McpOperation::Initialize {
            "No result in response"@
        } else {
            "No result"@
        },
{
    if op == McpOperation::Initialize {
        McpError::Protocol(String::from_str("No result in response"))
    } else {
        McpError::Protocol(String::from_str("No result"))
    }
}

/// Numbers the requests of a client, from 1 on.
pub struct RequestCounter {
    next: u64,
}

impl RequestCounter {
    /// The number the next request gets.
    pub closed spec fn upcoming(&self) -> u64 {
        self.next
    }

    /// A counter for a new client: the first request is number 1.
    pub fn new() -> (c: RequestCounter)
        ensures
            c.upcoming() == 1,
    {
        RequestCounter { next: 1 }
    }

    /// Hands out the next number; the count wraps around after the largest
    /// 64-bit number, as an atomic `fetch_add` does.
    pub fn next_id(&mut self) -> (id: u64)
        ensures
            id == old(self).upcoming(),
            final(self).upcoming() == if old(self).upcoming() == u64::MAX {
                0
            } else {
                (old(self).upcoming() + 1) as u64
            },
    {
        let id = self.next;
        self.next = id.wrapping_add(1);
        id
    }
}

/// The value of the first header of a name.
pub open spec fn header_value(hs: Seq<(Seq<char>, Seq<char>)>, name: Seq<char>) -> Option<Seq<char>>
    decreases hs.len(),
{
    if hs.len() == 0 {
        None
    } else if hs[0].0 == name {
        Some(hs[0].1)
    } else {
        header_value(hs.drop_first(), name)
    }
}

/// The headers an HTTP connection adds to each request, each name once.
pub struct HeaderSet {
    entries: Vec<(String, String)>,
}

impl View for HeaderSet {
    type V = Seq<(Seq<char>, Seq<char>)>;

    closed spec fn view(&self) -> Seq<(Seq<char>, Seq<char>)> {
        self.entries@.map_values(|e: (String, String)| (e.0@, e.1@))
    }
}

/// No header name occurs twice.
pub open spec fn names_distinct(hs: Seq<(Seq<char>, Seq<char>)>) -> bool {
    forall|i: int, j: int| 0 <= i < j < hs.len() ==> hs[i].0 != hs[j].0
}

proof fn header_value_at(hs: Seq<(Seq<char>, Seq<char>)>, i: int)
    requires
        names_distinct(hs),
        0 <= i < hs.len(),
    ensures
        header_value(hs, hs[i].0) == Some(hs[i].1),
    decreases hs.len(),
{
    if i > 0 {
        assert(hs[0].0 != hs[i].0);
        assert(hs.drop_first()[i - 1] == hs[i]);
        header_value_at(hs.drop_first(), i - 1);
    }
}

proof fn header_value_absent(hs: Seq<(Seq<char>, Seq<char>)>, name: Seq<char>)
    requires
        forall|i: int| 0 <= i < hs.len() ==> hs[i].0 != name,
    ensures
        header_value(hs, name).is_none(),
    decreases hs.len(),
{
    if hs.len() > 0 {
        assert(hs[0].0 != name);
        assert forall|i: int| 0 <= i < hs.drop_first().len() implies hs.drop_first()[i].0 != name by {
            assert(hs.drop_first()[i] == hs[i + 1]);
        }
        header_value_absent(hs.drop_first(), name);
    }
}

proof fn header_value_found(hs: Seq<(Seq<char>, Seq<char>)>, name: Seq<char>)
    requires
        header_value(hs, name).is_some(),
    ensures
        exists|i: int| 0 <= i < hs.len() && hs[i].0 == name,
    decreases hs.len(),
{
    if hs[0].0 != name {
        header_value_found(hs.drop_first(), name);
        let i = choose|i: int| 0 <= i < hs.drop_first().len() && hs.drop_first()[i].0 == name;
        assert(hs[i + 1].0 == name);
    }
}

impl HeaderSet {
    /// Each header name occurs once.
    pub closed spec fn wf(&self) -> bool {
        names_distinct(self@)
    }

    /// No headers.
    pub fn new() -> (h: HeaderSet)
        ensures
            h.wf(),
            h@.len() == 0,
    {
        let h = HeaderSet { entries: Vec::new() };
        assert(h@ =~= Seq::<(Seq<char>, Seq<char>)>::empty());
        h
    }

    /// Sets a header: the value replaces the one the name had, if any.
    pub fn with_header(self, key: &str, value: &str) -> (h: HeaderSet)
        requires
            self.wf(),
        ensures
            h.wf(),
            forall|n: Seq<char>| #[trigger] header_value(h@, n) == if n == key@ {
                Some(value@)
            } else {
                header_value(self@, n)
            },
    {
        let ghost before = self@;
        let mut entries = self.entries;
        let mut i: usize = 0;
        let mut found = false;
        while i < entries.len() && !found
            invariant
                i <= entries@.len(),
                entries@.map_values(|e: (String, String)| (e.0@, e.1@)) == before,
                names_distinct(before),
                forall|j: int| 0 <= j < i ==> before[j].0 != key@,
                found ==> i < entries@.len() && before[i as int].0 == key@,
            decreases entries@.len() - i + (if found { 0int } else { 1int }),
        {
            assert(before[i as int] == (entries@[i as int].0@, entries@[i as int].1@));
            if str_eq(entries[i].0.as_str(), key) {
                found = true;
            } else {
                i = i + 1;
            }
        }
        if found {
            assert(before[i as int] == (entries@[i as int].0@, entries@[i as int].1@));
            let name = entries[i].0.clone();
            entries.set(i, (name, String::from_str(value)));
            let h = HeaderSet { entries };
            assert(h@ =~= before.update(i as int, (key@, value@)));
            assert(names_distinct(h@)) by {
                assert forall|a: int, b: int| 0 <= a < b < h@.len() implies h@[a].0 != h@[b].0 by {
                    assert(h@[a].0 == before[a].0 && h@[b].0 == before[b].0);
                }
            }
            proof {
                assert forall|n: Seq<char>| #[trigger] header_value(h@, n) == if n == key@ {
                    Some(value@)
                } else {
                    header_value(before, n)
                } by {
                    if n == key@ {
                        header_value_at(h@, i as int);
                    } else if header_value(before, n).is_some() {
                        header_value_found(before, n);
                        let j = choose|j: int| 0 <= j < before.len() && before[j].0 == n;
                        header_value_at(before, j);
                        header_value_at(h@, j);
                    } else {
                        assert forall|j: int| 0 <= j < h@.len() implies h@[j].0 != n by {
                            if j != i && h@[j].0 == n {
                                header_value_at(before, j);
                            }
                        }
                        header_value_absent(h@, n);
                    }
                }
            }
            return h;
        }
        entries.push((String::from_str(key), String::from_str(value)));
        let h = HeaderSet { entries };
        assert(h@ =~= before.push((key@, value@)));
        assert(names_distinct(h@)) by {
            assert forall|a: int, b: int| 0 <= a < b < h@.len() implies h@[a].0 != h@[b].0 by {
                if b == before.len() {
                    assert(before[a].0 != key@);
                } else {
                    assert(h@[a].0 == before[a].0 && h@[b].0 == before[b].0);
                }
            }
        }
        proof {
            assert forall|n: Seq<char>| #[trigger] header_value(h@, n) == if n == key@ {
                Some(value@)
            } else {
                header_value(before, n)
            } by {
                if n == key@ {
                    header_value_at(h@, before.len() as int);
                } else if header_value(before, n).is_some() {
                    header_value_found(before, n);
                    let j = choose|j: int| 0 <= j < before.len() && before[j].0 == n;
                    header_value_at(before, j);
                    header_value_at(h@, j);
                } else {
                    assert forall|j: int| 0 <= j < h@.len() implies h@[j].0 != n by {
                        if j < before.len() && h@[j].0 == n {
                            header_value_at(before, j);
                        }
                    }
                    header_value_absent(h@, n);
                }
            }
        }
        h
    }

    /// Sets the `Authorization` header to a bearer token.
    pub fn with_auth(self, token: &str) -> (h: HeaderSet)
        requires
            self.wf(),
        ensures
            h.wf(),
            forall|n: Seq<char>| #[trigger] header_value(h@, n) == if n == "Authorization"@ {
                Some("Bearer "@ + token@)
            } else {
                header_value(self@, n)
            },
    {
        let v = concat2("Bearer ", token);
        self.with_header("Authorization", v.as_str())
    }

    /// The headers, each with its value, in the order they were first set.
    pub fn entries(&self) -> (r: &Vec<(String, String)>)
        ensures
            r@.map_values(|e: (String, String)| (e.0@, e.1@)) == self@,
    {
        &self.entries
    }
}

/// Whether a transport can still carry requests.
pub struct TransportState {
    pub connected: bool,
}

impl TransportState {
    /// A transport just opened.
    pub fn new() -> (t: TransportState)
        ensures
            t.connected,
    {
        TransportState { connected: true }
    }

    /// Refuses a request once the transport is closed.
    pub fn check_open(&self) -> (r: Result<(), McpError>)
        ensures
            r is Ok <==> self.connected,
            r matches Err(e) ==> e is ConnectionClosed,
    {
        if self.connected {
            Ok(())
        } else {
            Err(McpError::ConnectionClosed)
        }
    }

    /// Closes the transport: later requests are refused.
    pub fn close(&mut self)
        ensures
            !final(self).connected,
    {
        self.connected = false;
    }

    /// A server process that closed its output has closed the connection:
    /// reading no bytes closes the transport and fails the request.
    pub fn after_read(&mut self, bytes_read: usize) -> (r: Result<(), McpError>)
        ensures
            r is Ok <==> bytes_read > 0,
            r matches Err(e) ==> e is ConnectionClosed,
            final(self).connected == (old(self).connected && bytes_read > 0),
    {
        if bytes_read == 0 {
            self.connected = false;
            Err(McpError::ConnectionClosed)
        } else {
            Ok(())
        }
    }
}

/// The error of an HTTP reply whose status is not a success.
pub fn http_status_error(status: &str) -> (e: McpError)
    ensures
        e matches McpError::Transport(m) && m@ == "HTTP error: "@ + status@,
{
    McpError::Transport(concat2("HTTP error: ", status))
}

/// A reply that reports an error fails the request with that error's code
/// and message.
pub fn reply_outcome(error: Option<(i32, String)>) -> (r: Result<(), McpError>)
    ensures
        match error {
            None => r is Ok,
            Some((code, message)) => r matches Err(McpError::JsonRpc { code: c, message: m }) && c == code && m@
                == message@,
        },
{
    match error {
        None => Ok(()),
        Some((code, message)) => Err(McpError::JsonRpc { code, message }),
    }
}


/// The value at `v[key]` (`Index` on a key): the member, or `null` when `v`
/// is no object or has no such member.
pub uninterp spec fn json_member_value(v: serde_json::Value, key: Seq<char>) -> serde_json::Value;

/// The number at `v[key]`, if that is a non-negative integer (`Index` on a
/// key, then `as_u64`).
pub uninterp spec fn json_u64_member(v: serde_json::Value, key: Seq<char>) -> Option<u64>;

/// Takes `v[key]` with `Index` on a key, and clones it.
#[verifier::external_body]
fn json_member(v: &serde_json::Value, key: &str) -> (r: serde_json::Value)
    ensures
        r == json_member_value(*v, key@),
{
    v[key].clone()
}

/// Reads `v[key]` with `Index` on a key, then `as_u64`.
#[verifier::external_body]
fn json_member_u64(v: &serde_json::Value, key: &str) -> (r: Option<u64>)
    ensures
        r == json_u64_member(*v, key@),
{
    v[key].as_u64()
}

/// What the mock server answers a call with.
pub enum MockResult {
    /// The protocol version, the capabilities and the server's name with
    /// version 1.0.0.
    Initialize,
    /// The two mock tools, `echo` and `time`.
    ToolsList,
    /// The mock README resource.
    ResourcesList,
    /// A text content.
    ToolText(String),
    /// An error flag with this text.
    UnknownTool(String),
    /// The README resource's text.
    Readme(String),
    /// No contents.
    NoContents,
}

/// The mock server's answer to one line: nothing, a result for the
/// request's id, or an error (with the request's id, or none when the line
/// could not be read).
#[allow(inconsistent_fields)]
pub enum MockReply {
    Skip,
    Result { id: serde_json::Value, result: MockResult },
    Error { id: Option<serde_json::Value>, code: i32, message: String },
}

/// A mock result as plain values.
pub enum MockResultView {
    Initialize,
    ToolsList,
    ResourcesList,
    ToolText(Seq<char>),
    UnknownTool(Seq<char>),
    Readme(Seq<char>),
    NoContents,
}

/// A mock answer as plain values.
#[allow(inconsistent_fields)]
pub enum MockReplyView {
    Skip,
    Result { id: serde_json::Value, result: MockResultView },
    Error { id: Option<serde_json::Value>, code: i32, message: Seq<char> },
}

impl View for MockReply {
    type V = MockReplyView;

    open spec fn view(&self) -> MockReplyView {
        match self {
            MockReply::Skip => MockReplyView::Skip,
            MockReply::Result { id, result } => MockReplyView::Result {
                id: *id,
                result: match result {
                    MockResult::Initialize => MockResultView::Initialize,
                    MockResult::ToolsList => MockResultView::ToolsList,
                    MockResult::ResourcesList => MockResultView::ResourcesList,
                    MockResult::ToolText(t) => MockResultView::ToolText(t@),
                    MockResult::UnknownTool(t) => MockResultView::UnknownTool(t@),
                    MockResult::Readme(t) => MockResultView::Readme(t@),
                    MockResult::NoContents => MockResultView::NoContents,
                },
            },
            MockReply::Error { id, code, message } => MockReplyView::Error { id: *id, code: *code, message: message@ },
        }
    }
}

/// A text, or nothing.
pub open spec fn or_empty(t: Option<Seq<char>>) -> Seq<char> {
    match t {
        Some(x) => x,
        None => seq![],
    }
}

/// The README text of the mock server.
pub open spec fn readme_text(server: Seq<char>) -> Seq<char> {
    "Mock MCP server '"@ + server + "' – OpenZax CLI"@
}

/// How the mock server answers a request it could read.
pub open spec fn mock_answer(v: serde_json::Value, server: Seq<char>, now: Seq<char>) -> MockReplyView {
    let id = json_member_value(v, "id"@);
    let method = or_empty(json_string_member(v, "method"@));
    let params = json_member_value(v, "params"@);
    if method == "initialize"@ {
        MockReplyView::Result { id, result: MockResultView::Initialize }
    } else if method == "notifications/initialized"@ {
        MockReplyView::Skip
    } else if method == "tools/list"@ {
        MockReplyView::Result { id, result: MockResultView::ToolsList }
    } else if method == "resources/list"@ {
        MockReplyView::Result { id, result: MockResultView::ResourcesList }
    } else if method == "tools/call"@ {
        let tool = or_empty(json_string_member(params, "name"@));
        if tool == "echo"@ {
            MockReplyView::Result {
                id,
                result: MockResultView::ToolText(
                    or_empty(json_string_member(json_member_value(params, "arguments"@), "message"@)),
                ),
            }
        } else if tool == "time"@ {
            MockReplyView::Result { id, result: MockResultView::ToolText(now) }
        } else {
            MockReplyView::Result { id, result: MockResultView::UnknownTool("Unknown tool: "@ + tool) }
        }
    } else if method == "resources/read"@ {
        if or_empty(json_string_member(params, "uri"@)) == "mock://readme"@ {
            MockReplyView::Result { id, result: MockResultView::Readme(readme_text(server)) }
        } else {
            MockReplyView::Result { id, result: MockResultView::NoContents }
        }
    } else {
        MockReplyView::Error { id: Some(id), code: -32601i32, message: "Method not found: "@ + method }
    }
}

/// How the mock server answers a line: a blank line is skipped; a line that
/// is not JSON gets a parse error (-32700); the `initialized` notification
/// gets nothing; the requests it knows get their results; any other method
/// gets a method error (-32601).
pub open spec fn mock_reply_spec(line: Seq<char>, server: Seq<char>, now: Seq<char>) -> MockReplyView {
    if trim(line).len() == 0 {
        MockReplyView::Skip
    } else {
        match json_reading(encode_utf8(line)) {
            Err(m) => MockReplyView::Error { id: None, code: -32700i32, message: "Parse error: "@ + m },
            Ok(v) => mock_answer(v, server, now),
        }
    }
}

fn text_or_empty(t: Option<String>) -> (r: String)
    ensures
        r@ == or_empty(
            match t {
                Some(x) => Some(x@),
                None => None,
            },
        ),
{
    match t {
        Some(x) => x,
        None => String::new(),
    }
}

/// Answers one line sent to the mock server; `now_rfc3339` is what the
/// `time` tool reports.
pub fn mock_reply(line: &str, server: &str, now_rfc3339: &str) -> (r: MockReply)
    ensures
        r@ == mock_reply_spec(line@, server@, now_rfc3339@),
{
    let cs = chars_of(line);
    let t = trim_chars(cs.as_slice());
    if t.len() == 0 {
        return MockReply::Skip;
    }
    let v = match json_from_bytes(line.as_bytes()) {
        Err(m) => {
            return MockReply::Error { id: None, code: -32700, message: concat2("Parse error: ", m.as_str()) };
        },
        Ok(v) => v,
    };
    let id = json_member(&v, "id");
    let method = text_or_empty(json_member_str(&v, "method"));
    let params = json_member(&v, "params");
    proof {
        reveal_strlit("id");
        reveal_strlit("method");
        reveal_strlit("params");
    }
    if str_eq(method.as_str(), "initialize") {
        MockReply::Result { id, result: MockResult::Initialize }
    } else if str_eq(method.as_str(), "notifications/initialized") {
        MockReply::Skip
    } else if str_eq(method.as_str(), "tools/list") {
        MockReply::Result { id, result: MockResult::ToolsList }
    } else if str_eq(method.as_str(), "resources/list") {
        MockReply::Result { id, result: MockResult::ResourcesList }
    } else if str_eq(method.as_str(), "tools/call") {
        let tool = text_or_empty(json_member_str(&params, "name"));
        if str_eq(tool.as_str(), "echo") {
            let args = json_member(&params, "arguments");
            let msg = text_or_empty(json_member_str(&args, "message"));
            MockReply::Result { id, result: MockResult::ToolText(msg) }
        } else if str_eq(tool.as_str(), "time") {
            MockReply::Result { id, result: MockResult::ToolText(String::from_str(now_rfc3339)) }
        } else {
            MockReply::Result { id, result: MockResult::UnknownTool(concat2("Unknown tool: ", tool.as_str())) }
        }
    } else if str_eq(method.as_str(), "resources/read") {
        let uri = text_or_empty(json_member_str(&params, "uri"));
        if str_eq(uri.as_str(), "mock://readme") {
            let mut text = String::from_str("Mock MCP server '");
            text.append(server);
            text.append("' – OpenZax CLI");
            MockReply::Result { id, result: MockResult::Readme(text) }
        } else {
            MockReply::Result { id, result: MockResult::NoContents }
        }
    } else {
        MockReply::Error { id: Some(id), code: -32601, message: concat2("Method not found: ", method.as_str()) }
    }
}

/// The program and arguments of a server command: its words; an empty
/// command is refused.
pub fn server_command(command: &str) -> (r: Result<(String, Vec<String>), String>)
    ensures
        match r {
            Ok((program, args)) => words(command@).len() > 0 && program@ == words(command@)[0]
                && args@.map_values(|a: String| a@) == words(command@).drop_first(),
            Err(m) => words(command@).len() == 0 && m@ == "Empty server command"@,
        },
{
    let cs = chars_of(command);
    let ws = split_words(cs.as_slice());
    let ghost wv = ws@.map_values(|w: Vec<char>| w@);
    if ws.len() == 0 {
        return Err(String::from_str("Empty server command"));
    }
    let program = string_from_chars(ws[0].as_slice());
    let mut args: Vec<String> = Vec::new();
    let mut k: usize = 1;
    while k < ws.len()
        invariant
            1 <= k <= ws@.len(),
            wv == ws@.map_values(|w: Vec<char>| w@),
            args@.map_values(|a: String| a@) == wv.subrange(1, k as int),
        decreases ws@.len() - k,
    {
        let ghost before = args@.map_values(|a: String| a@);
        args.push(string_from_chars(ws[k].as_slice()));
        assert(args@.map_values(|a: String| a@) =~= before.push(wv[k as int]));
        assert(wv.subrange(1, k + 1) =~= wv.subrange(1, k as int).push(wv[k as int]));
        k = k + 1;
    }
    assert(wv.subrange(1, wv.len() as int) =~= wv.drop_first());
    Ok((program, args))
}

/// Where an inspection of a server stands.
#[derive(Clone, Copy, Debug, PartialEq, Eq, Structural)]
pub enum InspectPhase {
    /// Nothing sent yet.
    Start,
    /// Waiting for the answer to `initialize` (id 1).
    AwaitInit,
    /// Waiting for the tool list (id 2).
    AwaitTools,
    /// Waiting for the resource list (id 3).
    AwaitResources,
    /// All answers in.
    Done,
}

/// What the inspection sends next.
#[derive(Clone, Copy, Debug, PartialEq, Eq, Structural)]
pub enum InspectRequest {
    /// `initialize`, id 1.
    Initialize,
    /// The `initialized` notification, then `tools/list`, id 2.
    InitializedThenToolsList,
    /// `resources/list`, id 3.
    ResourcesList,
}

/// A reply read from the server: its numeric id, if it has one.
#[derive(Clone, Copy, Debug, PartialEq, Eq, Structural)]
pub struct McpReply {
    pub id: Option<u64>,
}

/// The step of an inspection: it starts by sending `initialize`; the answer
/// with id 1 brings the notification and the tool list request, the answer
/// with id 2 the resource list request, the answer with id 3 the end; any
/// other reply, or none, leaves it waiting.
pub open spec fn inspect_transition(phase: InspectPhase, reply: Option<McpReply>) -> (InspectPhase, Option<
    InspectRequest,
>) {
    match phase {
        InspectPhase::Start => (InspectPhase::AwaitInit, Some(InspectRequest::Initialize)),
        InspectPhase::AwaitInit => if reply == Some(McpReply { id: Some(1u64) }) {
            (InspectPhase::AwaitTools, Some(InspectRequest::InitializedThenToolsList))
        } else {
            (phase, None)
        },
        InspectPhase::AwaitTools => if reply == Some(McpReply { id: Some(2u64) }) {
            (InspectPhase::AwaitResources, Some(InspectRequest::ResourcesList))
        } else {
            (phase, None)
        },
        InspectPhase::AwaitResources => if reply == Some(McpReply { id: Some(3u64) }) {
            (InspectPhase::Done, None)
        } else {
            (phase, None)
        },
        InspectPhase::Done => (phase, None),
    }
}

/// Moves an inspection on by a reply.
pub fn inspect_next(phase: InspectPhase, reply: Option<McpReply>) -> (r: (InspectPhase, Option<InspectRequest>))
    ensures
        r == inspect_transition(phase, reply),
{
    let id = match reply {
        Some(McpReply { id: Some(n) }) => n,
        _ => 0,
    };
    match phase {
        InspectPhase::Start => (InspectPhase::AwaitInit, Some(InspectRequest::Initialize)),
        InspectPhase::AwaitInit => if id == 1 {
            (InspectPhase::AwaitTools, Some(InspectRequest::InitializedThenToolsList))
        } else {
            (phase, None)
        },
        InspectPhase::AwaitTools => if id == 2 {
            (InspectPhase::AwaitResources, Some(InspectRequest::ResourcesList))
        } else {
            (phase, None)
        },
        InspectPhase::AwaitResources => if id == 3 {
            (InspectPhase::Done, None)
        } else {
            (phase, None)
        },
        InspectPhase::Done => (phase, None),
    }
}

/// How a line from the server is read: a blank line is no reply; a line
/// that is not JSON is an error with the parser's message; otherwise the
/// reply with the number at its `id`.
pub open spec fn reply_reading(line: Seq<char>) -> Result<Option<McpReply>, Seq<char>> {
    if trim(line).len() == 0 {
        Ok(None)
    } else {
        match json_reading(encode_utf8(line)) {
            Err(m) => Err(m),
            Ok(v) => Ok(Some(McpReply { id: json_u64_member(v, "id"@) })),
        }
    }
}

/// Reads a line from the server; the value read comes back too, for the
/// caller to show.
pub fn read_reply(line: &str) -> (r: Result<Option<(McpReply, serde_json::Value)>, String>)
    ensures
        match reply_reading(line@) {
            Ok(None) => r matches Ok(None),
            Ok(Some(m)) => r matches Ok(Some((x, v))) && x == m && json_reading(encode_utf8(line@)) == Ok::<
                serde_json::Value,
                Seq<char>,
            >(v),
            Err(e) => r matches Err(m) && m@ == e,
        },
{
    let cs = chars_of(line);
    let t = trim_chars(cs.as_slice());
    if t.len() == 0 {
        return Ok(None);
    }
    match json_from_bytes(line.as_bytes()) {
        Err(m) => Err(m),
        Ok(v) => {
            let id = json_member_u64(&v, "id");
            proof {
                reveal_strlit("id");
            }
            Ok(Some((McpReply { id }, v)))
        },
    }
}

} // verus!
