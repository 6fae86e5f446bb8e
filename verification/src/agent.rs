//! The conversational agent's own decisions: reading the model's event
//! stream, gathering streamed tool calls, routing tool calls, bounding the
//! history, previews of long texts, matching file names for the file tools,
//! the texts the tools answer with, the turns sent to the model, what the
//! agent remembers of its user, and the steps of the tool loop.

use vstd::prelude::*;
use crate::text::contains_seq;
use crate::text::has_prefix;
use crate::text::str_contains;
use crate::text::str_eq;
use crate::text::str_starts_with;
use crate::text::str_ends_with;
use crate::text::has_suffix;
use crate::text::concat2;
use crate::scanner::trim;
use crate::scanner::trim_chars;
use crate::text::u64_to_decimal;
use crate::text::i64_to_decimal;
use crate::text::decimal;
use crate::text::signed_decimal;
use crate::text::chars_of;
use crate::text::occurs_at_chars;
use crate::text::occurs_at;
use crate::text::string_from_chars;
use vstd::utf8::encode_utf8;
use vstd::utf8::is_char_boundary;

verus! {

/// A sub-agent's task (shortened for display) and whether it has finished.
#[derive(Debug)]
pub struct SubAgentStatus {
    pub task: String,
    pub done: bool,
}

/// How serious a system event is.
#[derive(Clone, Copy, Debug, PartialEq, Eq, Structural)]
pub enum EventLevel {
    Info,
    Warning,
    Error,
}

/// What a line of the model's event stream says.
#[derive(Debug)]
pub enum StreamLine {
    Skip,
    Done,
    Data(String),
}

/// The meaning of an event-stream line: lines not starting with `data: `
/// are skipped, `data: [DONE]` ends the stream, and any other data line
/// carries the text after `data: `.
pub open spec fn stream_line_meaning(line: Seq<char>) -> Option<Option<Seq<char>>> {
    if !has_prefix(line, "data: "@) {
        None
    } else if line.subrange(6, line.len() as int) == "[DONE]"@ {
        Some(None)
    } else {
        Some(Some(line.subrange(6, line.len() as int)))
    }
}

/// Reads a line of the model's event stream.
pub fn stream_line(line: &str) -> (r: StreamLine)
    ensures
        match stream_line_meaning(line@) {
            None => r is Skip,
            Some(None) => r is Done,
            Some(Some(d)) => r matches StreamLine::Data(s) && s@ == d,
        },
{
    if !str_starts_with(line, "data: ") {
        return StreamLine::Skip;
    }
    proof {
        reveal_strlit("data: ");
    }
    let n = line.unicode_len();
    let data = line.substring_char(6, n);
    if str_eq(data, "[DONE]") {
        return StreamLine::Done;
    }
    StreamLine::Data(String::from_str(data))
}


/// A tool call being streamed: its position in the answer, and the
/// identifier, function name and arguments received so far.
#[derive(Debug)]
struct PendingCall {
    index: usize,
    id: String,
    name: String,
    arguments: String,
}

/// A pending call as plain values.
pub struct PendingCallView {
    pub index: usize,
    pub id: Seq<char>,
    pub name: Seq<char>,
    pub arguments: Seq<char>,
}

impl View for PendingCall {
    type V = PendingCallView;

    closed spec fn view(&self) -> PendingCallView {
        PendingCallView { index: self.index, id: self.id@, name: self.name@, arguments: self.arguments@ }
    }
}

/// The positions strictly increase.
pub open spec fn indices_increasing(cs: Seq<PendingCallView>) -> bool {
    forall|a: int, b: int| 0 <= a < b < cs.len() ==> cs[a].index < cs[b].index
}

/// The call gathered at a position, if any.
pub open spec fn call_at(cs: Seq<PendingCallView>, index: usize) -> Option<PendingCallView> {
    if exists|k: int| 0 <= k < cs.len() && cs[k].index == index {
        Some(cs[choose|k: int| 0 <= k < cs.len() && cs[k].index == index])
    } else {
        None
    }
}

/// The call at a position after one more piece of it arrives: a new call
/// starts empty; an identifier replaces the one held; name and argument
/// pieces are appended.
pub open spec fn call_after_piece(
    before: Option<PendingCallView>,
    index: usize,
    id: Option<Seq<char>>,
    name: Option<Seq<char>>,
    arguments: Option<Seq<char>>,
) -> PendingCallView {
    let b = match before {
        Some(c) => c,
        None => PendingCallView { index, id: Seq::empty(), name: Seq::empty(), arguments: Seq::empty() },
    };
    PendingCallView {
        index,
        id: match id {
            Some(i) => i,
            None => b.id,
        },
        name: b.name + match name {
            Some(n) => n,
            None => Seq::empty(),
        },
        arguments: b.arguments + match arguments {
            Some(a) => a,
            None => Seq::empty(),
        },
    }
}

/// The optional text as plain values.
pub open spec fn opt_text(o: Option<&str>) -> Option<Seq<char>> {
    match o {
        Some(s) => Some(s@),
        None => None,
    }
}

proof fn lemma_call_at_position(cs: Seq<PendingCallView>, k: int)
    requires
        indices_increasing(cs),
        0 <= k < cs.len(),
    ensures
        call_at(cs, cs[k].index) == Some(cs[k]),
{
    assert(0 <= k < cs.len() && cs[k].index == cs[k].index);
    let j = choose|j: int| 0 <= j < cs.len() && cs[j].index == cs[k].index;
    if j < k {
    } else if j > k {
    }
}

/// The tool calls of a streamed answer, gathered piece by piece and kept in
/// order of their positions.
pub struct ToolCallBuffer {
    calls: Vec<PendingCall>,
}

impl ToolCallBuffer {
    /// The calls gathered, in order of position.
    pub closed spec fn pending(&self) -> Seq<PendingCallView> {
        self.calls@.map_values(|c: PendingCall| c@)
    }

    /// The calls are kept in strictly increasing order of position.
    pub open spec fn wf(&self) -> bool {
        indices_increasing(self.pending())
    }

    /// An empty buffer.
    pub fn new() -> (b: ToolCallBuffer)
        ensures
            b.wf(),
            b.pending().len() == 0,
    {
        ToolCallBuffer { calls: Vec::new() }
    }

    /// Takes one more piece of the call at position `index`.
    pub fn apply(&mut self, index: usize, id: Option<&str>, name: Option<&str>, arguments: Option<&str>)
        requires
            old(self).wf(),
        ensures
            final(self).wf(),
            forall|k: usize| #[trigger] call_at(final(self).pending(), k) == if k == index {
                Some(call_after_piece(call_at(old(self).pending(), index), index, opt_text(id), opt_text(name), opt_text(arguments)))
            } else {
                call_at(old(self).pending(), k)
            },
    {
        let ghost cs = self.pending();
        let mut pos: usize = 0;
        while pos < self.calls.len() && self.calls[pos].index < index
            invariant
                cs == self.pending(),
                indices_increasing(cs),
                pos <= cs.len(),
                forall|j: int| 0 <= j < pos ==> cs[j].index < index,
            decreases cs.len() - pos,
        {
            assert(cs[pos as int] == self.calls@[pos as int]@);
            pos += 1;
        }
        let found = pos < self.calls.len() && self.calls[pos].index == index;
        proof {
            if pos < cs.len() {
                assert(cs[pos as int] == self.calls@[pos as int]@);
            }
        }
        let ghost newv = call_after_piece(call_at(cs, index), index, opt_text(id), opt_text(name), opt_text(arguments));
        if found {
            proof {
                lemma_call_at_position(cs, pos as int);
            }
            let mut c = self.calls.remove(pos);
            match id {
                Some(i) => {
                    c.id = String::from_str(i);
                },
                None => {},
            }
            match name {
                Some(n) => c.name.append(n),
                None => {},
            }
            match arguments {
                Some(a) => c.arguments.append(a),
                None => {},
            }
            self.calls.insert(pos, c);
            proof {
                assert(c@ == newv);
                let ns = self.pending();
                assert(ns =~= cs.update(pos as int, newv));
                assert forall|k: usize| #[trigger] call_at(ns, k) == if k == index { Some(newv) } else { call_at(cs, k) } by {
                    lemma_call_at_position(ns, pos as int);
                    if k != index {
                        if exists|j: int| 0 <= j < cs.len() && cs[j].index == k {
                            let j = choose|j: int| 0 <= j < cs.len() && cs[j].index == k;
                            lemma_call_at_position(cs, j);
                            lemma_call_at_position(ns, j);
                        } else {
                            assert forall|j: int| 0 <= j < ns.len() implies ns[j].index != k by {
                                assert(ns[j].index == cs[j].index);
                            }
                        }
                    }
                }
            }
        } else {
            let c = PendingCall {
                index,
                id: match id {
                    Some(i) => String::from_str(i),
                    None => String::new(),
                },
                name: match name {
                    Some(n) => String::from_str(n),
                    None => String::new(),
                },
                arguments: match arguments {
                    Some(a) => String::from_str(a),
                    None => String::new(),
                },
            };
            proof {
                assert forall|j: int| 0 <= j < cs.len() implies cs[j].index != index by {
                    if j >= pos {
                        if j > pos as int {
                            assert(cs[pos as int].index < cs[j].index);
                        }
                    }
                }
                assert(call_at(cs, index) is None);
                assert(c@.name =~= newv.name);
                assert(c@.arguments =~= newv.arguments);
                assert(c@ == newv);
            }
            self.calls.insert(pos, c);
            proof {
                let ns = self.pending();
                assert(ns =~= cs.insert(pos as int, newv));
                assert forall|a: int, b: int| 0 <= a < b < ns.len() implies ns[a].index < ns[b].index by {
                    if b < pos {
                        assert(ns[a] == cs[a] && ns[b] == cs[b]);
                    } else if b == pos {
                        assert(ns[a] == cs[a]);
                    } else if a < pos {
                        assert(ns[a] == cs[a] && ns[b] == cs[b - 1]);
                        assert(cs[b - 1].index >= index);
                    } else if a == pos {
                        assert(ns[b] == cs[b - 1]);
                        assert(cs[b - 1].index >= index);
                    } else {
                        assert(ns[a] == cs[a - 1] && ns[b] == cs[b - 1]);
                    }
                }
                assert forall|k: usize| #[trigger] call_at(ns, k) == if k == index { Some(newv) } else { call_at(cs, k) } by {
                    lemma_call_at_position(ns, pos as int);
                    if k != index {
                        if exists|j: int| 0 <= j < cs.len() && cs[j].index == k {
                            let j = choose|j: int| 0 <= j < cs.len() && cs[j].index == k;
                            lemma_call_at_position(cs, j);
                            let nj = if j < pos { j } else { j + 1 };
                            assert(ns[nj] == cs[j]);
                            lemma_call_at_position(ns, nj);
                        } else {
                            assert forall|j: int| 0 <= j < ns.len() implies ns[j].index != k by {
                                if j < pos {
                                    assert(ns[j] == cs[j]);
                                } else if j > pos {
                                    assert(ns[j] == cs[j - 1]);
                                }
                            }
                        }
                    }
                }
            }
        }
    }

    /// The calls gathered, as (identifier, function name, arguments), in
    /// order of position.
    pub fn calls(&self) -> (v: Vec<(String, String, String)>)
        ensures
            v@.len() == self.pending().len(),
            forall|k: int| 0 <= k < v@.len() ==> (#[trigger] v@[k]).0@ == self.pending()[k].id
                && v@[k].1@ == self.pending()[k].name && v@[k].2@ == self.pending()[k].arguments,
    {
        let mut v: Vec<(String, String, String)> = Vec::new();
        let mut i: usize = 0;
        while i < self.calls.len()
            invariant
                i <= self.calls@.len(),
                v@.len() == i,
                forall|k: int| 0 <= k < i ==> (#[trigger] v@[k]).0@ == self.pending()[k].id
                    && v@[k].1@ == self.pending()[k].name && v@[k].2@ == self.pending()[k].arguments,
            decreases self.calls@.len() - i,
        {
            assert(self.pending()[i as int] == self.calls@[i as int]@);
            let c = &self.calls[i];
            v.push((c.id.clone(), c.name.clone(), c.arguments.clone()));
            i += 1;
        }
        v
    }
}


/// The longest history kept, in messages (fifty exchanges).
pub const MAX_HISTORY_MESSAGES: usize = 100;

/// Drops the oldest messages until at most 100 remain.
pub fn trim_history<T>(history: &mut Vec<T>)
    ensures
        old(history)@.len() <= MAX_HISTORY_MESSAGES ==> final(history)@ == old(history)@,
        old(history)@.len() > MAX_HISTORY_MESSAGES ==> final(history)@ == old(history)@.subrange(
            old(history)@.len() - MAX_HISTORY_MESSAGES,
            old(history)@.len() as int,
        ),
{
    let ghost h = history@;
    while history.len() > MAX_HISTORY_MESSAGES
        invariant
            h.len() > MAX_HISTORY_MESSAGES ==> history@.len() >= MAX_HISTORY_MESSAGES,
            h.len() <= MAX_HISTORY_MESSAGES ==> history@ == h,
            history@.len() <= h.len(),
            history@ == h.subrange(h.len() - history@.len(), h.len() as int),
        decreases history@.len(),
    {
        let ghost before = history@;
        history.remove(0);
        assert(history@ =~= before.subrange(1, before.len() as int));
        assert(history@ =~= h.subrange(h.len() - history@.len(), h.len() as int));
    }
}

/// A string parameter of a tool the model may call.
pub struct ToolParam {
    pub name: &'static str,
    pub description: &'static str,
    pub required: bool,
}

/// A tool the agent offers the model: its name, what it does, and its
/// parameters, all strings.
pub struct ToolSpec {
    pub name: &'static str,
    pub description: &'static str,
    pub params: Vec<ToolParam>,
}

/// The tools the agent offers, each as its name and its parameters' names
/// with whether each is required.
pub open spec fn offered_tools() -> Seq<(Seq<char>, Seq<(Seq<char>, bool)>)> {
    seq![        ("read_file"@, seq![("path"@, true)]),
        ("write_file"@, seq![("path"@, true), ("content"@, true)]),
        ("list_directory"@, seq![("path"@, false)]),
        ("execute_command"@, seq![("command"@, true)]),
        ("delete_file"@, seq![("path"@, true)]),
        ("create_directory"@, seq![("path"@, true)]),
        ("move_file"@, seq![("source"@, true), ("destination"@, true)]),
        ("search_files"@, seq![("pattern"@, true), ("directory"@, false)]),
        ("search_text"@, seq![("pattern"@, true), ("directory"@, false), ("file_pattern"@, false)]),
        ("spawn_agent"@, seq![("task"@, true), ("model"@, false)]),
        ("remember_user"@, seq![("key"@, true), ("value"@, true)]),
    ]
}

/// A tool as its name and its parameters' names with whether each is
/// required.
pub open spec fn tool_shape(t: ToolSpec) -> (Seq<char>, Seq<(Seq<char>, bool)>) {
    (t.name@, t.params@.map_values(|p: ToolParam| (p.name@, p.required)))
}

fn param(name: &'static str, description: &'static str, required: bool) -> (p: ToolParam)
    ensures
        p.name == name,
        p.description == description,
        p.required == required,
{
    ToolParam { name, description, required }
}

/// The tools the agent offers the model, in the order it lists them.
pub fn builtin_tools() -> (v: Vec<ToolSpec>)
    ensures
        v@.map_values(|t: ToolSpec| tool_shape(t)) == offered_tools(),
{
    let mut v: Vec<ToolSpec> = Vec::new();
    v.push(ToolSpec {
        name: "read_file",
        description: "Read the contents of a file from the filesystem",
        params: vec![param("path", "File path to read", true)],
    });
    v.push(ToolSpec {
        name: "write_file",
        description: "Write or create a file with the given content",
        params: vec![param("path", "File path to write", true), param("content", "Content to write to the file", true)],
    });
    v.push(ToolSpec {
        name: "list_directory",
        description: "List files and directories at the given path",
        params: vec![param("path", "Directory path to list (default: current directory)", false)],
    });
    v.push(ToolSpec {
        name: "execute_command",
        description: "Execute a shell command and return its output. Use this to run programs, install packages, run tests, etc.",
        params: vec![param("command", "Shell command to execute", true)],
    });
    v.push(ToolSpec {
        name: "delete_file",
        description: "Delete a file or directory",
        params: vec![param("path", "Path to delete", true)],
    });
    v.push(ToolSpec {
        name: "create_directory",
        description: "Create a directory (including parent directories)",
        params: vec![param("path", "Directory path to create", true)],
    });
    v.push(ToolSpec {
        name: "move_file",
        description: "Move or rename a file or directory",
        params: vec![param("source", "Source path", true), param("destination", "Destination path", true)],
    });
    v.push(ToolSpec {
        name: "search_files",
        description: "Search for files matching a glob pattern recursively. Returns matching file paths.",
        params: vec![param("pattern", "Glob pattern (e.g. '*.rs', 'src/**/*.ts', '*.py')", true), param("directory", "Starting directory (default: current dir)", false)],
    });
    v.push(ToolSpec {
        name: "search_text",
        description: "Search file contents for a text pattern (regex supported). Returns matching lines with file paths and line numbers.",
        params: vec![param("pattern", "Text or regex pattern to search for", true), param("directory", "Directory to search in (default: current dir)", false), param("file_pattern", "Only search files matching this glob (e.g. '*.rs')", false)],
    });
    v.push(ToolSpec {
        name: "spawn_agent",
        description: "Spawn a sub-agent to handle a specific task autonomously. The sub-agent has full tool access and will return its result. Use this to parallelize work or delegate focused subtasks.",
        params: vec![param("task", "Detailed task description for the sub-agent", true), param("model", "Optional: model to use (default: same as current)", false)],
    });
    v.push(ToolSpec {
        name: "remember_user",
        description: "Save personal information about the user for future sessions. Use when the user tells you their name, preferences, coding style, or any personal detail they want you to remember permanently.",
        params: vec![param("key", "Category (e.g. 'name', 'language', 'preferred_stack', 'coding_style')", true), param("value", "The information to remember", true)],
    });
    proof {
        assert(v@[0].params@.map_values(|p: ToolParam| (p.name@, p.required)) =~= offered_tools()[0].1);
        assert(v@[1].params@.map_values(|p: ToolParam| (p.name@, p.required)) =~= offered_tools()[1].1);
        assert(v@[2].params@.map_values(|p: ToolParam| (p.name@, p.required)) =~= offered_tools()[2].1);
        assert(v@[3].params@.map_values(|p: ToolParam| (p.name@, p.required)) =~= offered_tools()[3].1);
        assert(v@[4].params@.map_values(|p: ToolParam| (p.name@, p.required)) =~= offered_tools()[4].1);
        assert(v@[5].params@.map_values(|p: ToolParam| (p.name@, p.required)) =~= offered_tools()[5].1);
        assert(v@[6].params@.map_values(|p: ToolParam| (p.name@, p.required)) =~= offered_tools()[6].1);
        assert(v@[7].params@.map_values(|p: ToolParam| (p.name@, p.required)) =~= offered_tools()[7].1);
        assert(v@[8].params@.map_values(|p: ToolParam| (p.name@, p.required)) =~= offered_tools()[8].1);
        assert(v@[9].params@.map_values(|p: ToolParam| (p.name@, p.required)) =~= offered_tools()[9].1);
        assert(v@[10].params@.map_values(|p: ToolParam| (p.name@, p.required)) =~= offered_tools()[10].1);
        assert forall|i: int| 0 <= i < 11 implies #[trigger] tool_shape(v@[i]) == offered_tools()[i] by {
            assert(v@[i].params@.map_values(|p: ToolParam| (p.name@, p.required)) == offered_tools()[i].1);
        }
    }
    assert(v@.map_values(|t: ToolSpec| tool_shape(t)) =~= offered_tools());
    v
}

/// Where a tool call is served.
#[derive(Clone, Copy, Debug, PartialEq, Eq, Structural)]
pub enum ToolRoute {
    SpawnAgent,
    RememberUser,
    Builtin,
}

/// Routes a tool call by name: sub-agents and the user profile are served
/// by the agent itself, every other tool by the file and shell tools.
pub fn route_tool(name: &str) -> (r: ToolRoute)
    ensures
        r == if name@ == "spawn_agent"@ {
            ToolRoute::SpawnAgent
        } else if name@ == "remember_user"@ {
            ToolRoute::RememberUser
        } else {
            ToolRoute::Builtin
        },
{
    if str_eq(name, "spawn_agent") {
        ToolRoute::SpawnAgent
    } else if str_eq(name, "remember_user") {
        ToolRoute::RememberUser
    } else {
        ToolRoute::Builtin
    }
}

/// The UTF-8 encoding of a concatenation is the concatenation of the encodings.
pub proof fn encode_concat(a: Seq<char>, b: Seq<char>)
    ensures
        encode_utf8(a + b) == encode_utf8(a) + encode_utf8(b),
    decreases a.len(),
{
    if a.len() == 0 {
        assert(a + b =~= b);
    } else {
        assert((a + b).drop_first() =~= a.drop_first() + b);
        encode_concat(a.drop_first(), b);
        assert(encode_utf8(a + b) =~= encode_utf8(a) + encode_utf8(b));
    }
}

/// The first `n` bytes of a text, which must end on a character boundary.
fn byte_prefix(s: &str, n: usize) -> (p: &str)
    requires
        n <= encode_utf8(s@).len(),
        is_char_boundary(encode_utf8(s@), n as int),
    ensures
        encode_utf8(p@) == encode_utf8(s@).subrange(0, n as int),
{
    let (a, _b) = s.split_at(n);
    a
}

/// A text cut at `limit` bytes with `...` after it, or left whole when it
/// is no longer than that (the cut must fall on a character boundary).
pub open spec fn cut_with_ellipsis(s: Seq<char>, limit: nat) -> Seq<u8> {
    if encode_utf8(s).len() > limit {
        encode_utf8(s).subrange(0, limit as int) + encode_utf8("..."@)
    } else {
        encode_utf8(s)
    }
}

/// The preview of a tool call's arguments: at most 80 bytes, then `...`.
pub fn args_preview(args: &str) -> (p: String)
    requires
        encode_utf8(args@).len() > 80 ==> is_char_boundary(encode_utf8(args@), 80),
    ensures
        encode_utf8(p@) == cut_with_ellipsis(args@, 80),
{
    if args.as_bytes().len() > 80 {
        let head = byte_prefix(args, 80);
        let mut p = String::from_str(head);
        p.append("...");
        proof {
            encode_concat(head@, "..."@);
        }
        p
    } else {
        String::from_str(args)
    }
}

/// A sub-agent's task as shown: cut to 57 bytes and `...` when longer than 60 bytes.
pub fn short_task(task: &str) -> (p: String)
    requires
        encode_utf8(task@).len() > 60 ==> is_char_boundary(encode_utf8(task@), 57),
    ensures
        encode_utf8(task@).len() > 60 ==> encode_utf8(p@) == encode_utf8(task@).subrange(0, 57) + encode_utf8("..."@),
        encode_utf8(task@).len() <= 60 ==> p@ == task@,
{
    if task.as_bytes().len() > 60 {
        let head = byte_prefix(task, 57);
        let mut p = String::from_str(head);
        p.append("...");
        proof {
            encode_concat(head@, "..."@);
        }
        p
    } else {
        String::from_str(task)
    }
}

/// The preview of a tool's result: at most 500 bytes, then `...` and the
/// full length in bytes.
pub fn result_preview(result: &str) -> (p: String)
    requires
        encode_utf8(result@).len() > 500 ==> is_char_boundary(encode_utf8(result@), 500),
    ensures
        encode_utf8(result@).len() > 500 ==> encode_utf8(p@) == encode_utf8(result@).subrange(0, 500)
            + encode_utf8("...\n["@ + decimal(encode_utf8(result@).len()) + " chars total]"@),
        encode_utf8(result@).len() <= 500 ==> p@ == result@,
{
    let n = result.as_bytes().len();
    if n > 500 {
        let head = byte_prefix(result, 500);
        let mut tail = String::from_str("...\n[");
        tail.append(u64_to_decimal(n as u64).as_str());
        tail.append(" chars total]");
        let mut p = String::from_str(head);
        p.append(tail.as_str());
        proof {
            encode_concat(head@, tail@);
        }
        p
    } else {
        String::from_str(result)
    }
}

/// The text a file read answers with: cut to its first 20000 bytes under a
/// notice when longer.
pub fn file_read_result(content: &str) -> (p: String)
    requires
        encode_utf8(content@).len() > 20000 ==> is_char_boundary(encode_utf8(content@), 20000),
    ensures
        encode_utf8(content@).len() > 20000 ==> encode_utf8(p@) == encode_utf8("[File truncated to 20000 chars]\n"@)
            + encode_utf8(content@).subrange(0, 20000),
        encode_utf8(content@).len() <= 20000 ==> p@ == content@,
{
    if content.as_bytes().len() > 20000 {
        let head = byte_prefix(content, 20000);
        let mut p = String::from_str("[File truncated to 20000 chars]\n");
        p.append(head);
        proof {
            encode_concat("[File truncated to 20000 chars]\n"@, head@);
        }
        p
    } else {
        String::from_str(content)
    }
}

/// What a shell command answers with: its output, then its error output
/// after `STDERR: ` (on a line of its own when both are there); when both are
/// empty, its exit code, or -1 when it has none (it was killed by a signal).
pub open spec fn command_report(out: Seq<char>, err: Seq<char>, code: Option<i32>) -> Seq<char> {
    let c: int = match code {
        Some(c) => c as int,
        None => -1,
    };
    if out.len() == 0 && err.len() == 0 {
        "Command completed with exit code "@ + signed_decimal(c)
    } else if err.len() == 0 {
        out
    } else if out.len() == 0 {
        "STDERR: "@ + err
    } else {
        out + "\n"@ + "STDERR: "@ + err
    }
}

/// The text that `execute_command` answers with, from the command's output,
/// error output and exit code.
pub fn command_output(stdout: &str, stderr: &str, exit_code: Option<i32>) -> (r: String)
    ensures
        r@ == command_report(stdout@, stderr@, exit_code),
{
    let out_empty = stdout.is_empty();
    let err_empty = stderr.is_empty();
    if out_empty && err_empty {
        let code: i32 = match exit_code {
            Some(c) => c,
            None => -1,
        };
        let digits = i64_to_decimal(code as i64);
        concat2("Command completed with exit code ", digits.as_str())
    } else if err_empty {
        String::from_str(stdout)
    } else if out_empty {
        concat2("STDERR: ", stderr)
    } else {
        let mut r = String::from_str(stdout);
        r.append("\n");
        r.append("STDERR: ");
        r.append(stderr);
        r
    }
}

/// `s` with every leading repetition of `p` removed (`str::trim_start_matches`).
pub open spec fn strip_leading(s: Seq<char>, p: Seq<char>) -> Seq<char>
    decreases s.len(),
{
    if p.len() > 0 && has_prefix(s, p) {
        strip_leading(s.subrange(p.len() as int, s.len() as int), p)
    } else {
        s
    }
}

/// `s` with every occurrence of `c` removed (`str::replace(c, "")`).
pub open spec fn without_char(s: Seq<char>, c: char) -> Seq<char>
    decreases s.len(),
{
    if s.len() == 0 {
        s
    } else if s.last() == c {
        without_char(s.drop_last(), c)
    } else {
        without_char(s.drop_last(), c).push(s.last())
    }
}

/// Whether a file name matches the pattern of `search_files`: a pattern with
/// `*` matches names ending in it once its leading `**/` and every `*` are
/// taken out (or every name, when nothing is left); a pattern without `*`
/// matches names that contain it.
pub open spec fn glob_matches(pattern: Seq<char>, name: Seq<char>) -> bool {
    if pattern.contains('*') {
        let pat = without_char(strip_leading(pattern, "**/"@), '*');
        has_suffix(name, pat) || pat.len() == 0
    } else {
        contains_seq(name, pattern)
    }
}

/// Where the text after the leading repetitions of `p` in `s` starts.
pub(crate) fn leading_repeats_end(s: &[char], p: &[char]) -> (start: usize)
    requires
        p@.len() > 0,
    ensures
        start <= s@.len(),
        s@.subrange(start as int, s@.len() as int) == strip_leading(s@, p@),
{
    let n = s.len();
    let m = p.len();
    let mut start: usize = 0;
    assert(s@.subrange(0, n as int) =~= s@);
    while n >= m && start <= n - m && occurs_at_chars(s, p, start)
        invariant
            n == s@.len(),
            m == p@.len(),
            m > 0,
            start <= n,
            strip_leading(s@.subrange(start as int, n as int), p@) == strip_leading(s@, p@),
        decreases n - start,
    {
        let ghost sub = s@.subrange(start as int, n as int);
        assert(sub.subrange(0, m as int) =~= s@.subrange(start as int, start + m));
        assert(sub.subrange(m as int, sub.len() as int) =~= s@.subrange(start + m, n as int));
        start = start + m;
    }
    proof {
        let sub = s@.subrange(start as int, n as int);
        if has_prefix(sub, p@) {
            assert(sub.subrange(0, m as int) =~= s@.subrange(start as int, start + m));
        }
    }
    start
}

/// The characters of `s[from..]` other than `c`.
fn chars_without(s: &[char], from: usize, c: char) -> (r: Vec<char>)
    requires
        from <= s@.len(),
    ensures
        r@ == without_char(s@.subrange(from as int, s@.len() as int), c),
{
    let n = s.len();
    let mut r: Vec<char> = Vec::new();
    let mut i: usize = from;
    assert(s@.subrange(from as int, from as int) =~= Seq::<char>::empty());
    while i < n
        invariant
            n == s@.len(),
            from <= i <= n,
            r@ == without_char(s@.subrange(from as int, i as int), c),
        decreases n - i,
    {
        let ghost before = s@.subrange(from as int, i as int);
        assert(s@.subrange(from as int, i + 1).drop_last() =~= before);
        if s[i] != c {
            r.push(s[i]);
        }
        i += 1;
    }
    r
}

/// The characters of `s[from..]`.
fn chars_from(s: &[char], from: usize) -> (r: Vec<char>)
    requires
        from <= s@.len(),
    ensures
        r@ == s@.subrange(from as int, s@.len() as int),
{
    let n = s.len();
    let mut r: Vec<char> = Vec::new();
    let mut i: usize = from;
    while i < n
        invariant
            n == s@.len(),
            from <= i <= n,
            r@ == s@.subrange(from as int, i as int),
        decreases n - i,
    {
        r.push(s[i]);
        i += 1;
    }
    r
}

/// Whether `search_files` reports a file of this name for this pattern.
pub fn glob_name_matches(pattern: &str, name: &str) -> (b: bool)
    ensures
        b == glob_matches(pattern@, name@),
{
    let pv = chars_of(pattern);
    let mut has_star = false;
    let mut i: usize = 0;
    while i < pv.len()
        invariant
            i <= pv@.len(),
            pv@ == pattern@,
            has_star == exists|k: int| 0 <= k < i && pv@[k] == '*',
        decreases pv@.len() - i,
    {
        if pv[i] == '*' {
            has_star = true;
        }
        i += 1;
    }
    if has_star {
        let prefix = chars_of("**/");
        proof {
            reveal_strlit("**/");
        }
        let start = leading_repeats_end(pv.as_slice(), prefix.as_slice());
        let pat = chars_without(pv.as_slice(), start, '*');
        let nv = chars_of(name);
        let tail = string_from_chars(pat.as_slice());
        let ends = str_ends_with(name, tail.as_str());
        ends || pat.len() == 0
    } else {
        assert(!pattern@.contains('*'));
        str_contains(name, pattern)
    }
}

/// Whether the file walks of `search_files` and `search_text` go into a
/// directory of this name: hidden directories, `node_modules` and `target`
/// are left out.
pub fn descends_into(name: &str) -> (b: bool)
    ensures
        b == !(has_prefix(name@, "."@) || name@ == "node_modules"@ || name@ == "target"@),
{
    !(str_starts_with(name, ".") || str_eq(name, "node_modules") || str_eq(name, "target"))
}

/// Whether `search_text` looks inside a file of this name: every file when no
/// file pattern is given, else those whose name ends in the pattern without
/// its leading `**/` and then its leading `*`.
pub open spec fn file_pattern_accepts(file_pattern: Option<Seq<char>>, name: Seq<char>) -> bool {
    match file_pattern {
        None => true,
        Some(fp) => has_suffix(name, strip_leading(strip_leading(fp, "**/"@), "*"@)),
    }
}

/// Whether `search_text` looks inside a file of this name.
pub fn file_pattern_matches(file_pattern: Option<&str>, name: &str) -> (b: bool)
    ensures
        b == file_pattern_accepts(opt_text(file_pattern), name@),
{
    match file_pattern {
        None => true,
        Some(fp) => {
            let fv = chars_of(fp);
            let globstar = chars_of("**/");
            let star = chars_of("*");
            proof {
                reveal_strlit("**/");
                reveal_strlit("*");
            }
            let a = leading_repeats_end(fv.as_slice(), globstar.as_slice());
            let rv = chars_from(fv.as_slice(), a);
            let b = leading_repeats_end(rv.as_slice(), star.as_slice());
            let sv = chars_from(rv.as_slice(), b);
            let suffix = string_from_chars(sv.as_slice());
            str_ends_with(name, suffix.as_str())
        }
    }
}

/// How deep the file and text searches go below their starting directory.
pub const MAX_WALK_DEPTH: usize = 10;

/// How many paths `search_files` gathers at most.
pub const MAX_FILE_RESULTS: usize = 100;

/// How many lines `search_text` gathers at most.
pub const MAX_TEXT_HITS: usize = 50;

/// Which search walks the directories.
#[derive(Clone, Copy, Debug, PartialEq, Eq, Structural)]
pub enum WalkKind {
    /// `search_files`: gathers the paths of files whose names match.
    Files,
    /// `search_text`: gathers the matching lines of files whose names fit.
    Text,
}

/// What a search does with one directory entry.
#[derive(Clone, Copy, Debug, PartialEq, Eq, Structural)]
pub enum WalkStep {
    /// Walk into the directory, one level deeper.
    Descend,
    /// Look at the file: record its path, or search its lines.
    Take,
    /// Pass the entry over.
    Pass,
}

/// How many results a search gathers at most.
pub open spec fn result_limit(kind: WalkKind) -> nat {
    match kind {
        WalkKind::Files => MAX_FILE_RESULTS as nat,
        WalkKind::Text => MAX_TEXT_HITS as nat,
    }
}

/// Whether a search reads a directory this deep below where it started.
pub fn walk_enters(depth: usize) -> (b: bool)
    ensures
        b == (depth <= MAX_WALK_DEPTH),
{
    depth <= MAX_WALK_DEPTH
}

/// Whether a search has gathered all it may and stops.
pub fn walk_full(kind: WalkKind, found: usize) -> (b: bool)
    ensures
        b == (found >= result_limit(kind)),
{
    match kind {
        WalkKind::Files => found >= MAX_FILE_RESULTS,
        WalkKind::Text => found >= MAX_TEXT_HITS,
    }
}

/// What a search does with an entry: a directory is walked into unless it is
/// hidden, `node_modules` or `target`; a file is taken when its name matches
/// (the glob pattern for `search_files`, the file pattern for
/// `search_text`).
pub open spec fn walk_step_spec(is_dir: bool, dir_ok: bool, name_matches: bool) -> WalkStep {
    if is_dir {
        if dir_ok {
            WalkStep::Descend
        } else {
            WalkStep::Pass
        }
    } else if name_matches {
        WalkStep::Take
    } else {
        WalkStep::Pass
    }
}

/// The step of `search_files` for an entry.
pub fn file_walk_step(pattern: &str, name: &str, is_dir: bool) -> (r: WalkStep)
    ensures
        r == walk_step_spec(
            is_dir,
            !(has_prefix(name@, "."@) || name@ == "node_modules"@ || name@ == "target"@),
            glob_matches(pattern@, name@),
        ),
{
    if is_dir {
        if descends_into(name) {
            WalkStep::Descend
        } else {
            WalkStep::Pass
        }
    } else if glob_name_matches(pattern, name) {
        WalkStep::Take
    } else {
        WalkStep::Pass
    }
}

/// The step of `search_text` for an entry.
pub fn text_walk_step(file_pattern: Option<&str>, name: &str, is_dir: bool) -> (r: WalkStep)
    ensures
        r == walk_step_spec(
            is_dir,
            !(has_prefix(name@, "."@) || name@ == "node_modules"@ || name@ == "target"@),
            file_pattern_accepts(opt_text(file_pattern), name@),
        ),
{
    if is_dir {
        if descends_into(name) {
            WalkStep::Descend
        } else {
            WalkStep::Pass
        }
    } else if file_pattern_matches(file_pattern, name) {
        WalkStep::Take
    } else {
        WalkStep::Pass
    }
}

/// The answer of a search: its results, one per line, or the sentence that
/// says nothing was found.
pub open spec fn walk_report_text(kind: WalkKind, pattern: Seq<char>, dir: Seq<char>, results: Seq<Seq<char>>) -> Seq<char> {
    if results.len() == 0 {
        match kind {
            WalkKind::Files => "No files matching '"@ + pattern + "' found in '"@ + dir + "'"@,
            WalkKind::Text => "No matches for '"@ + pattern + "' in '"@ + dir + "'"@,
        }
    } else {
        crate::planner::joined(results, "\n"@)
    }
}

/// Answers a search with what it gathered.
pub fn walk_report(kind: WalkKind, pattern: &str, dir: &str, results: &[String]) -> (r: String)
    ensures
        r@ == walk_report_text(kind, pattern@, dir@, results@.map_values(|l: String| l@)),
{
    let ghost rv = results@.map_values(|l: String| l@);
    if results.len() == 0 {
        let mut r = match kind {
            WalkKind::Files => String::from_str("No files matching '"),
            WalkKind::Text => String::from_str("No matches for '"),
        };
        r.append(pattern);
        match kind {
            WalkKind::Files => r.append("' found in '"),
            WalkKind::Text => r.append("' in '"),
        }
        r.append(dir);
        r.append("'");
        return r;
    }
    let mut r = String::new();
    let mut i: usize = 0;
    while i < results.len()
        invariant
            i <= results@.len(),
            rv == results@.map_values(|l: String| l@),
            r@ == crate::planner::joined(rv.subrange(0, i as int), "\n"@),
        decreases results@.len() - i,
    {
        assert(rv.subrange(0, i + 1).drop_last() =~= rv.subrange(0, i as int));
        if i > 0 {
            r.append("\n");
        }
        r.append(results[i].as_str());
        proof {
            if i == 0 {
                assert(r@ =~= rv.subrange(0, 1)[0]);
            }
        }
        i += 1;
    }
    assert(rv.subrange(0, rv.len() as int) =~= rv);
    r
}

/// A hit of `search_text`: the file's path, the line's number (from one) and
/// the line without its surrounding whitespace, separated by colons.
pub fn search_hit_line(path: &str, line_number: u64, line: &str) -> (r: String)
    ensures
        r@ == path@ + ":"@ + decimal(line_number as nat) + ":"@ + trim(line@),
{
    let lv = chars_of(line);
    let t = trim_chars(lv.as_slice());
    let mut r = String::from_str(path);
    r.append(":");
    r.append(u64_to_decimal(line_number).as_str());
    r.append(":");
    r.append(string_from_chars(t.as_slice()).as_str());
    r
}

/// One turn of the conversation as the model is sent it: a role and a text.
#[derive(Debug)]
pub struct ChatTurn {
    pub role: String,
    pub content: String,
}

impl View for ChatTurn {
    type V = (Seq<char>, Seq<char>);

    open spec fn view(&self) -> (Seq<char>, Seq<char>) {
        (self.role@, self.content@)
    }
}

/// The turns as plain values.
pub open spec fn turn_views(ts: Seq<ChatTurn>) -> Seq<(Seq<char>, Seq<char>)> {
    ts.map_values(|t: ChatTurn| t@)
}

proof fn lemma_turn_views_push(ts: Seq<ChatTurn>, t: ChatTurn)
    ensures
        turn_views(ts.push(t)) == turn_views(ts).push(t@),
{
    assert(turn_views(ts.push(t)) =~= turn_views(ts).push(t@));
}

impl ChatTurn {
    /// A turn of the given role.
    pub fn new(role: &str, content: &str) -> (t: ChatTurn)
        ensures
            t@ == (role@, content@),
    {
        ChatTurn { role: String::from_str(role), content: String::from_str(content) }
    }

    /// A copy of the turn.
    pub fn duplicate(&self) -> (t: ChatTurn)
        ensures
            t@ == self@,
    {
        ChatTurn::new(self.role.as_str(), self.content.as_str())
    }
}

/// The last `n` elements of `s`, or all of it when it is no longer.
pub open spec fn keep_last<A>(s: Seq<A>, n: nat) -> Seq<A> {
    if s.len() > n {
        s.subrange(s.len() - n, s.len() as int)
    } else {
        s
    }
}

/// The turns one exchange adds to the history: the user's message, and the
/// assistant's answer unless it is empty.
pub open spec fn exchange_turns(user: Seq<char>, assistant: Seq<char>) -> Seq<(Seq<char>, Seq<char>)> {
    if assistant.len() == 0 {
        seq![("user"@, user)]
    } else {
        seq![("user"@, user), ("assistant"@, assistant)]
    }
}

/// Records an exchange in the history, which then keeps its last 100 turns.
pub fn save_to_history(history: &mut Vec<ChatTurn>, user_msg: &str, assistant_msg: &str)
    ensures
        turn_views(final(history)@) == keep_last(
            turn_views(old(history)@) + exchange_turns(user_msg@, assistant_msg@),
            MAX_HISTORY_MESSAGES as nat,
        ),
{
    let ghost before = turn_views(history@);
    history.push(ChatTurn::new("user", user_msg));
    if !assistant_msg.is_empty() {
        history.push(ChatTurn::new("assistant", assistant_msg));
    }
    let ghost appended = history@;
    assert(turn_views(appended) =~= before + exchange_turns(user_msg@, assistant_msg@));
    trim_history(history);
    proof {
        if appended.len() > MAX_HISTORY_MESSAGES {
            assert(turn_views(history@) =~= turn_views(appended).subrange(
                appended.len() - MAX_HISTORY_MESSAGES,
                appended.len() as int,
            ));
        }
    }
}

/// The keys occur at most once.
pub open spec fn keys_distinct(es: Seq<(Seq<char>, Seq<char>)>) -> bool {
    forall|a: int, b: int| 0 <= a < b < es.len() ==> es[a].0 != es[b].0
}

/// The entries after remembering `value` under `key`: the entry of that key
/// takes the new value where there is one, else the pair comes last.
pub open spec fn remembered(
    es: Seq<(Seq<char>, Seq<char>)>,
    key: Seq<char>,
    value: Seq<char>,
) -> Seq<(Seq<char>, Seq<char>)> {
    if exists|i: int| 0 <= i < es.len() && es[i].0 == key {
        es.update(choose|i: int| 0 <= i < es.len() && es[i].0 == key, (key, value))
    } else {
        es.push((key, value))
    }
}

/// Key and value pairs as plain values.
pub open spec fn pair_views(v: Seq<(String, String)>) -> Seq<(Seq<char>, Seq<char>)> {
    v.map_values(|e: (String, String)| (e.0@, e.1@))
}

proof fn lemma_pair_views_push(v: Seq<(String, String)>, x: (String, String))
    ensures
        pair_views(v.push(x)) == pair_views(v).push((x.0@, x.1@)),
{
    assert(pair_views(v.push(x)) =~= pair_views(v).push((x.0@, x.1@)));
}

/// What the agent remembers of its user across sessions: pairs of a key and
/// a value, in the order the keys were first remembered.
pub struct UserMemory {
    entries: Vec<(String, String)>,
}

impl UserMemory {
    /// The entries as plain values.
    pub closed spec fn entries(&self) -> Seq<(Seq<char>, Seq<char>)> {
        pair_views(self.entries@)
    }

    /// No key is held twice.
    pub open spec fn wf(&self) -> bool {
        keys_distinct(self.entries())
    }

    /// A memory that holds nothing.
    pub fn new() -> (m: UserMemory)
        ensures
            m.wf(),
            m.entries() == Seq::<(Seq<char>, Seq<char>)>::empty(),
    {
        let m = UserMemory { entries: Vec::new() };
        assert(m.entries() =~= Seq::<(Seq<char>, Seq<char>)>::empty());
        m
    }

    /// Whether nothing is remembered.
    pub fn is_empty(&self) -> (b: bool)
        ensures
            b == (self.entries().len() == 0),
    {
        self.entries.len() == 0
    }

    /// Remembers `value` under `key`, replacing what the key held.
    pub fn remember(&mut self, key: &str, value: &str)
        requires
            old(self).wf(),
        ensures
            final(self).wf(),
            final(self).entries() == remembered(old(self).entries(), key@, value@),
    {
        let ghost es = self.entries();
        let n = self.entries.len();
        let mut i: usize = 0;
        while i < n
            invariant
                n == self.entries@.len(),
                es == self.entries(),
                es == old(self).entries(),
                keys_distinct(es),
                i <= n,
                forall|k: int| 0 <= k < i ==> es[k].0 != key@,
            decreases n - i,
        {
            assert(es[i as int] == (self.entries@[i as int].0@, self.entries@[i as int].1@));
            if str_eq(self.entries[i].0.as_str(), key) {
                assert(0 <= i < es.len() && es[i as int].0 == key@);
                let ghost j = choose|j: int| 0 <= j < es.len() && es[j].0 == key@;
                assert(j == i as int);
                self.entries.set(i, (String::from_str(key), String::from_str(value)));
                assert(self.entries() =~= es.update(i as int, (key@, value@)));
                assert(remembered(es, key@, value@) == es.update(i as int, (key@, value@)));
                assert forall|a: int, b: int| 0 <= a < b < self.entries().len() implies
                    self.entries()[a].0 != self.entries()[b].0 by {
                    assert(self.entries()[a].0 == es[a].0);
                    assert(self.entries()[b].0 == es[b].0);
                }
                return;
            }
            i += 1;
        }
        self.entries.push((String::from_str(key), String::from_str(value)));
        assert(self.entries() =~= es.push((key@, value@)));
    }

    /// The entries, in order.
    pub fn entry_list(&self) -> (v: Vec<(String, String)>)
        ensures
            pair_views(v@) == self.entries(),
    {
        let mut v: Vec<(String, String)> = Vec::new();
        let mut i: usize = 0;
        while i < self.entries.len()
            invariant
                i <= self.entries@.len(),
                pair_views(v@) == self.entries().subrange(0, i as int),
            decreases self.entries@.len() - i,
        {
            let k = String::from_str(self.entries[i].0.as_str());
            let val = String::from_str(self.entries[i].1.as_str());
            assert(k@ == self.entries@[i as int].0@ && val@ == self.entries@[i as int].1@);
            let ghost before = v@;
            let pair = (k, val);
            v.push(pair);
            proof {
                lemma_pair_views_push(before, pair);
                assert(self.entries()[i as int] == (self.entries@[i as int].0@, self.entries@[i as int].1@));
                assert(self.entries().subrange(0, i + 1) =~= self.entries().subrange(0, i as int).push(
                    self.entries()[i as int],
                ));
            }
            i += 1;
        }
        assert(self.entries().subrange(0, i as int) =~= self.entries());
        v
    }
}

/// The user-profile lines of the system message, one `- key: value` per entry.
pub open spec fn profile_lines(es: Seq<(Seq<char>, Seq<char>)>) -> Seq<char>
    decreases es.len(),
{
    if es.len() == 0 {
        Seq::empty()
    } else {
        profile_lines(es.drop_last()) + "- "@ + es.last().0 + ": "@ + es.last().1 + "\n"@
    }
}

/// The system message: the configured prompt (or nothing), then the user
/// profile under its heading when anything is remembered.
pub open spec fn system_message(base: Option<Seq<char>>, es: Seq<(Seq<char>, Seq<char>)>) -> Seq<char> {
    let b = match base {
        Some(s) => s,
        None => Seq::empty(),
    };
    if es.len() == 0 {
        b
    } else {
        b + "\n\n## User Profile (remembered across sessions)\n"@ + profile_lines(es)
    }
}

/// Builds the system message from the configured prompt and the memory.
pub fn system_text(base: Option<&str>, memory: &UserMemory) -> (r: String)
    ensures
        r@ == system_message(opt_text(base), memory.entries()),
{
    let mut r = match base {
        Some(b) => String::from_str(b),
        None => String::new(),
    };
    if memory.is_empty() {
        return r;
    }
    r.append("\n\n## User Profile (remembered across sessions)\n");
    let ghost b = r@;
    let ghost es = memory.entries();
    let n = memory.entries.len();
    let mut i: usize = 0;
    while i < n
        invariant
            n == es.len(),
            es == memory.entries(),
            i <= n,
            r@ == b + profile_lines(es.subrange(0, i as int)),
        decreases n - i,
    {
        assert(es.subrange(0, i + 1).drop_last() =~= es.subrange(0, i as int));
        r.append("- ");
        r.append(memory.entries[i].0.as_str());
        r.append(": ");
        r.append(memory.entries[i].1.as_str());
        r.append("\n");
        i += 1;
    }
    assert(es.subrange(0, n as int) =~= es);
    r
}

/// The turns sent to the model for a prompt: the system message when it is
/// not empty, the history, then the prompt as the user's turn.
pub open spec fn request_turns(
    system: Seq<char>,
    history: Seq<(Seq<char>, Seq<char>)>,
    prompt: Seq<char>,
) -> Seq<(Seq<char>, Seq<char>)> {
    let head: Seq<(Seq<char>, Seq<char>)> = if system.len() == 0 {
        Seq::empty()
    } else {
        seq![("system"@, system)]
    };
    head + history + seq![("user"@, prompt)]
}

/// Builds the turns sent to the model for a prompt.
pub fn build_messages(base: Option<&str>, memory: &UserMemory, history: &[ChatTurn], prompt: &str) -> (r: Vec<ChatTurn>)
    ensures
        turn_views(r@) == request_turns(
            system_message(opt_text(base), memory.entries()),
            turn_views(history@),
            prompt@,
        ),
{
    let system = system_text(base, memory);
    let mut r: Vec<ChatTurn> = Vec::new();
    if !system.as_str().is_empty() {
        r.push(ChatTurn::new("system", system.as_str()));
    }
    let ghost head = turn_views(r@);
    assert(head =~= (if system@.len() == 0 {
        Seq::<(Seq<char>, Seq<char>)>::empty()
    } else {
        seq![("system"@, system@)]
    }));
    let mut i: usize = 0;
    while i < history.len()
        invariant
            i <= history@.len(),
            turn_views(r@) == head + turn_views(history@).subrange(0, i as int),
        decreases history@.len() - i,
    {
        let ghost before = r@;
        let t = history[i].duplicate();
        r.push(t);
        proof {
            lemma_turn_views_push(before, t);
            assert(turn_views(history@).subrange(0, i + 1) =~= turn_views(history@).subrange(0, i as int).push(
                history@[i as int]@,
            ));
        }
        i += 1;
    }
    let ghost before = r@;
    let last = ChatTurn::new("user", prompt);
    r.push(last);
    proof {
        lemma_turn_views_push(before, last);
        assert(turn_views(history@).subrange(0, history@.len() as int) =~= turn_views(history@));
    }
    assert(turn_views(r@) =~= request_turns(system@, turn_views(history@), prompt@));
    r
}

/// What a request without a usable API key is answered.
pub open spec fn no_api_key_message() -> Seq<char> {
    "No API key set. Get a FREE key at https://openrouter.ai/keys then use /connect to add it"@
}

/// The key a streamed request is made with: the configured one, when it is
/// there and not empty; else the request is refused with the message above.
pub fn streaming_api_key(key: Option<&str>) -> (r: Result<String, String>)
    ensures
        match key {
            Some(k) if k@.len() > 0 => r is Ok && r->Ok_0@ == k@,
            _ => r is Err && r->Err_0@ == no_api_key_message(),
        },
{
    match key {
        Some(k) => {
            if k.is_empty() {
                Err(String::from_str("No API key set. Get a FREE key at https://openrouter.ai/keys then use /connect to add it"))
            } else {
                Ok(String::from_str(k))
            }
        },
        None => Err(String::from_str("No API key set. Get a FREE key at https://openrouter.ai/keys then use /connect to add it")),
    }
}

/// What a rejected key is answered.
pub open spec fn invalid_key_message() -> Seq<char> {
    "Invalid API key (401 Unauthorized). Check your key at https://openrouter.ai/keys and re-enter it with /connect"@
}

/// The error a failed request to the model reports: a fixed message for a
/// rejected key (status 401), else the status and the body of the answer.
pub fn api_error_text(status_code: u16, status: &str, body: &str) -> (r: String)
    ensures
        status_code == 401 ==> r@ == invalid_key_message(),
        status_code != 401 ==> r@ == "LLM API error ("@ + status@ + "): "@ + body@,
{
    if status_code == 401 {
        String::from_str("Invalid API key (401 Unauthorized). Check your key at https://openrouter.ai/keys and re-enter it with /connect")
    } else {
        let mut r = String::from_str("LLM API error (");
        r.append(status);
        r.append("): ");
        r.append(body);
        r
    }
}

/// Whether a failed request with tools is tried again without them: yes,
/// unless the error speaks of status 401 (a rejected key).
pub fn retries_without_tools(error_text: &str) -> (b: bool)
    ensures
        b == !contains_seq(error_text@, "401"@),
{
    !str_contains(error_text, "401")
}

/// The rounds of requests that one prompt may take while the model keeps
/// calling tools.
pub const MAX_TOOL_ROUNDS: u32 = 8;

/// The rounds of requests that a sub-agent may take.
pub const MAX_SUB_AGENT_ROUNDS: u32 = 10;

/// What follows the model's answer in a round of the tool loop.
#[derive(Clone, Copy, Debug, PartialEq, Eq, Structural)]
pub enum ToolLoopStep {
    /// The answer has no tool calls: its text is the final answer.
    Answer,
    /// Run the tools called, then ask the model again.
    RunToolsThenAsk,
    /// Run the tools called; no round is left, so the final answer stays empty.
    RunToolsThenStop,
}

/// The step after the answer of round `round` (counted from 0) of at most
/// `max_rounds`.
pub fn tool_loop_step(round: u32, max_rounds: u32, has_tool_calls: bool) -> (r: ToolLoopStep)
    requires
        round < max_rounds,
    ensures
        !has_tool_calls ==> r == ToolLoopStep::Answer,
        has_tool_calls && round + 1 < max_rounds ==> r == ToolLoopStep::RunToolsThenAsk,
        has_tool_calls && round + 1 == max_rounds ==> r == ToolLoopStep::RunToolsThenStop,
{
    if !has_tool_calls {
        ToolLoopStep::Answer
    } else if round + 1 < max_rounds {
        ToolLoopStep::RunToolsThenAsk
    } else {
        ToolLoopStep::RunToolsThenStop
    }
}

/// What the `remember_user` tool answers.
pub fn remembered_reply(key: &str, value: &str) -> (r: String)
    ensures
        r@ == "Remembered: "@ + key@ + " = "@ + value@,
{
    let mut r = String::from_str("Remembered: ");
    r.append(key);
    r.append(" = ");
    r.append(value);
    r
}

/// Why a sub-agent cannot be started, if it cannot: it needs a task, and an
/// API key must be configured.
pub fn sub_agent_refusal(task: &str, api_key: Option<&str>) -> (r: Option<String>)
    ensures
        task@.len() == 0 ==> r is Some && r->Some_0@ == "Error: task description is required"@,
        task@.len() > 0 && api_key is None ==> r is Some && r->Some_0@ == "Error: no API key configured"@,
        task@.len() > 0 && api_key is Some ==> r is None,
{
    if task.is_empty() {
        Some(String::from_str("Error: task description is required"))
    } else if api_key.is_none() {
        Some(String::from_str("Error: no API key configured"))
    } else {
        None
    }
}

/// The label of sub-agent number `index + 1` before a text: `[Agent #n] text`.
pub fn sub_agent_label(index: usize, text: &str) -> (r: String)
    requires
        index < u64::MAX,
    ensures
        r@ == "[Agent #"@ + decimal((index + 1) as nat) + "] "@ + text@,
{
    let mut r = String::from_str("[Agent #");
    r.append(u64_to_decimal(index as u64 + 1).as_str());
    r.append("] ");
    r.append(text);
    r
}

/// What a sub-agent reports: its final answer, or a notice that it gave none.
pub fn sub_agent_result(index: usize, response: &str) -> (r: String)
    requires
        index < u64::MAX,
    ensures
        response@.len() > 0 ==> r@ == response@,
        response@.len() == 0 ==> r@ == "Agent #"@ + decimal((index + 1) as nat) + " completed but returned no response"@,
{
    if response.is_empty() {
        let mut r = String::from_str("Agent #");
        r.append(u64_to_decimal(index as u64 + 1).as_str());
        r.append(" completed but returned no response");
        r
    } else {
        String::from_str(response)
    }
}

/// What a sub-agent reports when the model could not be reached at all.
pub fn sub_agent_failure(index: usize, error: &str) -> (r: String)
    requires
        index < u64::MAX,
    ensures
        r@ == "Agent #"@ + decimal((index + 1) as nat) + " error: "@ + error@,
{
    let mut r = String::from_str("Agent #");
    r.append(u64_to_decimal(index as u64 + 1).as_str());
    r.append(" error: ");
    r.append(error);
    r
}

} // verus!
