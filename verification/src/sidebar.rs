//! The text of the chat screen's side panel: the session's title, its
//! context, model and mode, the working directory, the sub-agents with
//! how many have finished, the first remembered facts about the user, where
//! to get free keys, and the update notice.

use vstd::prelude::*;
use crate::agent::pair_views;
use crate::agent::SubAgentStatus;
use crate::text::chars_of;
use crate::text::concat2;
use crate::text::concat3;
use crate::text::decimal;
use crate::text::string_from_chars;
use crate::text::u64_to_decimal;
use vstd::utf8::decode_utf8;
use vstd::utf8::encode_utf8;
use vstd::utf8::encode_utf8_decode_utf8;
use vstd::utf8::is_char_boundary;

verus! {

/// The first `n` characters of `s` (all of it when it is shorter).
pub open spec fn take_upto(s: Seq<char>, n: nat) -> Seq<char> {
    if s.len() <= n {
        s
    } else {
        s.take(n as int)
    }
}

/// The session's title: the first 20 characters of the first message the
/// user sent, or `New session`.
pub open spec fn session_title(first_user_message: Option<Seq<char>>) -> Seq<char> {
    match first_user_message {
        Some(m) => take_upto(m, 20),
        None => "New session"@,
    }
}

/// The working directory as shown: when longer than 26 bytes, `...` and
/// its last 23 bytes.
pub open spec fn short_cwd(cwd: Seq<char>) -> Seq<char> {
    let b = encode_utf8(cwd);
    if b.len() > 26 {
        "..."@ + decode_utf8(b.subrange(b.len() - 23, b.len() as int))
    } else {
        cwd
    }
}

/// The cut of a long working directory falls on a character boundary.
pub open spec fn cwd_cut_ok(cwd: Seq<char>) -> bool {
    encode_utf8(cwd).len() > 26 ==> is_char_boundary(encode_utf8(cwd), encode_utf8(cwd).len() - 23)
}

/// The sub-agents as plain values: each task and whether it has finished.
pub open spec fn sub_views(subs: Seq<SubAgentStatus>) -> Seq<(Seq<char>, bool)> {
    subs.map_values(|s: SubAgentStatus| (s.task@, s.done))
}

/// How many of the sub-agents have finished.
pub open spec fn done_count(subs: Seq<(Seq<char>, bool)>) -> nat
    decreases subs.len(),
{
    if subs.len() == 0 {
        0
    } else {
        done_count(subs.drop_last()) + if subs.last().1 {
            1nat
        } else {
            0nat
        }
    }
}

/// The line of the `k`-th sub-agent (counting from 1): a tick when it has
/// finished, an ellipsis while it works, its number and the first 22
/// characters of its task.
pub open spec fn agent_line(k: nat, task: Seq<char>, done: bool) -> Seq<char> {
    "  "@ + (if done {
        "✓"@
    } else {
        "…"@
    }) + " #"@ + decimal(k) + " "@ + take_upto(task, 22)
}

/// The line of a remembered fact: its key, and its value cut to 18
/// characters.
pub open spec fn memory_line(e: (Seq<char>, Seq<char>)) -> Seq<char> {
    "  "@ + e.0 + ": "@ + take_upto(e.1, 18)
}

/// The sub-agents' part: a heading with the finished and total counts, then
/// one line per sub-agent; nothing when there are none.
pub open spec fn agents_part(subs: Seq<(Seq<char>, bool)>) -> Seq<Seq<char>> {
    if subs.len() == 0 {
        seq![]
    } else {
        seq![""@, "Agents ("@ + decimal(done_count(subs)) + "/"@ + decimal(subs.len()) + ")"@]
            + Seq::new(subs.len(), |i: int| agent_line((i + 1) as nat, subs[i].0, subs[i].1))
    }
}

/// The memory part: a heading and the first five facts; nothing when none
/// is remembered.
pub open spec fn memory_part(memory: Seq<(Seq<char>, Seq<char>)>) -> Seq<Seq<char>> {
    if memory.len() == 0 {
        seq![]
    } else {
        seq![""@, "Memory"@] + Seq::new(
            if memory.len() < 5 {
                memory.len()
            } else {
                5
            },
            |i: int| memory_line(memory[i]),
        )
    }
}

/// Where free keys are to be had.
pub open spec fn keys_part() -> Seq<Seq<char>> {
    seq![""@, "Free API keys"@, "  openrouter.ai/keys"@, "  console.groq.com"@, "  cloud.cerebras.ai"@]
}

/// The update notice: the running and the new version, and the command that
/// upgrades; nothing when no update is known.
pub open spec fn update_part(update: Option<Seq<char>>, version: Seq<char>) -> Seq<Seq<char>> {
    match update {
        Some(v) => seq![""@, "★ Update Available"@, "  v"@ + version + " → "@ + v, "  openzax upgrade"@],
        None => seq![],
    }
}

/// The side panel's lines, top to bottom.
pub open spec fn sidebar_spec(
    first_user_message: Option<Seq<char>>,
    cwd: Seq<char>,
    elapsed_secs: u64,
    model_short: Seq<char>,
    provider: Seq<char>,
    mode_label: Seq<char>,
    tier_label: Seq<char>,
    subs: Seq<(Seq<char>, bool)>,
    memory: Seq<(Seq<char>, Seq<char>)>,
    update: Option<Seq<char>>,
    version: Seq<char>,
) -> Seq<Seq<char>> {
    seq![
        session_title(first_user_message),
        ""@,
        "Context"@,
        "  "@ + decimal(elapsed_secs as nat) + "s elapsed"@,
        "  $0.00 (free)"@,
        ""@,
        "Model"@,
        "  "@ + model_short,
        "  "@ + provider,
        ""@,
        "Session"@,
        "  "@ + mode_label + " · "@ + tier_label,
        "  "@ + short_cwd(cwd),
    ] + agents_part(subs) + memory_part(memory) + keys_part() + update_part(update, version)
}

/// The lines of a list of texts, as plain values.
pub open spec fn line_views(v: Seq<String>) -> Seq<Seq<char>> {
    v.map_values(|l: String| l@)
}

fn push_line(v: &mut Vec<String>, l: String)
    ensures
        line_views(final(v)@) == line_views(old(v)@).push(l@),
{
    let ghost before = v@;
    v.push(l);
    assert(line_views(v@) =~= line_views(before).push(l@));
}

/// The first `n` characters of a text.
pub fn first_chars(s: &str, n: usize) -> (r: String)
    ensures
        r@ == take_upto(s@, n as nat),
{
    let cs = chars_of(s);
    if cs.len() <= n {
        return string_from_chars(cs.as_slice());
    }
    let mut out: Vec<char> = Vec::new();
    let mut i: usize = 0;
    while i < n
        invariant
            cs@ == s@,
            n < cs@.len(),
            i <= n,
            out@ == cs@.take(i as int),
        decreases n - i,
    {
        out.push(cs[i]);
        assert(out@ =~= cs@.take(i + 1));
        i += 1;
    }
    string_from_chars(out.as_slice())
}

/// The working directory as the panel shows it.
pub fn shorten_cwd(cwd: &str) -> (r: String)
    requires
        cwd_cut_ok(cwd@),
    ensures
        r@ == short_cwd(cwd@),
{
    let n = cwd.as_bytes().len();
    if n > 26 {
        let (_head, tail) = cwd.split_at(n - 23);
        proof {
            encode_utf8_decode_utf8(tail@);
        }
        concat2("...", tail)
    } else {
        String::from_str(cwd)
    }
}

fn head_lines(
    first_user_message: Option<&str>,
    cwd: &str,
    elapsed_secs: u64,
    model_short: &str,
    provider: &str,
    mode_label: &str,
    tier_label: &str,
) -> (lines: Vec<String>)
    requires
        cwd_cut_ok(cwd@),
    ensures
        line_views(lines@) == seq![
            session_title(
                match first_user_message {
                    Some(m) => Some(m@),
                    None => None,
                },
            ),
            ""@,
            "Context"@,
            "  "@ + decimal(elapsed_secs as nat) + "s elapsed"@,
            "  $0.00 (free)"@,
            ""@,
            "Model"@,
            "  "@ + model_short@,
            "  "@ + provider@,
            ""@,
            "Session"@,
            "  "@ + mode_label@ + " · "@ + tier_label@,
            "  "@ + short_cwd(cwd@),
        ],
{
    proof {
        reveal_strlit("");
        assert(""@ =~= Seq::<char>::empty());
    }
    let mut lines: Vec<String> = Vec::new();
    let title = match first_user_message {
        Some(m) => first_chars(m, 20),
        None => String::from_str("New session"),
    };
    push_line(&mut lines, title);
    push_line(&mut lines, String::new());
    push_line(&mut lines, String::from_str("Context"));
    push_line(&mut lines, concat3("  ", u64_to_decimal(elapsed_secs).as_str(), "s elapsed"));
    push_line(&mut lines, String::from_str("  $0.00 (free)"));
    push_line(&mut lines, String::new());
    push_line(&mut lines, String::from_str("Model"));
    push_line(&mut lines, concat2("  ", model_short));
    push_line(&mut lines, concat2("  ", provider));
    push_line(&mut lines, String::new());
    push_line(&mut lines, String::from_str("Session"));
    let ml = concat3("  ", mode_label, " · ");
    push_line(&mut lines, concat2(ml.as_str(), tier_label));
    let short = shorten_cwd(cwd);
    push_line(&mut lines, concat2("  ", short.as_str()));
    assert(line_views(lines@).len() == 13);
    assert(line_views(lines@)[1] == ""@);
    assert(line_views(lines@)[3] == "  "@ + decimal(elapsed_secs as nat) + "s elapsed"@);
    assert(line_views(lines@)[11] == "  "@ + mode_label@ + " · "@ + tier_label@);
    assert(line_views(lines@)[12] == "  "@ + short_cwd(cwd@));
    lines
}

fn push_agents(lines: &mut Vec<String>, subs: &[SubAgentStatus])
    ensures
        line_views(final(lines)@) == line_views(old(lines)@) + agents_part(sub_views(subs@)),
{
    proof {
        reveal_strlit("");
        assert(""@ =~= Seq::<char>::empty());
    }
    let ghost sv = sub_views(subs@);
    let ghost start = line_views(lines@);
    if subs.len() == 0 {
        assert(line_views(lines@) =~= start + agents_part(sv));
        return;
    }
    let mut done: usize = 0;
    let mut i: usize = 0;
    while i < subs.len()
        invariant
            i <= subs@.len(),
            sv == sub_views(subs@),
            done == done_count(sv.take(i as int)),
            done <= i,
        decreases subs@.len() - i,
    {
        assert(sv.take(i + 1).drop_last() =~= sv.take(i as int));
        if subs[i].done {
            done += 1;
        }
        i += 1;
    }
    assert(sv.take(sv.len() as int) =~= sv);
    push_line(lines, String::new());
    let counts = concat3(u64_to_decimal(done as u64).as_str(), "/", u64_to_decimal(subs.len() as u64).as_str());
    let heading = concat3("Agents (", counts.as_str(), ")");
    assert(heading@ =~= "Agents ("@ + decimal(done_count(sv)) + "/"@ + decimal(sv.len()) + ")"@);
    push_line(lines, heading);
    let ghost mid = line_views(lines@);
    let mut k: usize = 0;
    while k < subs.len()
        invariant
            k <= subs@.len(),
            sv == sub_views(subs@),
            line_views(lines@) == mid + Seq::new(k as nat, |j: int| agent_line((j + 1) as nat, sv[j].0, sv[j].1)),
        decreases subs@.len() - k,
    {
        let icon = if subs[k].done {
            "✓"
        } else {
            "…"
        };
        let lead = concat3("  ", icon, " #");
        let num = u64_to_decimal((k + 1) as u64);
        let task = first_chars(subs[k].task.as_str(), 22);
        let tail = concat3(num.as_str(), " ", task.as_str());
        let line = concat2(lead.as_str(), tail.as_str());
        assert(line@ =~= agent_line((k + 1) as nat, sv[k as int].0, sv[k as int].1));
        push_line(lines, line);
        assert(line_views(lines@) =~= mid + Seq::new(
            (k + 1) as nat,
            |j: int| agent_line((j + 1) as nat, sv[j].0, sv[j].1),
        ));
        k += 1;
    }
    assert(line_views(lines@) =~= start + agents_part(sv));
}

fn push_memory(lines: &mut Vec<String>, memory: &[(String, String)])
    ensures
        line_views(final(lines)@) == line_views(old(lines)@) + memory_part(pair_views(memory@)),
{
    proof {
        reveal_strlit("");
        assert(""@ =~= Seq::<char>::empty());
    }
    let ghost mv = pair_views(memory@);
    let ghost start = line_views(lines@);
    if memory.len() == 0 {
        assert(line_views(lines@) =~= start + memory_part(mv));
        return;
    }
    push_line(lines, String::new());
    push_line(lines, String::from_str("Memory"));
    let ghost mid = line_views(lines@);
    let shown: usize = if memory.len() < 5 {
        memory.len()
    } else {
        5
    };
    let mut k: usize = 0;
    while k < shown
        invariant
            k <= shown <= memory@.len(),
            mv == pair_views(memory@),
            line_views(lines@) == mid + Seq::new(k as nat, |j: int| memory_line(mv[j])),
        decreases shown - k,
    {
        let value = first_chars(memory[k].1.as_str(), 18);
        let key_part = concat3("  ", memory[k].0.as_str(), ": ");
        let line = concat2(key_part.as_str(), value.as_str());
        assert(line@ =~= memory_line(mv[k as int]));
        push_line(lines, line);
        assert(line_views(lines@) =~= mid + Seq::new((k + 1) as nat, |j: int| memory_line(mv[j])));
        k += 1;
    }
    assert(line_views(lines@) =~= start + memory_part(mv));
}

fn push_tail(lines: &mut Vec<String>, update: Option<&str>, version: &str)
    ensures
        line_views(final(lines)@) == line_views(old(lines)@) + keys_part() + update_part(
            match update {
                Some(u) => Some(u@),
                None => None,
            },
            version@,
        ),
{
    proof {
        reveal_strlit("");
        assert(""@ =~= Seq::<char>::empty());
    }
    let ghost start = line_views(lines@);
    push_line(lines, String::new());
    push_line(lines, String::from_str("Free API keys"));
    push_line(lines, String::from_str("  openrouter.ai/keys"));
    push_line(lines, String::from_str("  console.groq.com"));
    push_line(lines, String::from_str("  cloud.cerebras.ai"));
    assert(line_views(lines@) =~= start + keys_part());
    let ghost with_keys = line_views(lines@);
    match update {
        Some(v) => {
            push_line(lines, String::new());
            push_line(lines, String::from_str("★ Update Available"));
            let versions = concat3(version, " → ", v);
            let line = concat2("  v", versions.as_str());
            assert(line@ =~= "  v"@ + version@ + " → "@ + v@);
            push_line(lines, line);
            push_line(lines, String::from_str("  openzax upgrade"));
            assert(line_views(lines@) =~= with_keys + update_part(Some(v@), version@));
        },
        None => {
            assert(line_views(lines@) =~= with_keys + update_part(None, version@));
        },
    }
}

/// The side panel's lines, for `app/` to print: the session's title, its
/// elapsed seconds, model, provider, mode and tier, the working directory,
/// the sub-agents, the first five remembered facts, where to get free keys
/// and the update notice.
pub fn sidebar_lines(
    first_user_message: Option<&str>,
    cwd: &str,
    elapsed_secs: u64,
    model_short: &str,
    provider: &str,
    mode_label: &str,
    tier_label: &str,
    subs: &[SubAgentStatus],
    memory: &[(String, String)],
    update: Option<&str>,
    version: &str,
) -> (lines: Vec<String>)
    requires
        cwd_cut_ok(cwd@),
    ensures
        line_views(lines@) == sidebar_spec(
            match first_user_message {
                Some(m) => Some(m@),
                None => None,
            },
            cwd@,
            elapsed_secs,
            model_short@,
            provider@,
            mode_label@,
            tier_label@,
            sub_views(subs@),
            pair_views(memory@),
            match update {
                Some(u) => Some(u@),
                None => None,
            },
            version@,
        ),
{
    let mut lines = head_lines(first_user_message, cwd, elapsed_secs, model_short, provider, mode_label, tier_label);
    push_agents(&mut lines, subs);
    push_memory(&mut lines, memory);
    push_tail(&mut lines, update, version);
    lines
}

} // verus!
