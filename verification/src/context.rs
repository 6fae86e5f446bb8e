//! The context window of a conversation: token estimates, adding messages,
//! compressing a full window, and assembling a prompt within a token budget.

use vstd::prelude::*;
use crate::clock::now_millis;
use crate::codec::utf8_bytes;
use crate::text::str_eq;
use vstd::utf8::encode_utf8;

verus! {

/// Why the context could not be managed.
#[derive(Debug)]
pub enum ContextError {
    WindowExceeded(u32, u32),
    CompressionFailed(String),
}

/// The estimated tokens of a text of `n` bytes: one per four bytes, rounded
/// up, and at most `u32::MAX`.
pub open spec fn estimate(n: nat) -> u32 {
    if (n + 3) / 4 > u32::MAX {
        u32::MAX
    } else {
        ((n + 3) / 4) as u32
    }
}

/// A message of the conversation. `timestamp` is in milliseconds since the Unix epoch.
#[derive(Debug)]
pub struct Message {
    pub role: String,
    pub content: String,
    pub token_count: u32,
    pub timestamp: i64,
}

/// A message as plain values.
pub struct MessageView {
    pub role: Seq<char>,
    pub content: Seq<char>,
    pub token_count: u32,
    pub timestamp: i64,
}

impl View for Message {
    type V = MessageView;

    open spec fn view(&self) -> MessageView {
        MessageView {
            role: self.role@,
            content: self.content@,
            token_count: self.token_count,
            timestamp: self.timestamp,
        }
    }
}

impl Clone for Message {
    fn clone(&self) -> (m: Message)
        ensures
            m@ == self@,
    {
        Message {
            role: self.role.clone(),
            content: self.content.clone(),
            token_count: self.token_count,
            timestamp: self.timestamp,
        }
    }
}

/// The messages as plain values.
pub open spec fn message_views(v: Seq<Message>) -> Seq<MessageView> {
    v.map_values(|m: Message| m@)
}

/// The sum of the token counts.
pub open spec fn tokens_of(ms: Seq<MessageView>) -> int
    decreases ms.len(),
{
    if ms.len() == 0 {
        0
    } else {
        tokens_of(ms.drop_last()) + ms.last().token_count
    }
}

/// The token count of a concatenation is the sum of the counts.
pub proof fn tokens_of_concat(a: Seq<MessageView>, b: Seq<MessageView>)
    ensures
        tokens_of(a + b) == tokens_of(a) + tokens_of(b),
    decreases b.len(),
{
    if b.len() == 0 {
        assert(a + b =~= a);
    } else {
        assert((a + b).drop_last() =~= a + b.drop_last());
        tokens_of_concat(a, b.drop_last());
    }
}

/// Token counts are never negative.
pub proof fn tokens_of_nonneg(a: Seq<MessageView>)
    ensures
        tokens_of(a) >= 0,
    decreases a.len(),
{
    if a.len() > 0 {
        tokens_of_nonneg(a.drop_last());
    }
}

/// The estimating and compressing of context.
pub struct ContextCompressor;

impl ContextCompressor {
    /// The estimated tokens of a text: one per four bytes, rounded up.
    pub fn estimate_tokens(text: &str) -> (n: u32)
        ensures
            n == estimate(utf8_bytes(text).len() as nat),
    {
        let len = text.as_bytes().len();
        let q = len / 4 + if len % 4 == 0 { 0 } else { 1 };
        assert(q == (len + 3) / 4);
        if q > 4294967295 {
            4294967295u32
        } else {
            q as u32
        }
    }
}

impl Message {
    /// A message stamped now, with its tokens estimated from its content.
    pub fn new(role: &str, content: &str) -> (m: Message)
        ensures
            m@.role == role@,
            m@.content == content@,
            m@.token_count == estimate(utf8_bytes(content).len() as nat),
    {
        Message {
            role: String::from_str(role),
            content: String::from_str(content),
            token_count: ContextCompressor::estimate_tokens(content),
            timestamp: now_millis(),
        }
    }

    /// A system message.
    pub fn system(content: &str) -> (m: Message)
        ensures
            m@.role == "system"@,
            m@.content == content@,
            m@.token_count == estimate(utf8_bytes(content).len() as nat),
    {
        Message::new("system", content)
    }

    /// A user message.
    pub fn user(content: &str) -> (m: Message)
        ensures
            m@.role == "user"@,
            m@.content == content@,
            m@.token_count == estimate(utf8_bytes(content).len() as nat),
    {
        Message::new("user", content)
    }

    /// An assistant message.
    pub fn assistant(content: &str) -> (m: Message)
        ensures
            m@.role == "assistant"@,
            m@.content == content@,
            m@.token_count == estimate(utf8_bytes(content).len() as nat),
    {
        Message::new("assistant", content)
    }
}

/// The messages of a conversation, the token limit, and the tokens counted so far.
#[derive(Debug)]
pub struct ContextWindow {
    pub messages: Vec<Message>,
    pub max_tokens: u32,
    pub used_tokens: u32,
}

impl ContextWindow {
    /// An empty window with the given limit.
    pub fn new(max_tokens: u32) -> (w: ContextWindow)
        ensures
            w.messages@.len() == 0,
            w.max_tokens == max_tokens,
            w.used_tokens == 0,
    {
        ContextWindow { messages: Vec::new(), max_tokens, used_tokens: 0 }
    }

    /// The tokens left before the limit (never below zero).
    pub fn remaining_tokens(&self) -> (r: u32)
        ensures
            r == if self.used_tokens >= self.max_tokens { 0 } else { self.max_tokens - self.used_tokens },
    {
        self.max_tokens.saturating_sub(self.used_tokens)
    }
}


/// The estimated tokens of a text.
pub open spec fn text_tokens(s: Seq<char>) -> u32 {
    estimate(encode_utf8(s).len())
}

/// A part of a sequence of messages counts no more tokens than the whole.
proof fn tokens_of_span_le(ms: Seq<MessageView>, a: int, b: int)
    requires
        0 <= a <= b <= ms.len(),
    ensures
        tokens_of(ms.subrange(a, b)) <= tokens_of(ms),
        tokens_of(ms.subrange(a, b)) >= 0,
{
    let x = ms.subrange(0, a);
    let y = ms.subrange(a, b);
    let z = ms.subrange(b, ms.len() as int);
    assert(ms =~= x + y + z);
    tokens_of_concat(x + y, z);
    tokens_of_concat(x, y);
    tokens_of_nonneg(x);
    tokens_of_nonneg(y);
    tokens_of_nonneg(z);
}

/// The first message is a system prompt.
pub open spec fn has_system_first(ms: Seq<MessageView>) -> bool {
    ms.len() > 0 && ms[0].role == "system"@
}

/// `a - b`, or zero when `b` is larger.
pub open spec fn sat_sub(a: int, b: int) -> int {
    if a >= b {
        a - b
    } else {
        0
    }
}

/// The messages without the `count` messages from position `start`.
pub open spec fn without_span(ms: Seq<MessageView>, start: int, count: int) -> Seq<MessageView> {
    ms.subrange(0, start) + ms.subrange(start + count, ms.len() as int)
}

/// Where trimming starts: after the system prompt, if the window has one.
pub open spec fn trim_start(ms: Seq<MessageView>) -> int {
    if has_system_first(ms) {
        1
    } else {
        0
    }
}

/// How many messages a sliding window keeping `keep` drops.
pub open spec fn slide_count(ms: Seq<MessageView>, keep: int) -> int {
    sat_sub(ms.len() - keep, trim_start(ms))
}

/// The window is filled past `num / den` of its limit.
pub open spec fn filled_past(used: u32, max: u32, num: int, den: int) -> bool {
    used * den > max * num
}

/// The line under which a message is summarized.
pub open spec fn summary_line(m: MessageView) -> Seq<char> {
    "["@ + m.role + "]: "@ + m.content
}

/// The lines of the messages joined by line breaks.
pub open spec fn summary_input(ms: Seq<MessageView>) -> Seq<char>
    decreases ms.len(),
{
    if ms.len() == 0 {
        Seq::empty()
    } else if ms.len() == 1 {
        summary_line(ms[0])
    } else {
        summary_input(ms.drop_last()) + "\n"@ + summary_line(ms.last())
    }
}

/// `m` is a summary of `ms` made by `f`: a system message holding what `f`
/// answered for the joined lines of `ms`, under a heading.
pub open spec fn summarized_by<F: Fn(&str) -> String>(f: F, ms: Seq<MessageView>, m: MessageView) -> bool {
    exists|arg: &str, t: String|
        arg@ == summary_input(ms) && #[trigger] f.ensures((arg,), t) && m.role == "system"@
            && m.content == "[SUMMARY OF PRIOR CONTEXT]\n"@ + t@ && m.token_count == text_tokens(t@)
}

/// The sum of the token counts of the messages.
fn sum_tokens(messages: &[Message]) -> (n: u32)
    requires
        tokens_of(message_views(messages@)) <= u32::MAX,
    ensures
        n == tokens_of(message_views(messages@)),
{
    let ghost ms = message_views(messages@);
    let mut total: u32 = 0;
    let mut i: usize = 0;
    while i < messages.len()
        invariant
            ms == message_views(messages@),
            tokens_of(ms) <= u32::MAX,
            i <= ms.len(),
            total == tokens_of(ms.take(i as int)),
        decreases ms.len() - i,
    {
        assert(ms.take(i + 1).drop_last() =~= ms.take(i as int));
        proof {
            tokens_of_span_le(ms, 0, i + 1);
            assert(ms.subrange(0, i + 1) =~= ms.take(i + 1));
        }
        total = total + messages[i].token_count;
        i += 1;
    }
    assert(ms.take(ms.len() as int) =~= ms);
    total
}

/// Removes `count` messages from position `start` and hands them back, in order.
fn take_span(messages: &mut Vec<Message>, start: usize, count: usize) -> (removed: Vec<Message>)
    requires
        start + count <= old(messages)@.len(),
    ensures
        message_views(removed@) == message_views(old(messages)@).subrange(start as int, start + count),
        message_views(final(messages)@) == without_span(message_views(old(messages)@), start as int, count as int),
{
    let ghost ms = message_views(messages@);
    let mut removed: Vec<Message> = Vec::new();
    let mut k: usize = 0;
    while k < count
        invariant
            start + count <= ms.len(),
            k <= count,
            message_views(removed@) == ms.subrange(start as int, start + k),
            message_views(messages@) == without_span(ms, start as int, k as int),
            messages@.len() == ms.len() - k,
        decreases count - k,
    {
        let ghost before = messages@;
        let ghost before_removed = message_views(removed@);
        let m = messages.remove(start);
        proof {
            let bv = message_views(before);
            assert(bv == without_span(ms, start as int, k as int));
            assert(bv[start as int] == before[start as int]@);
            assert(bv[start as int] == ms[start + k]);
            assert forall|j: int| 0 <= j < messages@.len() implies message_views(messages@)[j]
                == without_span(ms, start as int, k + 1)[j] by {
                if j < start {
                    assert(messages@[j] == before[j]);
                    assert(bv[j] == ms[j]);
                } else {
                    assert(messages@[j] == before[j + 1]);
                    assert(bv[j + 1] == ms[j + k + 1]);
                }
            }
            assert(message_views(messages@) =~= without_span(ms, start as int, k + 1));
        }
        removed.push(m);
        assert(message_views(removed@) =~= before_removed.push(ms[start + k]));
        assert(ms.subrange(start as int, start + k + 1) =~= ms.subrange(start as int, start + k).push(ms[start + k]));
        k += 1;
    }
    removed
}

impl ContextCompressor {
    /// Appends a message and counts its tokens.
    pub fn add_message(window: &mut ContextWindow, msg: Message)
        requires
            old(window).used_tokens + msg.token_count <= u32::MAX,
        ensures
            message_views(final(window).messages@) == message_views(old(window).messages@).push(msg@),
            final(window).used_tokens == old(window).used_tokens + msg.token_count,
            final(window).max_tokens == old(window).max_tokens,
    {
        window.used_tokens = window.used_tokens + msg.token_count;
        let ghost before = window.messages@;
        window.messages.push(msg);
        assert(message_views(window.messages@) =~= message_views(before).push(msg@));
    }

    /// Keeps the last `keep_last_n` messages, and the system prompt before
    /// them if the window starts with one; the tokens of the dropped messages
    /// are no longer counted.
    pub fn sliding_window(window: &mut ContextWindow, keep_last_n: usize)
        requires
            tokens_of(message_views(old(window).messages@)) <= u32::MAX,
        ensures
            ({
                let ms = message_views(old(window).messages@);
                if ms.len() <= keep_last_n {
                    message_views(final(window).messages@) == ms && final(window).used_tokens
                        == old(window).used_tokens
                } else {
                    let start = trim_start(ms);
                    let count = slide_count(ms, keep_last_n as int);
                    &&& message_views(final(window).messages@) == without_span(ms, start, count)
                    &&& final(window).used_tokens == sat_sub(
                        old(window).used_tokens as int,
                        tokens_of(ms.subrange(start, start + count)),
                    )
                }
            }),
            final(window).max_tokens == old(window).max_tokens,
    {
        let ghost ms = message_views(window.messages@);
        let has_system = window.messages.len() > 0 && str_eq(window.messages[0].role.as_str(), "system");
        assert(has_system == has_system_first(ms)) by {
            if window.messages@.len() > 0 {
                assert(ms[0] == window.messages@[0]@);
            }
        }
        let total = window.messages.len();
        if total <= keep_last_n {
            return;
        }
        let start: usize = if has_system { 1 } else { 0 };
        let count = (total - keep_last_n).saturating_sub(start);
        let removed = take_span(&mut window.messages, start, count);
        proof {
            tokens_of_span_le(ms, start as int, start + count);
        }
        let freed = sum_tokens(removed.as_slice());
        window.used_tokens = window.used_tokens.saturating_sub(freed);
    }
}


/// How a full window is made smaller.
#[derive(Clone, Copy, Debug, PartialEq, Eq, Structural)]
pub enum CompressionStrategy {
    SlidingWindow,
    RecursiveSummarize,
    SemanticRetrieval,
    AggressivePrune,
}

/// How many messages a sliding compression keeps: `num / den` of them,
/// rounded down, and at least two.
pub open spec fn keep_share(n: int, num: int, den: int) -> int {
    if n * num / den > 2 {
        n * num / den
    } else {
        2
    }
}

/// The window after a sliding compression that keeps `keep` messages.
pub open spec fn slid(ms: Seq<MessageView>, used: u32, keep: int) -> (Seq<MessageView>, int) {
    if ms.len() <= keep {
        (ms, used as int)
    } else {
        let start = trim_start(ms);
        let count = slide_count(ms, keep);
        (without_span(ms, start, count), sat_sub(used as int, tokens_of(ms.subrange(start, start + count))))
    }
}

/// The window after pruning to the system prompt (if any) and the last three messages.
pub open spec fn pruned(ms: Seq<MessageView>, used: u32) -> (Seq<MessageView>, int) {
    let start = trim_start(ms);
    if ms.len() > start + 3 {
        let count = ms.len() - 3 - start;
        (without_span(ms, start, count), sat_sub(used as int, tokens_of(ms.subrange(start, start + count))))
    } else {
        (ms, used as int)
    }
}

/// Where the older half, summarized by a recursive compression, ends.
pub open spec fn summary_end(ms: Seq<MessageView>) -> int {
    trim_start(ms) + (ms.len() - trim_start(ms)) / 2
}

impl ContextCompressor {
    /// A system message summarizing the messages: `model_fn` is given their
    /// lines, `[role]: content`, joined by line breaks, and its answer is put
    /// under a heading; the tokens are those of the answer.
    pub fn summarize_range<F: Fn(&str) -> String>(messages: &[Message], model_fn: F) -> (m: Message)
        requires
            forall|s: &str| model_fn.requires((s,)),
        ensures
            summarized_by(model_fn, message_views(messages@), m@),
    {
        let ghost ms = message_views(messages@);
        let mut combined = String::new();
        let mut i: usize = 0;
        while i < messages.len()
            invariant
                ms == message_views(messages@),
                i <= ms.len(),
                combined@ == summary_input(ms.take(i as int)),
            decreases ms.len() - i,
        {
            assert(ms.take(i + 1).drop_last() =~= ms.take(i as int));
            assert(ms[i as int] == messages@[i as int]@);
            if i > 0 {
                combined.append("\n");
            }
            combined.append("[");
            combined.append(messages[i].role.as_str());
            combined.append("]: ");
            combined.append(messages[i].content.as_str());
            proof {
                if i == 0 {
                    assert(combined@ =~= summary_line(ms[0]));
                } else {
                    assert(combined@ =~= summary_input(ms.take(i as int)) + "\n"@ + summary_line(ms[i as int]));
                }
            }
            i += 1;
        }
        assert(ms.take(ms.len() as int) =~= ms);
        let arg = combined.as_str();
        let summary_text = model_fn(arg);
        let mut content = String::from_str("[SUMMARY OF PRIOR CONTEXT]\n");
        content.append(summary_text.as_str());
        let m = Message {
            role: String::from_str("system"),
            content,
            token_count: ContextCompressor::estimate_tokens(summary_text.as_str()),
            timestamp: now_millis(),
        };
        assert(arg@ == summary_input(ms) && model_fn.ensures((arg,), summary_text));
        m
    }

    /// Makes a full window smaller. Sliding strategies act past nine tenths
    /// of the limit and keep three quarters (semantic retrieval: three fifths)
    /// of the messages, at least two; pruning keeps the system prompt and the
    /// last three messages; recursive summarizing acts past eight tenths and
    /// replaces the older half of the messages after the system prompt by a
    /// summary, and fails there when no summarizer is given.
    pub fn compress<F: Fn(&str) -> String>(
        window: &mut ContextWindow,
        strategy: CompressionStrategy,
        summarizer: Option<F>,
    ) -> (r: Result<(), ContextError>)
        requires
            tokens_of(message_views(old(window).messages@)) <= u32::MAX,
            summarizer matches Some(f) ==> forall|s: &str| f.requires((s,)),
        ensures
            final(window).max_tokens == old(window).max_tokens,
            ({
                let ms = message_views(old(window).messages@);
                let used = old(window).used_tokens;
                let max = old(window).max_tokens;
                let after = message_views(final(window).messages@);
                let now_used = final(window).used_tokens as int;
                match strategy {
                    CompressionStrategy::SlidingWindow => r is Ok && if filled_past(used, max, 9, 10) {
                        (after, now_used) == slid(ms, used, keep_share(ms.len() as int, 3, 4))
                    } else {
                        after == ms && now_used == used
                    },
                    CompressionStrategy::SemanticRetrieval => r is Ok && if filled_past(used, max, 9, 10) {
                        (after, now_used) == slid(ms, used, keep_share(ms.len() as int, 3, 5))
                    } else {
                        after == ms && now_used == used
                    },
                    CompressionStrategy::AggressivePrune => r is Ok && (after, now_used) == pruned(ms, used),
                    CompressionStrategy::RecursiveSummarize => if !filled_past(used, max, 8, 10) {
                        r is Ok && after == ms && now_used == used
                    } else if summarizer is None {
                        (r matches Err(ContextError::CompressionFailed(m))
                            && m@ == "RecursiveSummarize requires a summarizer function"@)
                            && after == ms && now_used == used
                    } else if summary_end(ms) <= trim_start(ms) {
                        r is Ok && after == ms && now_used == used
                    } else {
                        let start = trim_start(ms);
                        let mid = summary_end(ms);
                        let older = ms.subrange(start, mid);
                        let freed_used = sat_sub(used as int, tokens_of(older));
                        &&& r is Ok
                        &&& after.len() == ms.len() - (mid - start) + 1
                        &&& after.subrange(0, start) == ms.subrange(0, start)
                        &&& after.subrange(start + 1, after.len() as int) == ms.subrange(mid, ms.len() as int)
                        &&& summarized_by(summarizer->0, older, after[start])
                        &&& now_used == if freed_used + after[start].token_count > u32::MAX {
                            u32::MAX as int
                        } else {
                            freed_used + after[start].token_count
                        }
                    },
                }
            }),
    {
        let ghost ms = message_views(window.messages@);
        let used = window.used_tokens as u64;
        let max = window.max_tokens as u64;
        let n = window.messages.len();
        match strategy {
            CompressionStrategy::SlidingWindow => {
                if used * 10 > max * 9 {
                    let share = n / 4 * 3 + (n % 4) * 3 / 4;
                    assert(share == n * 3 / 4);
                    let keep = if share > 2 { share } else { 2 };
                    Self::sliding_window(window, keep);
                }
                Ok(())
            },
            CompressionStrategy::SemanticRetrieval => {
                if used * 10 > max * 9 {
                    let share = n / 5 * 3 + (n % 5) * 3 / 5;
                    assert(share == n * 3 / 5);
                    let keep = if share > 2 { share } else { 2 };
                    Self::sliding_window(window, keep);
                }
                Ok(())
            },
            CompressionStrategy::AggressivePrune => {
                prune(window);
                Ok(())
            },
            CompressionStrategy::RecursiveSummarize => {
                if used * 10 > max * 8 {
                    match summarizer {
                        None => {
                            return Err(
                                ContextError::CompressionFailed(
                                    String::from_str("RecursiveSummarize requires a summarizer function"),
                                ),
                            );
                        },
                        Some(f) => {
                            summarize_older_half(window, f);
                        },
                    }
                }
                Ok(())
            },
        }
    }
}

/// Whether the window starts with a system prompt.
fn starts_with_system(messages: &Vec<Message>) -> (b: bool)
    ensures
        b == has_system_first(message_views(messages@)),
{
    let b = messages.len() > 0 && str_eq(messages[0].role.as_str(), "system");
    proof {
        if messages@.len() > 0 {
            assert(message_views(messages@)[0] == messages@[0]@);
        }
    }
    b
}

/// Keeps the system prompt (if any) and the last three messages.
fn prune(window: &mut ContextWindow)
    requires
        tokens_of(message_views(old(window).messages@)) <= u32::MAX,
    ensures
        final(window).max_tokens == old(window).max_tokens,
        (message_views(final(window).messages@), final(window).used_tokens as int) == pruned(
            message_views(old(window).messages@),
            old(window).used_tokens,
        ),
{
    let ghost ms = message_views(window.messages@);
    let n = window.messages.len();
    let start: usize = if starts_with_system(&window.messages) { 1 } else { 0 };
    if n > start + 3 {
        let count = n - 3 - start;
        let removed = take_span(&mut window.messages, start, count);
        proof {
            tokens_of_span_le(ms, start as int, start + count);
        }
        let freed = sum_tokens(removed.as_slice());
        window.used_tokens = window.used_tokens.saturating_sub(freed);
    }
}

/// Replaces the older half of the messages after the system prompt (if
/// any) by a summary made by `f`.
fn summarize_older_half<F: Fn(&str) -> String>(window: &mut ContextWindow, f: F)
    requires
        tokens_of(message_views(old(window).messages@)) <= u32::MAX,
        forall|s: &str| f.requires((s,)),
    ensures
        final(window).max_tokens == old(window).max_tokens,
        ({
            let ms = message_views(old(window).messages@);
            let used = old(window).used_tokens;
            let after = message_views(final(window).messages@);
            let now_used = final(window).used_tokens as int;
            if summary_end(ms) <= trim_start(ms) {
                after == ms && now_used == used
            } else {
                let start = trim_start(ms);
                let mid = summary_end(ms);
                let older = ms.subrange(start, mid);
                let freed_used = sat_sub(used as int, tokens_of(older));
                &&& after.len() == ms.len() - (mid - start) + 1
                &&& after.subrange(0, start) == ms.subrange(0, start)
                &&& after.subrange(start + 1, after.len() as int) == ms.subrange(mid, ms.len() as int)
                &&& summarized_by(f, older, after[start])
                &&& now_used == if freed_used + after[start].token_count > u32::MAX {
                    u32::MAX as int
                } else {
                    freed_used + after[start].token_count
                }
            }
        }),
{
    let ghost ms = message_views(window.messages@);
    let n = window.messages.len();
    let start: usize = if starts_with_system(&window.messages) { 1 } else { 0 };
    let mid = start + (n - start) / 2;
    if mid > start {
        let removed = take_span(&mut window.messages, start, mid - start);
        proof {
            tokens_of_span_le(ms, start as int, mid as int);
        }
        let freed = sum_tokens(removed.as_slice());
        window.used_tokens = window.used_tokens.saturating_sub(freed);
        let summary = ContextCompressor::summarize_range(removed.as_slice(), f);
        window.used_tokens = window.used_tokens.saturating_add(summary.token_count);
        let ghost rest = message_views(window.messages@);
        let ghost sv = summary@;
        assert(rest.len() == window.messages@.len());
        window.messages.insert(start, summary);
        proof {
            let after = message_views(window.messages@);
            assert(after =~= rest.insert(start as int, sv));
            assert(after.subrange(0, start as int) =~= ms.subrange(0, start as int));
            assert(after.subrange(start + 1, after.len() as int) =~= ms.subrange(mid as int, ms.len() as int));
        }
    }
}


/// The history kept within `budget` tokens: newest messages first, each
/// taken if it still fits, given back in chronological order.
pub open spec fn pick_history(h: Seq<MessageView>, budget: int) -> Seq<MessageView>
    decreases h.len(),
{
    if h.len() == 0 {
        Seq::empty()
    } else if budget >= h.last().token_count {
        pick_history(h.drop_last(), budget - h.last().token_count).push(h.last())
    } else {
        pick_history(h.drop_last(), budget)
    }
}

/// The documents kept, in order, each if it still fits with `used` tokens
/// already spent of `budget`.
pub open spec fn pick_docs(d: Seq<MessageView>, used: int, budget: int) -> Seq<MessageView>
    decreases d.len(),
{
    if d.len() == 0 {
        Seq::empty()
    } else if used + d[0].token_count <= budget {
        seq![d[0]] + pick_docs(d.drop_first(), used + d[0].token_count, budget)
    } else {
        pick_docs(d.drop_first(), used, budget)
    }
}

/// The history kept takes no more tokens than its budget allows.
pub proof fn pick_history_within(h: Seq<MessageView>, budget: int)
    requires
        budget >= 0,
    ensures
        0 <= tokens_of(pick_history(h, budget)) <= budget,
    decreases h.len(),
{
    if h.len() > 0 {
        if budget >= h.last().token_count {
            let p = pick_history(h.drop_last(), budget - h.last().token_count);
            assert(p.push(h.last()).drop_last() =~= p);
            pick_history_within(h.drop_last(), budget - h.last().token_count);
        } else {
            pick_history_within(h.drop_last(), budget);
        }
    }
}

/// The assembling of a prompt from its parts.
pub struct ContextAssembler;

impl ContextAssembler {
    /// Puts together a prompt within `budget_tokens`: the system prompt
    /// always; the task if it fits beside it; of the history, newest first,
    /// what fits in six tenths of the tokens left, placed in chronological
    /// order after the system prompt and before the task; then each document
    /// that still fits, in order. The system prompt always comes first. Sums
    /// are taken without overflow.
    #[verifier::rlimit(40)]
    pub fn assemble(
        system_prompt: &str,
        history: &[Message],
        relevant_docs: &[Message],
        current_task: &str,
        budget_tokens: u32,
    ) -> (r: Vec<Message>)
        ensures
            ({
                let sys_t = text_tokens(system_prompt@) as int;
                let task_t = text_tokens(current_task@) as int;
                let task_fits = sys_t + task_t <= budget_tokens;
                let used1 = if task_fits { sys_t + task_t } else { sys_t };
                let hist = pick_history(message_views(history@), sat_sub(budget_tokens as int, used1) * 6 / 10);
                let docs = pick_docs(message_views(relevant_docs@), used1 + tokens_of(hist), budget_tokens as int);
                let v = message_views(r@);
                let k = hist.len() as int;
                if task_fits {
                    &&& v.len() == k + 2 + docs.len()
                    &&& v[0].role == "system"@ && v[0].content == system_prompt@ && v[0].token_count == sys_t
                    &&& v.subrange(1, k + 1) == hist
                    &&& v[k + 1].role == "user"@ && v[k + 1].content == current_task@ && v[k + 1].token_count == task_t
                    &&& v.subrange(k + 2, v.len() as int) == docs
                } else {
                    &&& v.len() == k + 1 + docs.len()
                    &&& v[0].role == "system"@ && v[0].content == system_prompt@ && v[0].token_count == sys_t
                    &&& v.subrange(1, k + 1) == hist
                    &&& v.subrange(k + 1, v.len() as int) == docs
                }
            }),
    {
        let ghost hv = message_views(history@);
        let ghost dv = message_views(relevant_docs@);
        let sys_msg = Message::system(system_prompt);
        let task_msg = Message::user(current_task);
        let mut used: u64 = sys_msg.token_count as u64;
        let task_fits = used + task_msg.token_count as u64 <= budget_tokens as u64;
        if task_fits {
            used = used + task_msg.token_count as u64;
        }
        let used1 = used;
        let left: u64 = if budget_tokens as u64 >= used { budget_tokens as u64 - used } else { 0 };
        let hb0: u64 = left * 6 / 10;
        let mut hb = hb0;
        let mut selected: Vec<Message> = Vec::new();
        let mut i: usize = history.len();
        assert(hv.take(i as int) =~= hv);
        assert(message_views(selected@) =~= Seq::<MessageView>::empty());
        assert(pick_history(hv.take(i as int), hb as int) + message_views(selected@) =~= pick_history(hv.take(i as int), hb as int));
        while i > 0
            invariant
                hv == message_views(history@),
                i <= hv.len(),
                hb <= hb0,
                hb0 <= u32::MAX,
                used1 <= 2 * (u32::MAX as int),
                pick_history(hv, hb0 as int) == pick_history(hv.take(i as int), hb as int) + message_views(selected@),
                used == used1 + tokens_of(message_views(selected@)),
                tokens_of(message_views(selected@)) == hb0 - hb,
            decreases i,
        {
            let m = &history[i - 1];
            assert(hv.take(i as int).last() == m@);
            assert(hv.take(i as int).drop_last() =~= hv.take(i - 1));
            if hb >= m.token_count as u64 {
                hb = hb - m.token_count as u64;
                used = used + m.token_count as u64;
                let ghost before = message_views(selected@);
                selected.insert(0, m.clone());
                proof {
                    assert(message_views(selected@) =~= seq![m@] + before);
                    tokens_of_concat(seq![m@], before);
                    assert(seq![m@].drop_last() =~= Seq::<MessageView>::empty());
                    assert(tokens_of(Seq::<MessageView>::empty()) == 0);
                    assert(tokens_of(seq![m@]) == m@.token_count);
                    assert(pick_history(hv.take(i - 1), hb as int).push(m@) + before =~= pick_history(hv.take(i - 1), hb as int) + (seq![m@] + before));
                }
            }
            i -= 1;
        }
        let ghost hist = message_views(selected@);
        proof {
            assert(hv.take(0) =~= Seq::<MessageView>::empty());
            assert(pick_history(hv, hb0 as int) =~= hist);
        }
        let mut result: Vec<Message> = Vec::new();
        let ghost sysv = sys_msg@;
        let ghost taskv = task_msg@;
        if task_fits {
            result.push(sys_msg);
            let mut j: usize = 0;
            while j < selected.len()
                invariant
                    j <= selected@.len(),
                    message_views(result@) == seq![sysv] + message_views(selected@).take(j as int),
                decreases selected@.len() - j,
            {
                assert(message_views(selected@)[j as int] == selected@[j as int]@);
                let ghost before = message_views(result@);
                result.push(selected[j].clone());
                assert(message_views(result@) =~= before.push(selected@[j as int]@));
                assert(message_views(selected@).take(j + 1) =~= message_views(selected@).take(j as int).push(selected@[j as int]@));
                assert(message_views(result@) =~= seq![sysv] + message_views(selected@).take(j + 1));
                j += 1;
            }
            result.push(task_msg);
        } else {
            result.push(sys_msg);
            let mut j: usize = 0;
            while j < selected.len()
                invariant
                    j <= selected@.len(),
                    message_views(result@) == seq![sysv] + message_views(selected@).take(j as int),
                decreases selected@.len() - j,
            {
                assert(message_views(selected@)[j as int] == selected@[j as int]@);
                let ghost before = message_views(result@);
                result.push(selected[j].clone());
                assert(message_views(result@) =~= before.push(selected@[j as int]@));
                assert(message_views(selected@).take(j + 1) =~= message_views(selected@).take(j as int).push(selected@[j as int]@));
                assert(message_views(result@) =~= seq![sysv] + message_views(selected@).take(j + 1));
                j += 1;
            }
        }
        assert(message_views(selected@).take(selected@.len() as int) =~= hist);
        let ghost prefix = message_views(result@);
        let ghost used2 = used as int;
        let mut d: usize = 0;
        assert(message_views(result@).subrange(prefix.len() as int, prefix.len() as int) =~= Seq::<MessageView>::empty());
        assert(message_views(result@).subrange(0, prefix.len() as int) =~= prefix);
        assert(dv.subrange(0, dv.len() as int) =~= dv);
        proof {
            pick_history_within(hv, hb0 as int);
        }
        while d < relevant_docs.len()
            invariant
                dv == message_views(relevant_docs@),
                d <= dv.len(),
                used <= (u32::MAX as int) * 3,
                pick_docs(dv, used2, budget_tokens as int) == (message_views(result@).subrange(
                    prefix.len() as int,
                    message_views(result@).len() as int,
                )) + pick_docs(dv.subrange(d as int, dv.len() as int), used as int, budget_tokens as int),
                message_views(result@).subrange(0, prefix.len() as int) == prefix,
                message_views(result@).len() >= prefix.len(),
            decreases dv.len() - d,
        {
            let doc = &relevant_docs[d];
            let ghost rest = dv.subrange(d as int, dv.len() as int);
            assert(rest[0] == doc@);
            assert(rest.drop_first() =~= dv.subrange(d + 1, dv.len() as int));
            let ghost before = message_views(result@);
            if used + doc.token_count as u64 <= budget_tokens as u64 {
                used = used + doc.token_count as u64;
                result.push(doc.clone());
                proof {
                    let now = message_views(result@);
                    assert(now =~= before.push(doc@));
                    assert(now.subrange(0, prefix.len() as int) =~= before.subrange(0, prefix.len() as int));
                    assert(now.subrange(prefix.len() as int, now.len() as int) =~= before.subrange(
                        prefix.len() as int,
                        before.len() as int,
                    ).push(doc@));
                    assert(before.subrange(prefix.len() as int, before.len() as int) + (seq![doc@]
                        + pick_docs(rest.drop_first(), used as int, budget_tokens as int)) =~= before.subrange(
                        prefix.len() as int,
                        before.len() as int,
                    ).push(doc@) + pick_docs(rest.drop_first(), used as int, budget_tokens as int));
                }
            }
            d += 1;
        }
        proof {
            let v = message_views(result@);
            assert(dv.subrange(dv.len() as int, dv.len() as int) =~= Seq::<MessageView>::empty());
            assert(pick_docs(dv, used2, budget_tokens as int) =~= v.subrange(prefix.len() as int, v.len() as int));
            pick_history_within(hv, hb0 as int);
            let k = hist.len() as int;
            if task_fits {
                assert(prefix =~= seq![sysv] + hist + seq![taskv]);
                assert(v.subrange(1, k + 1) =~= prefix.subrange(1, k + 1));
                assert(prefix.subrange(1, k + 1) =~= hist);
                assert(v.subrange(0, prefix.len() as int)[k + 1] == v[k + 1]);
                assert(v[k + 1] == prefix[k + 1]);
                assert(v.len() == k + 2 + pick_docs(dv, used2, budget_tokens as int).len());
                assert(v.subrange(0, prefix.len() as int)[0] == v[0]);
                assert(prefix[0] == sysv);
                assert(v[0] == sysv);
                assert(v.subrange(k + 2, v.len() as int) == pick_docs(dv, used2, budget_tokens as int));
                assert(sysv.token_count == text_tokens(system_prompt@));
            } else {
                assert(prefix =~= seq![sysv] + hist);
                assert(v.subrange(1, k + 1) =~= prefix.subrange(1, k + 1));
                assert(prefix.subrange(1, k + 1) =~= hist);
                assert(v.subrange(0, prefix.len() as int)[0] == v[0]);
                assert(prefix[0] == sysv);
                assert(v[0] == sysv);
                assert(v.len() == k + 1 + pick_docs(dv, used2, budget_tokens as int).len());
                assert(v.subrange(k + 1, v.len() as int) == pick_docs(dv, used2, budget_tokens as int));
                assert(sysv.token_count == text_tokens(system_prompt@));
            }
        }
        result
    }

    /// Whether the messages together fit within `max_tokens`.
    pub fn fits_in_window(messages: &[Message], max_tokens: u32) -> (b: bool)
        ensures
            b == (tokens_of(message_views(messages@)) <= max_tokens),
    {
        let ghost ms = message_views(messages@);
        let mut total: u64 = 0;
        let mut i: usize = 0;
        while i < messages.len()
            invariant
                ms == message_views(messages@),
                i <= ms.len(),
                total == tokens_of(ms.take(i as int)),
                total <= max_tokens,
            decreases ms.len() - i,
        {
            assert(ms.take(i + 1).drop_last() =~= ms.take(i as int));
            total = total + messages[i].token_count as u64;
            if total > max_tokens as u64 {
                proof {
                    tokens_of_concat(ms.take(i + 1), ms.subrange(i + 1, ms.len() as int));
                    assert(ms.take(i + 1) + ms.subrange(i + 1, ms.len() as int) =~= ms);
                    tokens_of_nonneg(ms.subrange(i + 1, ms.len() as int));
                }
                return false;
            }
            i += 1;
        }
        assert(ms.take(ms.len() as int) =~= ms);
        true
    }

    /// The tokens of the messages together.
    pub fn total_tokens(messages: &[Message]) -> (n: u32)
        requires
            tokens_of(message_views(messages@)) <= u32::MAX,
        ensures
            n == tokens_of(message_views(messages@)),
    {
        sum_tokens(messages)
    }
}


/// Sliding and pruning never grow the window nor the tokens counted, keep
/// the system prompt that opens the window, and keep the newest message.
pub proof fn trimming_keeps_system_prompt(ms: Seq<MessageView>, used: u32, keep: int)
    requires
        keep >= 1,
    ensures
        slid(ms, used, keep).0.len() <= ms.len(),
        slid(ms, used, keep).1 <= used,
        pruned(ms, used).0.len() <= ms.len(),
        pruned(ms, used).1 <= used,
        has_system_first(ms) ==> slid(ms, used, keep).0[0] == ms[0] && pruned(ms, used).0[0] == ms[0],
        ms.len() > 0 ==> slid(ms, used, keep).0.last() == ms.last() && pruned(ms, used).0.last() == ms.last(),
{
    if ms.len() > keep {
        let start = trim_start(ms);
        let count = slide_count(ms, keep);
        tokens_of_span_le(ms, start, start + count);
        let r = without_span(ms, start, count);
        assert(r.last() == ms.last());
        if has_system_first(ms) {
            assert(r[0] == ms[0]);
        }
    }
    let start = trim_start(ms);
    if ms.len() > start + 3 {
        let count = ms.len() - 3 - start;
        tokens_of_span_le(ms, start, start + count);
        let r = without_span(ms, start, count);
        assert(r.last() == ms.last());
        if has_system_first(ms) {
            assert(r[0] == ms[0]);
        }
    }
}

} // verus!
