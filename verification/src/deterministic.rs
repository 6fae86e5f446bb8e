//! Deterministic execution: a seeded pseudo-random generator whose every
//! draw follows from the seed, and the recording and replay of tool and
//! model calls so that a run can be repeated and compared.

use vstd::prelude::*;
use vstd::arithmetic::div_mod::lemma_add_mod_noop;
use crate::codec::hex_char;
use crate::codec::hex_digit_char;
use crate::text::push_char;
use crate::text::str_eq;

verus! {

/// How a run is made repeatable: the seed, and the file to record to or to
/// replay from.
#[derive(Debug)]
pub struct DeterministicConfig {
    pub seed: u64,
    pub record_to_file: Option<String>,
    pub replay_from_file: Option<String>,
}

impl DeterministicConfig {
    /// A run that records to `path`.
    pub fn recording(seed: u64, path: &str) -> (c: DeterministicConfig)
        ensures
            c.seed == seed,
            c.record_to_file matches Some(p) && p@ == path@,
            c.replay_from_file is None,
    {
        DeterministicConfig { seed, record_to_file: Some(String::from_str(path)), replay_from_file: None }
    }

    /// A run that replays from `path`.
    pub fn replaying(seed: u64, path: &str) -> (c: DeterministicConfig)
        ensures
            c.seed == seed,
            c.record_to_file is None,
            c.replay_from_file matches Some(p) && p@ == path@,
    {
        DeterministicConfig { seed, record_to_file: None, replay_from_file: Some(String::from_str(path)) }
    }
}

/// The multiplier of the generator (Knuth's MMIX constant).
pub const LCG_MULTIPLIER: u64 = 6364136223846793005;

/// The increment of the generator.
pub const LCG_INCREMENT: u64 = 1442695040888963407;

/// One step of the linear congruential generator: `s * a + c` modulo 2^64.
pub open spec fn lcg_next(s: u64) -> u64 {
    ((s as nat * LCG_MULTIPLIER as nat + LCG_INCREMENT as nat) % 0x1_0000_0000_0000_0000) as u64
}

/// The value drawn from `x` for the range `[min, max)`: `min` itself when the range is empty.
pub open spec fn range_pick(x: u64, min: u64, max: u64) -> u64 {
    if min >= max {
        min
    } else {
        (min + x % ((max - min) as u64)) as u64
    }
}

/// The state after `k` draws from `s`.
pub open spec fn lcg_iterate(s: u64, k: nat) -> u64
    decreases k,
{
    if k == 0 {
        s
    } else {
        lcg_iterate(lcg_next(s), (k - 1) as nat)
    }
}

/// The Fisher-Yates shuffle of `v` driven by the generator from state `s`:
/// positions `i` down to 1 are each swapped with one drawn from `[0, i]`.
/// Gives the shuffled sequence and the generator's final state.
pub open spec fn fisher_yates<T>(v: Seq<T>, s: u64, i: nat) -> (Seq<T>, u64)
    decreases i,
{
    if i == 0 || i >= v.len() {
        (v, s)
    } else {
        let s1 = lcg_next(s);
        let j = range_pick(s1, 0, (i + 1) as u64) as int;
        let w = v.update(i as int, v[j]).update(j, v[i as int]);
        fisher_yates(w, s1, (i - 1) as nat)
    }
}

/// Swaps two elements of a slice with `slice::swap`.
#[verifier::external_body]
fn swap_in<T>(s: &mut [T], a: usize, b: usize)
    requires
        a < old(s)@.len(),
        b < old(s)@.len(),
    ensures
        final(s)@ == old(s)@.update(a as int, old(s)@[b as int]).update(b as int, old(s)@[a as int]),
{
    s.swap(a, b)
}

/// Swapping two positions keeps the same elements.
proof fn lemma_swap_same_elements<T>(v: Seq<T>, a: int, b: int)
    requires
        0 <= a < v.len(),
        0 <= b < v.len(),
    ensures
        v.update(a, v[b]).update(b, v[a]).to_multiset() == v.to_multiset(),
{
    broadcast use vstd::seq_lib::to_multiset_update;
    broadcast use vstd::seq_lib::to_multiset_contains;
    broadcast use vstd::multiset::group_multiset_axioms;

    let m = v.to_multiset();
    let w = v.update(a, v[b]);
    assert(v.contains(v[a]) && v.contains(v[b]));
    assert(m.count(v[a]) > 0 && m.count(v[b]) > 0);
    assert(w.len() == v.len());
    assert(w[b] == v[b]);
    let m1 = m.insert(v[b]).remove(v[a]);
    assert(w.to_multiset() == m1);
    let m2 = m1.insert(v[a]).remove(v[b]);
    assert(w.update(b, v[a]).to_multiset() == m2);
    assert forall|e: T| m2.count(e) == m.count(e) by {
        if e == v[a] && e == v[b] {
        } else if e == v[a] {
        } else if e == v[b] {
        } else {
        }
    }
    assert(m2 =~= m);
}

/// The shuffle only reorders: the elements are the same, with the same counts.
pub proof fn shuffle_is_permutation<T>(v: Seq<T>, s: u64, i: nat)
    ensures
        fisher_yates(v, s, i).0.to_multiset() == v.to_multiset(),
        fisher_yates(v, s, i).0.len() == v.len(),
    decreases i,
{
    if i == 0 || i >= v.len() {
    } else {
        let s1 = lcg_next(s);
        let j = range_pick(s1, 0, (i + 1) as u64) as int;
        let w = v.update(i as int, v[j]).update(j, v[i as int]);
        lemma_swap_same_elements(v, i as int, j);
        shuffle_is_permutation(w, s1, (i - 1) as nat);
    }
}

/// A shuffle moves every sequence of one length alike: where `u` holds the
/// items of `v` at positions `p`, the shuffled `u` holds the items of `v`
/// at the shuffled positions, and both end in the same state.
proof fn lemma_shuffle_tracks<A>(v: Seq<A>, p: Seq<int>, u: Seq<A>, s: u64, i: nat)
    requires
        u.len() == p.len(),
        forall|k: int| 0 <= k < p.len() ==> 0 <= #[trigger] p[k] < v.len() && u[k] == v[p[k]],
    ensures
        fisher_yates(u, s, i).0.len() == u.len(),
        fisher_yates(p, s, i).0.len() == p.len(),
        fisher_yates(u, s, i).1 == fisher_yates(p, s, i).1,
        forall|k: int|
            0 <= k < p.len() ==> 0 <= #[trigger] fisher_yates(p, s, i).0[k] < v.len() && fisher_yates(u, s, i).0[k]
                == v[fisher_yates(p, s, i).0[k]],
    decreases i,
{
    if i == 0 || i >= u.len() {
    } else {
        let s1 = lcg_next(s);
        let j = range_pick(s1, 0, (i + 1) as u64) as int;
        let u2 = u.update(i as int, u[j]).update(j, u[i as int]);
        let p2 = p.update(i as int, p[j]).update(j, p[i as int]);
        assert forall|k: int| 0 <= k < p2.len() implies 0 <= #[trigger] p2[k] < v.len() && u2[k] == v[p2[k]] by {
            if k == j {
            } else if k == i {
            } else {
            }
        }
        lemma_shuffle_tracks(v, p2, u2, s1, (i - 1) as nat);
    }
}

/// The positions a shuffle of `n` items from state `s` takes each item
/// from.
pub open spec fn shuffle_positions(n: nat, s: u64) -> Seq<int> {
    fisher_yates(Seq::new(n, |k: int| k), s, (n - 1) as nat).0
}

/// A shuffle depends on the generator's state and the number of items
/// alone: from one state, any two sequences of the same length are
/// reordered by the same permutation, and the generator ends in the same
/// state.
pub proof fn same_state_same_shuffle<A, B>(v: Seq<A>, w: Seq<B>, s: u64)
    requires
        v.len() == w.len(),
    ensures
        fisher_yates(v, s, (v.len() - 1) as nat).1 == fisher_yates(w, s, (w.len() - 1) as nat).1,
        shuffle_positions(v.len(), s).len() == v.len(),
        forall|k: int|
            0 <= k < v.len() ==> 0 <= #[trigger] shuffle_positions(v.len(), s)[k] < v.len()
                && fisher_yates(v, s, (v.len() - 1) as nat).0[k] == v[shuffle_positions(v.len(), s)[k]]
                && fisher_yates(w, s, (w.len() - 1) as nat).0[k] == w[shuffle_positions(v.len(), s)[k]],
{
    let n = v.len();
    let i = (n - 1) as nat;
    let id = Seq::new(n, |k: int| k);
    lemma_shuffle_tracks(v, id, v, s, i);
    lemma_shuffle_tracks(w, id, w, s, i);
}

/// A call made on a generator.
pub enum RngCall {
    /// `next_u64`.
    U64,
    /// `next_u32`.
    U32,
    /// `next_range(min, max)`.
    Range(u64, u64),
    /// `shuffle` of a slice of this many items.
    Shuffle(usize),
}

/// What one call gives from a state: the value drawn (0 for a shuffle),
/// the positions a shuffle takes each item from (none for a draw), and the
/// state after the call.
pub open spec fn rng_step(state: u64, c: RngCall) -> (u64, Seq<int>, u64) {
    match c {
        RngCall::U64 => (lcg_next(state), seq![], lcg_next(state)),
        RngCall::U32 => (lcg_next(state) / 0x1_0000_0000, seq![], lcg_next(state)),
        RngCall::Range(min, max) => if min >= max {
            (min, seq![], state)
        } else {
            (range_pick(lcg_next(state), min, max), seq![], lcg_next(state))
        },
        RngCall::Shuffle(n) => (
            0,
            shuffle_positions(n as nat, state),
            fisher_yates(Seq::new(n as nat, |k: int| k), state, (n - 1) as nat).1,
        ),
    }
}

/// What a sequence of calls gives from a state: each call's value and
/// positions, in order, and the final state.
pub open spec fn rng_run(state: u64, calls: Seq<RngCall>) -> (Seq<(u64, Seq<int>)>, u64)
    decreases calls.len(),
{
    if calls.len() == 0 {
        (seq![], state)
    } else {
        let (v, p, next) = rng_step(state, calls[0]);
        let rest = rng_run(next, calls.drop_first());
        (seq![(v, p)] + rest.0, rest.1)
    }
}

/// Two generators made with the same seed and given the same calls answer
/// each call alike (the same values, the same shuffle permutations) and end
/// in the same state: what they give depends on the seed and the calls and
/// on nothing else. Running calls one after another is running the first
/// ones, then the rest from where they left the generator.
pub proof fn same_seed_same_calls(a: u64, b: u64, first: Seq<RngCall>, then: Seq<RngCall>)
    requires
        a == b,
    ensures
        rng_run(a, first) == rng_run(b, first),
        rng_run(a, first).0.len() == first.len(),
        rng_run(a, first + then).0 == rng_run(a, first).0 + rng_run(rng_run(a, first).1, then).0,
        rng_run(a, first + then).1 == rng_run(rng_run(a, first).1, then).1,
    decreases first.len(),
{
    if first.len() > 0 {
        let next = rng_step(a, first[0]).2;
        same_seed_same_calls(next, next, first.drop_first(), then);
        assert((first + then).drop_first() =~= first.drop_first() + then);
        assert((first + then)[0] == first[0]);
        let x = seq![(rng_step(a, first[0]).0, rng_step(a, first[0]).1)];
        let r1 = rng_run(next, first.drop_first()).0;
        let r2 = rng_run(rng_run(next, first.drop_first()).1, then).0;
        assert(x + (r1 + r2) =~= (x + r1) + r2);
    } else {
        assert(first + then =~= then);
        assert(Seq::<(u64, Seq<int>)>::empty() + rng_run(a, then).0 =~= rng_run(a, then).0);
    }
}

/// A linear congruential generator: every value it gives follows from the seed.
pub struct SeededRng {
    state: u64,
}

/// The values `next_u64` draws, one after another, from a state.
pub open spec fn draws(state: u64, n: nat) -> Seq<u64>
    decreases n,
{
    if n == 0 {
        seq![]
    } else {
        seq![lcg_next(state)] + draws(lcg_next(state), (n - 1) as nat)
    }
}

/// The state after `n` draws.
pub open spec fn state_after(state: u64, n: nat) -> u64
    decreases n,
{
    if n == 0 {
        state
    } else {
        state_after(lcg_next(state), (n - 1) as nat)
    }
}

/// What a generator draws depends on its seed and on nothing else: two
/// generators made with the same seed draw the same values and reach the
/// same state; and drawing `m` values and then `n` more draws the first
/// `m + n` values of the seed's sequence.
pub proof fn same_seed_same_draws(a: u64, b: u64, m: nat, n: nat)
    requires
        a == b,
    ensures
        draws(a, m) == draws(b, m),
        state_after(a, m) == state_after(b, m),
        draws(a, m + n) == draws(a, m) + draws(state_after(a, m), n),
        state_after(a, m + n) == state_after(state_after(a, m), n),
        draws(a, m).len() == m,
    decreases m,
{
    if m > 0 {
        same_seed_same_draws(lcg_next(a), lcg_next(b), (m - 1) as nat, n);
        assert((m + n - 1) as nat == (m - 1) as nat + n);
        assert(seq![lcg_next(a)] + (draws(lcg_next(a), (m - 1) as nat) + draws(state_after(lcg_next(a), (m - 1) as nat), n))
            =~= (seq![lcg_next(a)] + draws(lcg_next(a), (m - 1) as nat)) + draws(state_after(lcg_next(a), (m - 1) as nat), n));
    } else {
        assert(draws(a, 0) + draws(a, n) =~= draws(a, n));
    }
}

proof fn draws_one(s: u64)
    ensures
        draws(s, 1) == seq![lcg_next(s)],
        state_after(s, 1) == lcg_next(s),
{
    assert(draws(s, 1) == seq![lcg_next(s)] + draws(lcg_next(s), 0));
    assert(draws(lcg_next(s), 0) =~= Seq::<u64>::empty());
    assert(seq![lcg_next(s)] + Seq::<u64>::empty() =~= seq![lcg_next(s)]);
    assert(state_after(s, 1) == state_after(lcg_next(s), 0));
}

impl SeededRng {
    /// The generator's current state.
    pub closed spec fn state(&self) -> u64 {
        self.state
    }

    /// A generator whose state is the seed.
    pub fn new(seed: u64) -> (r: SeededRng)
        ensures
            r.state() == seed,
    {
        SeededRng { state: seed }
    }

    /// Advances the state one step and returns the new state.
    pub fn next_u64(&mut self) -> (x: u64)
        ensures
            x == lcg_next(old(self).state()),
            final(self).state() == x,
            seq![x] == draws(old(self).state(), 1),
            final(self).state() == state_after(old(self).state(), 1),
            (x, Seq::<int>::empty(), final(self).state()) == rng_step(old(self).state(), RngCall::U64),
    {
        let m = self.state.wrapping_mul(LCG_MULTIPLIER);
        let x = m.wrapping_add(LCG_INCREMENT);
        proof {
            let s = old(self).state as int;
            let md = 0x1_0000_0000_0000_0000int;
            lemma_add_mod_noop(s * LCG_MULTIPLIER, LCG_INCREMENT as int, md);
            assert((LCG_INCREMENT as int) % md == LCG_INCREMENT as int);
            assert((m as int) % md == m as int);
            assert(x as int == ((m as int) + (LCG_INCREMENT as int)) % md);
        }
        self.state = x;
        proof {
            draws_one(old(self).state);
        }
        x
    }

    /// The upper half of the next draw.
    pub fn next_u32(&mut self) -> (x: u32)
        ensures
            x == lcg_next(old(self).state()) / 0x1_0000_0000,
            final(self).state() == lcg_next(old(self).state()),
            (x as u64, Seq::<int>::empty(), final(self).state()) == rng_step(old(self).state(), RngCall::U32),
    {
        let v = self.next_u64();
        let h = v >> 32u64;
        assert(h == v / 0x1_0000_0000) by (bit_vector)
            requires
                h == v >> 32u64,
        ;
        h as u32
    }

    /// A draw from `[min, max)`; an empty range gives `min` and leaves the generator as it was.
    pub fn next_range(&mut self, min: u64, max: u64) -> (x: u64)
        ensures
            min >= max ==> x == min && final(self).state() == old(self).state(),
            min < max ==> x == range_pick(lcg_next(old(self).state()), min, max),
            min < max ==> final(self).state() == lcg_next(old(self).state()),
            min < max ==> min <= x < max,
            (x, Seq::<int>::empty(), final(self).state()) == rng_step(old(self).state(), RngCall::Range(min, max)),
    {
        if min >= max {
            return min;
        }
        let v = self.next_u64();
        min + v % (max - min)
    }

    /// Shuffles the slice in place (Fisher-Yates, from the last position down):
    /// the same state always gives the same order, and no element is lost or added.
    pub fn shuffle<T>(&mut self, slice: &mut [T])
        ensures
            final(slice)@ == fisher_yates(old(slice)@, old(self).state(), (old(slice)@.len() - 1) as nat).0,
            final(self).state() == fisher_yates(old(slice)@, old(self).state(), (old(slice)@.len() - 1) as nat).1,
            final(slice)@.to_multiset() == old(slice)@.to_multiset(),
            final(self).state() == rng_step(old(self).state(), RngCall::Shuffle(old(slice)@.len() as usize)).2,
            forall|k: int|
                0 <= k < old(slice)@.len() ==> final(slice)@[k] == old(slice)@[#[trigger] rng_step(
                    old(self).state(),
                    RngCall::Shuffle(old(slice)@.len() as usize),
                ).1[k]],
    {
        let n = slice.len();
        proof {
            shuffle_is_permutation(slice@, self.state, (n - 1) as nat);
            same_state_same_shuffle(slice@, Seq::new(n as nat, |k: int| k), self.state);
        }
        if n < 2 {
            return;
        }
        let mut i: usize = n - 1;
        while i >= 1
            invariant
                n == slice@.len(),
                n >= 2,
                i <= n - 1,
                fisher_yates(slice@, self.state, i as nat) == fisher_yates(
                    old(slice)@,
                    old(self).state(),
                    (n - 1) as nat,
                ),
            decreases i,
        {
            let ghost before = slice@;
            let ghost s0 = self.state;
            let j = self.next_range(0, (i + 1) as u64) as usize;
            swap_in(slice, i, j);
            assert(slice@ == before.update(i as int, before[j as int]).update(j as int, before[i as int]));
            i -= 1;
        }
    }
}


/// Why a replay step was refused. Reading and writing recordings happens
/// outside this library; its failures are carried as messages.
#[derive(Debug)]
pub enum DeterministicError {
    NotFound(String),
    Mismatch,
    Io(String),
    Serialization(String),
}

/// A recorded tool call. `call_id` is the call's UUID as a number and
/// `timestamp` is in milliseconds since the Unix epoch.
#[derive(Debug)]
pub struct ToolCallRecord {
    pub call_id: u128,
    pub tool_name: String,
    pub parameters: serde_json::Value,
    pub result: serde_json::Value,
    pub timestamp: i64,
    pub duration_ms: u64,
}

/// A recorded tool call as plain values.
pub struct ToolCallView {
    pub call_id: u128,
    pub tool_name: Seq<char>,
    pub parameters: serde_json::Value,
    pub result: serde_json::Value,
    pub timestamp: i64,
    pub duration_ms: u64,
}

impl View for ToolCallRecord {
    type V = ToolCallView;

    open spec fn view(&self) -> ToolCallView {
        ToolCallView {
            call_id: self.call_id,
            tool_name: self.tool_name@,
            parameters: self.parameters,
            result: self.result,
            timestamp: self.timestamp,
            duration_ms: self.duration_ms,
        }
    }
}

/// A recorded model call.
#[derive(Debug)]
pub struct LlmCallRecord {
    pub call_id: u128,
    pub prompt_hash: String,
    pub seed: u64,
    pub response: String,
    pub timestamp: i64,
}

/// One line of a recording.
#[derive(Debug)]
pub enum RecordEntry {
    ToolCall(ToolCallRecord),
    LlmCall(LlmCallRecord),
}

/// A difference found between a recorded run and a replayed one.
#[derive(Debug)]
pub struct Discrepancy {
    pub tool_name: String,
    pub field: String,
    pub recorded: serde_json::Value,
    pub actual: serde_json::Value,
}

/// What `serde_json::to_string` writes for a value (`None` if it fails).
pub uninterp spec fn json_text(v: serde_json::Value) -> Option<Seq<char>>;

/// What std's `DefaultHasher`, made with `DefaultHasher::new`, gives for a string.
/// std fixes its keys for every hasher made with `new`, but not its algorithm
/// across Rust releases: the name holds for one build of the library.
pub uninterp spec fn default_hash(s: Seq<char>) -> u64;

/// Whether `serde_json::Value`'s `==` holds between two values.
pub uninterp spec fn json_equal(a: serde_json::Value, b: serde_json::Value) -> bool;

/// What `{:?}` writes for a value.
pub uninterp spec fn json_debug(v: serde_json::Value) -> Seq<char>;

/// The value `serde_json::Value::String` of a text.
pub uninterp spec fn json_string_value(s: Seq<char>) -> serde_json::Value;

/// The value `serde_json::Value::Number` of a count.
pub uninterp spec fn json_count_value(n: usize) -> serde_json::Value;

/// Writes a value as JSON text with `serde_json::to_string` (`None` when it
/// fails).
#[verifier::external_body]
fn to_json_text(v: &serde_json::Value) -> (s: Option<String>)
    ensures
        json_text(*v) == match s {
            Some(t) => Some(t@),
            None => None::<Seq<char>>,
        },
{
    serde_json::to_string(v).ok()
}

/// Hashes a string with a `DefaultHasher` made by `DefaultHasher::new`: the
/// three calls of std's hashing idiom (new, `Hash::hash`, `Hasher::finish`)
/// stand together, since a hasher's state between them has no plain value
/// to state a contract over.
#[verifier::external_body]
fn hash_text(s: &str) -> (h: u64)
    ensures
        h == default_hash(s@),
{
    let mut h = std::collections::hash_map::DefaultHasher::new();
    std::hash::Hash::hash(s, &mut h);
    std::hash::Hasher::finish(&h)
}

/// Compares two values with `serde_json::Value`'s `==`.
#[verifier::external_body]
fn json_eq(a: &serde_json::Value, b: &serde_json::Value) -> (r: bool)
    ensures
        r == json_equal(*a, *b),
{
    a == b
}

/// Writes a value with `{:?}`.
#[verifier::external_body]
fn json_debug_text(v: &serde_json::Value) -> (s: String)
    ensures
        s@ == json_debug(*v),
{
    format!("{:?}", v)
}

/// Makes `serde_json::Value::String`.
#[verifier::external_body]
fn json_string(s: String) -> (v: serde_json::Value)
    ensures
        v == json_string_value(s@),
{
    serde_json::Value::String(s)
}

/// Makes `serde_json::Value::Number` from a count.
#[verifier::external_body]
fn json_count(n: usize) -> (v: serde_json::Value)
    ensures
        v == json_count_value(n),
{
    serde_json::Value::Number(n.into())
}

/// A copy of a value, with `serde_json::Value::clone`: the same value.
#[verifier::external_body]
pub(crate) fn json_clone(v: &serde_json::Value) -> (c: serde_json::Value)
    ensures
        c == *v,
{
    v.clone()
}


/// Lower-case hexadecimal digits of a number, without leading zeros (`{:x}`).
pub open spec fn lower_hex(n: nat) -> Seq<char>
    decreases n,
{
    if n < 16 {
        seq![hex_char(n as int)]
    } else {
        lower_hex(n / 16).push(hex_char((n % 16) as int))
    }
}

/// The fingerprint under which a call's parameters are indexed: the
/// hexadecimal `DefaultHasher` hash of their JSON text (of the empty text
/// when they cannot be written).
pub open spec fn param_hash(v: serde_json::Value) -> Seq<char> {
    lower_hex(
        default_hash(
            match json_text(v) {
                Some(t) => t,
                None => Seq::<char>::empty(),
            },
        ) as nat,
    )
}

/// Writes a number in lower-case hexadecimal.
fn u64_to_hex(n: u64) -> (s: String)
    ensures
        s@ == lower_hex(n as nat),
    decreases n,
{
    if n < 16 {
        let mut s = String::new();
        push_char(&mut s, hex_digit_char(n as u8));
        s
    } else {
        let mut s = u64_to_hex(n / 16);
        push_char(&mut s, hex_digit_char((n % 16) as u8));
        s
    }
}

/// The fingerprint of a call's parameters.
fn hash_params(params: &serde_json::Value) -> (h: String)
    ensures
        h@ == param_hash(*params),
{
    let text = match to_json_text(params) {
        Some(t) => t,
        None => String::new(),
    };
    u64_to_hex(hash_text(text.as_str()))
}

/// A difference as plain values.
pub struct DiscrepancyView {
    pub tool_name: Seq<char>,
    pub field: Seq<char>,
    pub recorded: serde_json::Value,
    pub actual: serde_json::Value,
}

impl View for Discrepancy {
    type V = DiscrepancyView;

    open spec fn view(&self) -> DiscrepancyView {
        DiscrepancyView {
            tool_name: self.tool_name@,
            field: self.field@,
            recorded: self.recorded,
            actual: self.actual,
        }
    }
}

/// The differences between one recorded call and the call replayed in its
/// place: a different tool is reported alone; otherwise a different result
/// and different parameters are each reported.
pub open spec fn call_discrepancies(rec: ToolCallView, act: ToolCallView) -> Seq<DiscrepancyView> {
    if rec.tool_name != act.tool_name {
        seq![
            DiscrepancyView {
                tool_name: rec.tool_name,
                field: "tool_name"@,
                recorded: json_string_value(rec.tool_name),
                actual: json_string_value(act.tool_name),
            },
        ]
    } else {
        (if !json_equal(rec.result, act.result) {
            seq![
                DiscrepancyView {
                    tool_name: rec.tool_name,
                    field: "result"@,
                    recorded: rec.result,
                    actual: act.result,
                },
            ]
        } else {
            Seq::empty()
        }) + (if param_hash(rec.parameters) != param_hash(act.parameters) {
            seq![
                DiscrepancyView {
                    tool_name: rec.tool_name,
                    field: "parameters"@,
                    recorded: rec.parameters,
                    actual: act.parameters,
                },
            ]
        } else {
            Seq::empty()
        })
    }
}

/// The differences of the first `n` pairs of calls, in order.
pub open spec fn paired_discrepancies(rec: Seq<ToolCallView>, act: Seq<ToolCallView>, n: nat) -> Seq<DiscrepancyView>
    decreases n,
{
    if n == 0 {
        Seq::empty()
    } else {
        paired_discrepancies(rec, act, (n - 1) as nat) + call_discrepancies(rec[n - 1], act[n - 1])
    }
}

/// All differences between a recorded run and a replayed one: those of the
/// calls paired in order, then a different number of calls.
pub open spec fn replay_discrepancies(rec: Seq<ToolCallView>, act: Seq<ToolCallView>) -> Seq<DiscrepancyView> {
    let n = if rec.len() < act.len() { rec.len() } else { act.len() };
    paired_discrepancies(rec, act, n) + if rec.len() != act.len() {
        seq![
            DiscrepancyView {
                tool_name: "N/A"@,
                field: "call_count"@,
                recorded: json_count_value(rec.len() as usize),
                actual: json_count_value(act.len() as usize),
            },
        ]
    } else {
        Seq::empty()
    }
}

proof fn lemma_pair_listed(rec: Seq<ToolCallView>, act: Seq<ToolCallView>, n: nat, i: int, x: DiscrepancyView)
    requires
        0 <= i < n,
        call_discrepancies(rec[i], act[i]).contains(x),
    ensures
        paired_discrepancies(rec, act, n).contains(x),
    decreases n,
{
    let prev = paired_discrepancies(rec, act, (n - 1) as nat);
    let here = call_discrepancies(rec[n - 1], act[n - 1]);
    assert(paired_discrepancies(rec, act, n) == prev + here);
    if i == n - 1 {
        let k = choose|k: int| 0 <= k < here.len() && here[k] == x;
        assert((prev + here)[prev.len() + k] == x);
    } else {
        lemma_pair_listed(rec, act, (n - 1) as nat, i, x);
        let k = choose|k: int| 0 <= k < prev.len() && prev[k] == x;
        assert((prev + here)[k] == x);
    }
}

proof fn lemma_pairs_clean(rec: Seq<ToolCallView>, act: Seq<ToolCallView>, n: nat, i: int)
    requires
        0 <= i < n,
        paired_discrepancies(rec, act, n).len() == 0,
    ensures
        call_discrepancies(rec[i], act[i]).len() == 0,
    decreases n,
{
    if i < n - 1 {
        if call_discrepancies(rec[i], act[i]).len() > 0 {
            let x = call_discrepancies(rec[i], act[i])[0];
            assert(call_discrepancies(rec[i], act[i]).contains(x));
            lemma_pair_listed(rec, act, n, i, x);
        }
    } else {
        assert(paired_discrepancies(rec, act, n) == paired_discrepancies(rec, act, (n - 1) as nat)
            + call_discrepancies(rec[n - 1], act[n - 1]));
    }
}

/// The report of a replay misses no difference: every pair of calls (in
/// order) of different tools gets a `tool_name` discrepancy; of the same
/// tool, different results get a `result` discrepancy and parameters with
/// different fingerprints a `parameters` discrepancy; and an empty report
/// means the runs made as many calls, each of the same tool, with an equal
/// result and parameters of the same fingerprint.
pub proof fn replay_reports_every_difference(rec: Seq<ToolCallView>, act: Seq<ToolCallView>)
    ensures
        forall|i: int|
            0 <= i < rec.len() && i < act.len() && rec[i].tool_name != act[i].tool_name ==> #[trigger] replay_discrepancies(
                rec,
                act,
            ).contains(
                DiscrepancyView {
                    tool_name: rec[i].tool_name,
                    field: "tool_name"@,
                    recorded: json_string_value(rec[i].tool_name),
                    actual: json_string_value(act[i].tool_name),
                },
            ),
        forall|i: int|
            0 <= i < rec.len() && i < act.len() && rec[i].tool_name == act[i].tool_name && !json_equal(
                rec[i].result,
                act[i].result,
            ) ==> #[trigger] replay_discrepancies(rec, act).contains(
                DiscrepancyView {
                    tool_name: rec[i].tool_name,
                    field: "result"@,
                    recorded: rec[i].result,
                    actual: act[i].result,
                },
            ),
        forall|i: int|
            0 <= i < rec.len() && i < act.len() && rec[i].tool_name == act[i].tool_name && param_hash(
                rec[i].parameters,
            ) != param_hash(act[i].parameters) ==> #[trigger] replay_discrepancies(rec, act).contains(
                DiscrepancyView {
                    tool_name: rec[i].tool_name,
                    field: "parameters"@,
                    recorded: rec[i].parameters,
                    actual: act[i].parameters,
                },
            ),
        replay_discrepancies(rec, act).len() == 0 ==> rec.len() == act.len(),
        replay_discrepancies(rec, act).len() == 0 ==> forall|i: int|
            0 <= i < rec.len() ==> #[trigger] rec[i].tool_name == act[i].tool_name && json_equal(
                rec[i].result,
                act[i].result,
            ) && param_hash(rec[i].parameters) == param_hash(act[i].parameters),
{
    let n: nat = if rec.len() < act.len() {
        rec.len()
    } else {
        act.len()
    };
    let paired = paired_discrepancies(rec, act, n);
    let all = replay_discrepancies(rec, act);
    let tail = if rec.len() != act.len() {
        seq![
            DiscrepancyView {
                tool_name: "N/A"@,
                field: "call_count"@,
                recorded: json_count_value(rec.len() as usize),
                actual: json_count_value(act.len() as usize),
            },
        ]
    } else {
        Seq::<DiscrepancyView>::empty()
    };
    assert(all == paired + tail);
    assert forall|x: DiscrepancyView| paired.contains(x) implies all.contains(x) by {
        let k = choose|k: int| 0 <= k < paired.len() && paired[k] == x;
        assert(all[k] == x);
    }
    assert forall|i: int|
        0 <= i < rec.len() && i < act.len() && rec[i].tool_name != act[i].tool_name implies #[trigger] all.contains(
            DiscrepancyView {
                tool_name: rec[i].tool_name,
                field: "tool_name"@,
                recorded: json_string_value(rec[i].tool_name),
                actual: json_string_value(act[i].tool_name),
            },
        ) by {
        let x = DiscrepancyView {
            tool_name: rec[i].tool_name,
            field: "tool_name"@,
            recorded: json_string_value(rec[i].tool_name),
            actual: json_string_value(act[i].tool_name),
        };
        assert(call_discrepancies(rec[i], act[i])[0] == x);
        lemma_pair_listed(rec, act, n, i, x);
    }
    assert forall|i: int|
        0 <= i < rec.len() && i < act.len() && rec[i].tool_name == act[i].tool_name && !json_equal(
            rec[i].result,
            act[i].result,
        ) implies #[trigger] all.contains(
            DiscrepancyView { tool_name: rec[i].tool_name, field: "result"@, recorded: rec[i].result, actual: act[i].result },
        ) by {
        let x = DiscrepancyView {
            tool_name: rec[i].tool_name,
            field: "result"@,
            recorded: rec[i].result,
            actual: act[i].result,
        };
        assert(call_discrepancies(rec[i], act[i])[0] == x);
        lemma_pair_listed(rec, act, n, i, x);
    }
    assert forall|i: int|
        0 <= i < rec.len() && i < act.len() && rec[i].tool_name == act[i].tool_name && param_hash(
            rec[i].parameters,
        ) != param_hash(act[i].parameters) implies #[trigger] all.contains(
            DiscrepancyView {
                tool_name: rec[i].tool_name,
                field: "parameters"@,
                recorded: rec[i].parameters,
                actual: act[i].parameters,
            },
        ) by {
        let x = DiscrepancyView {
            tool_name: rec[i].tool_name,
            field: "parameters"@,
            recorded: rec[i].parameters,
            actual: act[i].parameters,
        };
        let c = call_discrepancies(rec[i], act[i]);
        assert(c.last() == x);
        assert(c.contains(x)) by {
            assert(c[c.len() - 1] == x);
        }
        lemma_pair_listed(rec, act, n, i, x);
    }
    if all.len() == 0 {
        assert(tail.len() == 0);
        assert forall|i: int| 0 <= i < rec.len() implies #[trigger] rec[i].tool_name == act[i].tool_name
            && json_equal(rec[i].result, act[i].result) && param_hash(rec[i].parameters) == param_hash(
            act[i].parameters,
        ) by {
            lemma_pairs_clean(rec, act, n, i);
        }
    }
}

/// The calls as plain values.
pub open spec fn call_views(v: Seq<ToolCallRecord>) -> Seq<ToolCallView> {
    v.map_values(|r: ToolCallRecord| r@)
}

/// The differences as plain values.
pub open spec fn discrepancy_views(v: Seq<Discrepancy>) -> Seq<DiscrepancyView> {
    v.map_values(|d: Discrepancy| d@)
}

/// Appends the differences of one pair of calls.
fn push_call_discrepancies(out: &mut Vec<Discrepancy>, rec: &ToolCallRecord, act: &ToolCallRecord)
    ensures
        discrepancy_views(final(out)@) == discrepancy_views(old(out)@) + call_discrepancies(rec@, act@),
{
    let ghost before = discrepancy_views(out@);
    if !str_eq(rec.tool_name.as_str(), act.tool_name.as_str()) {
        let d = Discrepancy {
            tool_name: rec.tool_name.clone(),
            field: String::from_str("tool_name"),
            recorded: json_string(rec.tool_name.clone()),
            actual: json_string(act.tool_name.clone()),
        };
        out.push(d);
        assert(discrepancy_views(out@) =~= before + call_discrepancies(rec@, act@));
        return;
    }
    let ghost mut mid = before;
    if !json_eq(&rec.result, &act.result) {
        let d = Discrepancy {
            tool_name: rec.tool_name.clone(),
            field: String::from_str("result"),
            recorded: json_clone(&rec.result),
            actual: json_clone(&act.result),
        };
        out.push(d);
        proof {
            mid = before.push(d@);
        }
        assert(discrepancy_views(out@) =~= mid);
    } else {
        assert(discrepancy_views(out@) =~= mid);
    }
    let hr = hash_params(&rec.parameters);
    let ha = hash_params(&act.parameters);
    if !str_eq(hr.as_str(), ha.as_str()) {
        let d = Discrepancy {
            tool_name: rec.tool_name.clone(),
            field: String::from_str("parameters"),
            recorded: json_clone(&rec.parameters),
            actual: json_clone(&act.parameters),
        };
        out.push(d);
        assert(discrepancy_views(out@) =~= mid.push(d@));
    }
    assert(discrepancy_views(out@) =~= before + call_discrepancies(rec@, act@));
}


/// A recorded model call as plain values.
pub struct LlmCallView {
    pub call_id: u128,
    pub prompt_hash: Seq<char>,
    pub seed: u64,
    pub response: Seq<char>,
    pub timestamp: i64,
}

impl View for LlmCallRecord {
    type V = LlmCallView;

    open spec fn view(&self) -> LlmCallView {
        LlmCallView {
            call_id: self.call_id,
            prompt_hash: self.prompt_hash@,
            seed: self.seed,
            response: self.response@,
            timestamp: self.timestamp,
        }
    }
}

/// A line of a recording as plain values.
pub enum RecordEntryView {
    ToolCall(ToolCallView),
    LlmCall(LlmCallView),
}

impl View for RecordEntry {
    type V = RecordEntryView;

    open spec fn view(&self) -> RecordEntryView {
        match self {
            RecordEntry::ToolCall(r) => RecordEntryView::ToolCall(r@),
            RecordEntry::LlmCall(r) => RecordEntryView::LlmCall(r@),
        }
    }
}

/// The lines of a recording as plain values.
pub open spec fn entry_views(v: Seq<RecordEntry>) -> Seq<RecordEntryView> {
    v.map_values(|e: RecordEntry| e@)
}

/// The recorded calls of tool `name` whose parameters have fingerprint `hash`, in recording order.
pub open spec fn calls_for(es: Seq<RecordEntryView>, name: Seq<char>, hash: Seq<char>) -> Seq<ToolCallView>
    decreases es.len(),
{
    if es.len() == 0 {
        Seq::empty()
    } else {
        let rest = calls_for(es.drop_last(), name, hash);
        match es.last() {
            RecordEntryView::ToolCall(r) => if r.tool_name == name && param_hash(r.parameters) == hash {
                rest.push(r)
            } else {
                rest
            },
            RecordEntryView::LlmCall(_) => rest,
        }
    }
}

/// The last recorded model call for the prompt fingerprint, if any.
pub open spec fn last_llm_call(es: Seq<RecordEntryView>, prompt_hash: Seq<char>) -> Option<LlmCallView>
    decreases es.len(),
{
    if es.len() == 0 {
        None
    } else {
        match es.last() {
            RecordEntryView::LlmCall(r) => if r.prompt_hash == prompt_hash {
                Some(r)
            } else {
                last_llm_call(es.drop_last(), prompt_hash)
            },
            RecordEntryView::ToolCall(_) => last_llm_call(es.drop_last(), prompt_hash),
        }
    }
}

/// The recorded calls of one tool with one parameter fingerprint, and the
/// position of the next one to replay.
struct ToolGroup {
    tool_name: String,
    param_hash: String,
    records: Vec<ToolCallRecord>,
    cursor: usize,
}

/// A group as plain values.
pub struct ToolGroupView {
    pub tool_name: Seq<char>,
    pub param_hash: Seq<char>,
    pub records: Seq<ToolCallView>,
    pub cursor: int,
}

impl View for ToolGroup {
    type V = ToolGroupView;

    closed spec fn view(&self) -> ToolGroupView {
        ToolGroupView {
            tool_name: self.tool_name@,
            param_hash: self.param_hash@,
            records: call_views(self.records@),
            cursor: self.cursor as int,
        }
    }
}

/// A group is found under the tool name and fingerprint.
pub open spec fn has_key(gs: Seq<ToolGroupView>, name: Seq<char>, hash: Seq<char>) -> bool {
    exists|k: int| 0 <= k < gs.len() && gs[k].tool_name == name && gs[k].param_hash == hash
}

/// Where the group with the tool name and fingerprint is (meaningful when there is one).
pub open spec fn key_position(gs: Seq<ToolGroupView>, name: Seq<char>, hash: Seq<char>) -> int {
    choose|k: int| 0 <= k < gs.len() && gs[k].tool_name == name && gs[k].param_hash == hash
}

/// No two groups share a tool name and fingerprint; every group holds a call
/// and points at one of them.
pub open spec fn groups_wf(gs: Seq<ToolGroupView>) -> bool {
    &&& forall|a: int, b: int|
        0 <= a < gs.len() && 0 <= b < gs.len() && a != b ==> !(gs[a].tool_name == gs[b].tool_name
            && gs[a].param_hash == gs[b].param_hash)
    &&& forall|k: int| 0 <= k < gs.len() ==> 0 <= #[trigger] gs[k].cursor < gs[k].records.len()
}

/// The model calls hold no prompt fingerprint twice.
pub open spec fn llm_wf(ls: Seq<LlmCallView>) -> bool {
    forall|a: int, b: int|
        0 <= a < ls.len() && 0 <= b < ls.len() && a != b ==> ls[a].prompt_hash != ls[b].prompt_hash
}

/// The model call kept for the prompt fingerprint, if any.
pub open spec fn llm_for(ls: Seq<LlmCallView>, prompt_hash: Seq<char>) -> Option<LlmCallView> {
    if exists|k: int| 0 <= k < ls.len() && ls[k].prompt_hash == prompt_hash {
        Some(ls[choose|k: int| 0 <= k < ls.len() && ls[k].prompt_hash == prompt_hash])
    } else {
        None
    }
}

/// Replays a recording: each tool call is answered with the recorded result
/// of the same tool with the same parameters, in recorded order, the last one
/// repeating; each model call with the last response recorded for its prompt.
pub struct ExecutionReplayer {
    tool_index: Vec<ToolGroup>,
    llm_index: Vec<LlmCallRecord>,
}

impl ExecutionReplayer {
    /// The groups of tool calls, in order of first appearance.
    pub closed spec fn groups(&self) -> Seq<ToolGroupView> {
        self.tool_index@.map_values(|g: ToolGroup| g@)
    }

    /// The model calls kept, one per prompt fingerprint.
    pub closed spec fn llm_calls(&self) -> Seq<LlmCallView> {
        self.llm_index@.map_values(|r: LlmCallRecord| r@)
    }

    pub open spec fn wf(&self) -> bool {
        groups_wf(self.groups()) && llm_wf(self.llm_calls())
    }

    /// Compares a recorded run with a replayed one, call by call in order.
    pub fn verify_replay(&self, recorded: &[ToolCallRecord], actual: &[ToolCallRecord]) -> (d: Vec<Discrepancy>)
        ensures
            discrepancy_views(d@) == replay_discrepancies(call_views(recorded@), call_views(actual@)),
    {
        let n = if recorded.len() < actual.len() { recorded.len() } else { actual.len() };
        let mut out: Vec<Discrepancy> = Vec::new();
        let mut i: usize = 0;
        while i < n
            invariant
                n <= recorded@.len(),
                n <= actual@.len(),
                i <= n,
                discrepancy_views(out@) == paired_discrepancies(
                    call_views(recorded@),
                    call_views(actual@),
                    i as nat,
                ),
            decreases n - i,
        {
            push_call_discrepancies(&mut out, &recorded[i], &actual[i]);
            i += 1;
        }
        if recorded.len() != actual.len() {
            let d = Discrepancy {
                tool_name: String::from_str("N/A"),
                field: String::from_str("call_count"),
                recorded: json_count(recorded.len()),
                actual: json_count(actual.len()),
            };
            let ghost before = discrepancy_views(out@);
            out.push(d);
            assert(discrepancy_views(out@) =~= before.push(d@));
        } else {
            assert(discrepancy_views(out@) =~= discrepancy_views(out@) + Seq::<DiscrepancyView>::empty());
        }
        out
    }
}


/// The groups hold, for every tool name and fingerprint, exactly the calls
/// of `es` under them, none yet replayed.
pub open spec fn groups_agree(gs: Seq<ToolGroupView>, es: Seq<RecordEntryView>) -> bool {
    &&& groups_wf(gs)
    &&& forall|k: int|
        0 <= k < gs.len() ==> #[trigger] gs[k].cursor == 0 && gs[k].records == calls_for(
            es,
            gs[k].tool_name,
            gs[k].param_hash,
        )
    &&& forall|name: Seq<char>, hash: Seq<char>|
        #[trigger] calls_for(es, name, hash).len() > 0 ==> has_key(gs, name, hash)
}

/// The model calls kept are, for every prompt fingerprint, the last one of `es`.
pub open spec fn llm_agree(ls: Seq<LlmCallView>, es: Seq<RecordEntryView>) -> bool {
    &&& llm_wf(ls)
    &&& forall|ph: Seq<char>| #[trigger] llm_for(ls, ph) == last_llm_call(es, ph)
}

proof fn lemma_calls_for_push(es: Seq<RecordEntryView>, e: RecordEntryView, name: Seq<char>, hash: Seq<char>)
    ensures
        calls_for(es.push(e), name, hash) == match e {
            RecordEntryView::ToolCall(r) => if r.tool_name == name && param_hash(r.parameters) == hash {
                calls_for(es, name, hash).push(r)
            } else {
                calls_for(es, name, hash)
            },
            RecordEntryView::LlmCall(_) => calls_for(es, name, hash),
        },
{
    assert(es.push(e).drop_last() =~= es);
}

proof fn lemma_last_llm_push(es: Seq<RecordEntryView>, e: RecordEntryView, ph: Seq<char>)
    ensures
        last_llm_call(es.push(e), ph) == match e {
            RecordEntryView::LlmCall(r) => if r.prompt_hash == ph {
                Some(r)
            } else {
                last_llm_call(es, ph)
            },
            RecordEntryView::ToolCall(_) => last_llm_call(es, ph),
        },
{
    assert(es.push(e).drop_last() =~= es);
}

/// A copy of a recorded call.
fn clone_call(r: &ToolCallRecord) -> (c: ToolCallRecord)
    ensures
        c@ == r@,
{
    ToolCallRecord {
        call_id: r.call_id,
        tool_name: r.tool_name.clone(),
        parameters: json_clone(&r.parameters),
        result: json_clone(&r.result),
        timestamp: r.timestamp,
        duration_ms: r.duration_ms,
    }
}

/// Where the group of the tool name and fingerprint is, if there is one.
fn find_group(gs: &Vec<ToolGroup>, name: &str, hash: &str) -> (r: Option<usize>)
    ensures
        match r {
            Some(k) => k < gs@.len() && gs@[k as int]@.tool_name == name@ && gs@[k as int]@.param_hash
                == hash@,
            None => !has_key(gs@.map_values(|g: ToolGroup| g@), name@, hash@),
        },
{
    let ghost views = gs@.map_values(|g: ToolGroup| g@);
    let mut k: usize = 0;
    while k < gs.len()
        invariant
            k <= gs@.len(),
            views == gs@.map_values(|g: ToolGroup| g@),
            forall|j: int| 0 <= j < k ==> !(views[j].tool_name == name@ && views[j].param_hash == hash@),
        decreases gs@.len() - k,
    {
        if str_eq(gs[k].tool_name.as_str(), name) && str_eq(gs[k].param_hash.as_str(), hash) {
            return Some(k);
        }
        k += 1;
    }
    None
}

/// Files a recorded tool call under its tool name and fingerprint.
fn add_tool_call(gs: &mut Vec<ToolGroup>, r: ToolCallRecord, Ghost(es): Ghost<Seq<RecordEntryView>>)
    requires
        groups_agree(old(gs)@.map_values(|g: ToolGroup| g@), es),
    ensures
        groups_agree(
            final(gs)@.map_values(|g: ToolGroup| g@),
            es.push(RecordEntryView::ToolCall(r@)),
        ),
{
    let ghost old_views = gs@.map_values(|g: ToolGroup| g@);
    let ghost e = RecordEntryView::ToolCall(r@);
    let ghost es2 = es.push(e);
    let h = hash_params(&r.parameters);
    let found = find_group(gs, r.tool_name.as_str(), h.as_str());
    assert(found matches Some(k) ==> old_views[k as int].tool_name == r@.tool_name
        && old_views[k as int].param_hash == param_hash(r@.parameters));
    proof {
        assert forall|name: Seq<char>, hash: Seq<char>| true implies calls_for(es2, name, hash) == (
            if r@.tool_name == name && param_hash(r@.parameters) == hash {
                calls_for(es, name, hash).push(r@)
            } else {
                calls_for(es, name, hash)
            }) by {
            lemma_calls_for_push(es, e, name, hash);
        }
    }
    match found {
        Some(k) => {
            let mut g = gs.remove(k);
            g.records.push(r);
            gs.insert(k, g);
            proof {
                let nv = gs@.map_values(|g: ToolGroup| g@);
                assert(nv =~= old_views.update(k as int, g@));
                assert forall|a: int, b: int|
                    0 <= a < nv.len() && 0 <= b < nv.len() && a != b implies !(nv[a].tool_name
                    == nv[b].tool_name && nv[a].param_hash == nv[b].param_hash) by {
                    assert(nv[a].tool_name == old_views[a].tool_name && nv[a].param_hash == old_views[a].param_hash);
                    assert(nv[b].tool_name == old_views[b].tool_name && nv[b].param_hash == old_views[b].param_hash);
                }
                assert forall|j: int| 0 <= j < nv.len() implies #[trigger] nv[j].cursor == 0
                    && nv[j].records == calls_for(es2, nv[j].tool_name, nv[j].param_hash) by {
                    lemma_calls_for_push(es, e, nv[j].tool_name, nv[j].param_hash);
                    assert(old_views[j].cursor == 0);
                    if j == k {
                        assert(nv[j].records =~= old_views[j].records.push(r@));
                    } else {
                        assert(!(old_views[j].tool_name == old_views[k as int].tool_name
                            && old_views[j].param_hash == old_views[k as int].param_hash));
                        assert(nv[j] == old_views[j]);
                        if r@.tool_name == nv[j].tool_name && param_hash(r@.parameters) == nv[j].param_hash {
                            assert(false);
                        }
                    }
                }
                assert forall|name: Seq<char>, hash: Seq<char>|
                    #[trigger] calls_for(es2, name, hash).len() > 0 implies has_key(nv, name, hash) by {
                    if r@.tool_name == name && param_hash(r@.parameters) == hash {
                        assert(nv[k as int].tool_name == name && nv[k as int].param_hash == hash);
                    } else {
                        assert(calls_for(es, name, hash).len() > 0);
                        let j = choose|j: int| 0 <= j < old_views.len() && old_views[j].tool_name == name
                            && old_views[j].param_hash == hash;
                        assert(nv[j].tool_name == name && nv[j].param_hash == hash);
                    }
                }
            }
        },
        None => {
            let ghost rv = r@;
            let name = r.tool_name.clone();
            let mut records: Vec<ToolCallRecord> = Vec::new();
            records.push(r);
            let g = ToolGroup { tool_name: name, param_hash: h, records, cursor: 0 };
            gs.push(g);
            proof {
                let nv = gs@.map_values(|g: ToolGroup| g@);
                let n = old_views.len() as int;
                assert(nv =~= old_views.push(g@));
                assert(!has_key(old_views, rv.tool_name, param_hash(rv.parameters)));
                assert(calls_for(es, rv.tool_name, param_hash(rv.parameters)).len() == 0);
                assert(g@.records =~= seq![rv]);
                assert(calls_for(es, rv.tool_name, param_hash(rv.parameters)).push(rv) =~= seq![rv]);
                assert forall|a: int, b: int|
                    0 <= a < nv.len() && 0 <= b < nv.len() && a != b implies !(nv[a].tool_name
                    == nv[b].tool_name && nv[a].param_hash == nv[b].param_hash) by {
                    if a < n && b < n {
                        assert(nv[a] == old_views[a] && nv[b] == old_views[b]);
                    } else if a < n {
                        assert(nv[a] == old_views[a]);
                    } else {
                        assert(nv[b] == old_views[b]);
                    }
                }
                assert forall|j: int| 0 <= j < nv.len() implies #[trigger] nv[j].cursor == 0
                    && nv[j].records == calls_for(es2, nv[j].tool_name, nv[j].param_hash) by {
                    if j < n {
                        assert(nv[j] == old_views[j]);
                        if rv.tool_name == nv[j].tool_name && param_hash(rv.parameters) == nv[j].param_hash {
                            assert(false);
                        }
                    }
                }
                assert forall|name: Seq<char>, hash: Seq<char>|
                    #[trigger] calls_for(es2, name, hash).len() > 0 implies has_key(nv, name, hash) by {
                    if rv.tool_name == name && param_hash(rv.parameters) == hash {
                        assert(nv[n].tool_name == name && nv[n].param_hash == hash);
                    } else {
                        assert(calls_for(es, name, hash).len() > 0);
                        let j = choose|j: int| 0 <= j < old_views.len() && old_views[j].tool_name == name
                            && old_views[j].param_hash == hash;
                        assert(nv[j].tool_name == name && nv[j].param_hash == hash);
                    }
                }
            }
        },
    }
}


/// The model calls as plain values.
pub open spec fn llm_views(v: Seq<LlmCallRecord>) -> Seq<LlmCallView> {
    v.map_values(|r: LlmCallRecord| r@)
}

/// In a list without repeated prompt fingerprints, position `k` is what is kept for its fingerprint.
proof fn lemma_llm_for_at(ls: Seq<LlmCallView>, k: int)
    requires
        llm_wf(ls),
        0 <= k < ls.len(),
    ensures
        llm_for(ls, ls[k].prompt_hash) == Some(ls[k]),
{
    assert(0 <= k < ls.len() && ls[k].prompt_hash == ls[k].prompt_hash);
}

/// Keeps a recorded model call, replacing an earlier one for the same prompt fingerprint.
fn add_llm_call(ls: &mut Vec<LlmCallRecord>, r: LlmCallRecord, Ghost(es): Ghost<Seq<RecordEntryView>>)
    requires
        llm_agree(llm_views(old(ls)@), es),
    ensures
        llm_agree(llm_views(final(ls)@), es.push(RecordEntryView::LlmCall(r@))),
{
    let ghost old_views = llm_views(ls@);
    let ghost rv = r@;
    let ghost es2 = es.push(RecordEntryView::LlmCall(rv));
    let mut k: usize = 0;
    let mut found: Option<usize> = None;
    while k < ls.len()
        invariant_except_break
            found is None,
        invariant
            k <= ls@.len(),
            rv == r@,
            old_views == llm_views(ls@),
            forall|j: int| 0 <= j < k ==> old_views[j].prompt_hash != rv.prompt_hash,
        ensures
            match found {
                Some(i) => i < ls@.len() && old_views[i as int].prompt_hash == rv.prompt_hash,
                None => forall|j: int| 0 <= j < ls@.len() ==> old_views[j].prompt_hash != rv.prompt_hash,
            },
        decreases ls@.len() - k,
    {
        assert(old_views[k as int] == ls@[k as int]@);
        if str_eq(ls[k].prompt_hash.as_str(), r.prompt_hash.as_str()) {
            found = Some(k);
            break;
        }
        k += 1;
    }
    let ghost pos: int;
    match found {
        Some(i) => {
            ls.set(i, r);
            proof {
                pos = i as int;
                assert(llm_views(ls@) =~= old_views.update(i as int, rv));
            }
        },
        None => {
            ls.push(r);
            proof {
                pos = old_views.len() as int;
                assert(llm_views(ls@) =~= old_views.push(rv));
            }
        },
    }
    proof {
        let nv = llm_views(ls@);
        assert(nv.len() >= old_views.len());
        assert forall|j: int| 0 <= j < nv.len() && j != pos implies nv[j] == old_views[j]
            && nv[j].prompt_hash != rv.prompt_hash by {}
        assert(nv[pos] == rv);
        assert forall|a: int, b: int| 0 <= a < nv.len() && 0 <= b < nv.len() && a != b implies nv[a].prompt_hash
            != nv[b].prompt_hash by {
            if a != pos && b != pos {
                assert(nv[a] == old_views[a] && nv[b] == old_views[b]);
            }
        }
        assert forall|ph: Seq<char>| #[trigger] llm_for(nv, ph) == last_llm_call(es2, ph) by {
            lemma_last_llm_push(es, RecordEntryView::LlmCall(rv), ph);
            if ph == rv.prompt_hash {
                lemma_llm_for_at(nv, pos);
            } else {
                assert(llm_for(old_views, ph) == last_llm_call(es, ph));
                if exists|j: int| 0 <= j < old_views.len() && old_views[j].prompt_hash == ph {
                    let j = choose|j: int| 0 <= j < old_views.len() && old_views[j].prompt_hash == ph;
                    lemma_llm_for_at(old_views, j);
                    assert(j != pos);
                    assert(nv[j] == old_views[j]);
                    lemma_llm_for_at(nv, j);
                } else {
                    assert forall|j: int| 0 <= j < nv.len() implies nv[j].prompt_hash != ph by {
                        if j != pos {
                            assert(nv[j] == old_views[j]);
                        }
                    }
                }
            }
        }
    }
}

impl ExecutionReplayer {
    /// Builds the replay index from the lines of a recording, in order.
    pub fn from_entries(entries: Vec<RecordEntry>) -> (r: ExecutionReplayer)
        ensures
            r.wf(),
            groups_agree(r.groups(), entry_views(entries@)),
            llm_agree(r.llm_calls(), entry_views(entries@)),
    {
        let ghost all = entry_views(entries@);
        let mut rest = entries;
        let mut tool_index: Vec<ToolGroup> = Vec::new();
        let mut llm_index: Vec<LlmCallRecord> = Vec::new();
        let ghost mut done: int = 0;
        proof {
            assert forall|name: Seq<char>, hash: Seq<char>|
                #[trigger] calls_for(all.take(0), name, hash).len() > 0 implies has_key(
                tool_index@.map_values(|g: ToolGroup| g@),
                name,
                hash,
            ) by {
                assert(all.take(0).len() == 0);
            }
            assert forall|ph: Seq<char>| #[trigger] llm_for(llm_views(llm_index@), ph) == last_llm_call(all.take(0), ph) by {
                assert(all.take(0).len() == 0);
            }
        }
        while rest.len() > 0
            invariant
                0 <= done <= all.len(),
                entry_views(rest@) == all.subrange(done, all.len() as int),
                groups_agree(tool_index@.map_values(|g: ToolGroup| g@), all.take(done)),
                llm_agree(llm_views(llm_index@), all.take(done)),
            decreases rest@.len(),
        {
            let ghost before = rest@;
            let e = rest.remove(0);
            proof {
                assert(entry_views(before)[0] == e@);
                assert(entry_views(before).len() == before.len());
                assert(done < all.len());
                assert(all.subrange(done, all.len() as int)[0] == all[done]);
                assert(all[done] == e@);
                assert(all.take(done + 1) =~= all.take(done).push(e@));
                assert forall|j: int| 0 <= j < rest@.len() implies entry_views(rest@)[j] == all[done + 1
                    + j] by {
                    assert(rest@[j] == before[j + 1]);
                    assert(entry_views(before)[j + 1] == all.subrange(done, all.len() as int)[j + 1]);
                }
                assert(entry_views(rest@) =~= all.subrange(done + 1, all.len() as int));
            }
            match e {
                RecordEntry::ToolCall(r) => {
                    proof {
                        assert forall|ph: Seq<char>| #[trigger] llm_for(llm_views(llm_index@), ph)
                            == last_llm_call(all.take(done + 1), ph) by {
                            lemma_last_llm_push(all.take(done), RecordEntryView::ToolCall(r@), ph);
                        }
                    }
                    add_tool_call(&mut tool_index, r, Ghost(all.take(done)));
                },
                RecordEntry::LlmCall(r) => {
                    proof {
                        assert forall|name: Seq<char>, hash: Seq<char>| true implies calls_for(
                            all.take(done + 1),
                            name,
                            hash,
                        ) == calls_for(all.take(done), name, hash) by {
                            lemma_calls_for_push(all.take(done), RecordEntryView::LlmCall(r@), name, hash);
                        }
                    }
                    add_llm_call(&mut llm_index, r, Ghost(all.take(done)));
                    proof {
                        let gs = tool_index@.map_values(|g: ToolGroup| g@);
                        let es2 = all.take(done + 1);
                        assert forall|k: int| 0 <= k < gs.len() implies #[trigger] gs[k].cursor == 0
                            && gs[k].records == calls_for(es2, gs[k].tool_name, gs[k].param_hash) by {
                        }
                        assert forall|name: Seq<char>, hash: Seq<char>|
                            #[trigger] calls_for(es2, name, hash).len() > 0 implies has_key(gs, name, hash) by {
                            assert(calls_for(all.take(done), name, hash).len() > 0);
                        }
                    }
                },
            }
            proof {
                done = done + 1;
            }
        }
        assert(all.take(done) =~= all);
        ExecutionReplayer { tool_index, llm_index }
    }
}


/// The position replayed after position `c` among `n` recordings: the next
/// one, or the last one again.
pub open spec fn advance(c: int, n: int) -> int {
    if c + 1 < n - 1 {
        c + 1
    } else {
        n - 1
    }
}

/// A group after `i` replays of its call, each moving its position on as
/// `replay_tool_call` does.
pub open spec fn replayed(g: ToolGroupView, i: nat) -> ToolGroupView
    decreases i,
{
    if i == 0 {
        g
    } else {
        let h = replayed(g, (i - 1) as nat);
        ToolGroupView { cursor: advance(h.cursor, h.records.len() as int), ..h }
    }
}

/// A call recorded `n` times and loaded from its recording is answered,
/// on its `i + 1`-th replay, with recording `min(i, n - 1)`: the
/// recordings in recorded order, then the last one again and again.
pub proof fn replays_answer_in_recorded_order(g: ToolGroupView, i: nat)
    requires
        g.cursor == 0,
        g.records.len() >= 1,
    ensures
        replayed(g, i).records == g.records,
        replayed(g, i).tool_name == g.tool_name,
        replayed(g, i).param_hash == g.param_hash,
        replayed(g, i).cursor == if (i as int) < g.records.len() - 1 {
            i as int
        } else {
            g.records.len() - 1
        },
    decreases i,
{
    if i > 0 {
        replays_answer_in_recorded_order(g, (i - 1) as nat);
    }
}

/// The answers of `i` successive replays of a group's call, in order: each
/// the recorded result at the group's position before that replay.
pub open spec fn replay_answers(g: ToolGroupView, i: nat) -> Seq<serde_json::Value>
    decreases i,
{
    if i == 0 {
        seq![]
    } else {
        let h = replayed(g, (i - 1) as nat);
        replay_answers(g, (i - 1) as nat).push(h.records[h.cursor].result)
    }
}

/// A call recorded `n` times and loaded from its recording, replayed `i`
/// times in a row, is answered with the recorded results in recorded order
/// and then with the last one again and again: the `j`-th answer is
/// recording `min(j, n - 1)`.
pub proof fn successive_replays_follow_the_recording(g: ToolGroupView, i: nat)
    requires
        g.cursor == 0,
        g.records.len() >= 1,
    ensures
        replay_answers(g, i).len() == i,
        forall|j: int|
            0 <= j < i ==> #[trigger] replay_answers(g, i)[j] == g.records[if j < g.records.len() - 1 {
                j
            } else {
                g.records.len() - 1
            }].result,
    decreases i,
{
    if i > 0 {
        successive_replays_follow_the_recording(g, (i - 1) as nat);
        replays_answer_in_recorded_order(g, (i - 1) as nat);
        let prev = replay_answers(g, (i - 1) as nat);
        assert forall|j: int| 0 <= j < i implies #[trigger] replay_answers(g, i)[j] == g.records[if j
            < g.records.len() - 1 {
            j
        } else {
            g.records.len() - 1
        }].result by {
            if j < i - 1 {
                assert(replay_answers(g, i)[j] == prev[j]);
            }
        }
    }
}

/// All recorded tool calls, group by group.
pub open spec fn all_calls(gs: Seq<ToolGroupView>) -> Seq<ToolCallView>
    decreases gs.len(),
{
    if gs.len() == 0 {
        Seq::empty()
    } else {
        all_calls(gs.drop_last()) + gs.last().records
    }
}

/// The message of a call that was not recorded.
pub open spec fn not_recorded_message(tool_name: Seq<char>, params: serde_json::Value) -> Seq<char> {
    tool_name + "("@ + json_debug(params) + ")"@
}

impl ExecutionReplayer {
    /// Answers a tool call with the next recorded result for the same tool and
    /// parameters; `NotFound` when none was recorded.
    pub fn replay_tool_call(&mut self, tool_name: &str, params: &serde_json::Value) -> (r: Result<serde_json::Value, DeterministicError>)
        requires
            old(self).wf(),
        ensures
            final(self).wf(),
            final(self).llm_calls() == old(self).llm_calls(),
            !has_key(old(self).groups(), tool_name@, param_hash(*params)) ==> (r matches Err(
                DeterministicError::NotFound(m),
            ) && m@ == not_recorded_message(tool_name@, *params)),
            !has_key(old(self).groups(), tool_name@, param_hash(*params)) ==> final(self).groups()
                == old(self).groups(),
            has_key(old(self).groups(), tool_name@, param_hash(*params)) ==> ({
                let k = key_position(old(self).groups(), tool_name@, param_hash(*params));
                let g = old(self).groups()[k];
                &&& r matches Ok(v) && v == g.records[g.cursor].result
                &&& final(self).groups() == old(self).groups().update(
                    k,
                    ToolGroupView { cursor: advance(g.cursor, g.records.len() as int), ..g },
                )
            }),
    {
        let h = hash_params(params);
        match find_group(&self.tool_index, tool_name, h.as_str()) {
            None => {
                let mut m = String::from_str(tool_name);
                let d = json_debug_text(params);
                m.append("(");
                m.append(d.as_str());
                m.append(")");
                Err(DeterministicError::NotFound(m))
            },
            Some(k) => {
                let ghost gs = self.groups();
                proof {
                    assert(gs[k as int] == self.tool_index@[k as int]@);
                    assert(0 <= k < gs.len() && gs[k as int].tool_name == tool_name@
                        && gs[k as int].param_hash == param_hash(*params));
                }
                assert(gs[k as int].cursor < gs[k as int].records.len());
                let mut g = self.tool_index.remove(k);
                let n = g.records.len();
                let c = g.cursor;
                assert(g@ == gs[k as int]);
                assert(c < n);
                let v = json_clone(&g.records[c].result);
                g.cursor = if c + 1 < n - 1 { c + 1 } else { n - 1 };
                self.tool_index.insert(k, g);
                proof {
                    let gk = gs[k as int];
                    assert(g@ == ToolGroupView { cursor: advance(gk.cursor, gk.records.len() as int), ..gk });
                    assert(self.groups() =~= gs.update(k as int, g@));
                    let nv = self.groups();
                    assert forall|a: int, b: int|
                        0 <= a < nv.len() && 0 <= b < nv.len() && a != b implies !(nv[a].tool_name
                        == nv[b].tool_name && nv[a].param_hash == nv[b].param_hash) by {
                        assert(nv[a].tool_name == gs[a].tool_name && nv[a].param_hash == gs[a].param_hash);
                        assert(nv[b].tool_name == gs[b].tool_name && nv[b].param_hash == gs[b].param_hash);
                    }
                    assert forall|j: int| 0 <= j < nv.len() implies 0 <= #[trigger] nv[j].cursor
                        < nv[j].records.len() by {
                        if j != k {
                            assert(nv[j] == gs[j]);
                        }
                    }
                    assert(0 <= k < gs.len() && gs[k as int].tool_name == tool_name@
                        && gs[k as int].param_hash == param_hash(*params));
                    let kp = key_position(gs, tool_name@, param_hash(*params));
                    if kp != k {
                        assert(!(gs[kp].tool_name == gs[k as int].tool_name && gs[kp].param_hash
                            == gs[k as int].param_hash));
                    }
                }
                Ok(v)
            },
        }
    }

    /// The response recorded last for the prompt fingerprint, if any.
    pub fn replay_llm_call(&self, prompt_hash: &str) -> (r: Option<&str>)
        requires
            self.wf(),
        ensures
            match llm_for(self.llm_calls(), prompt_hash@) {
                Some(c) => r matches Some(s) && s@ == c.response,
                None => r is None,
            },
    {
        let ghost ls = self.llm_calls();
        let mut k: usize = 0;
        while k < self.llm_index.len()
            invariant
                self.wf(),
                ls == self.llm_calls(),
                k <= ls.len(),
                forall|j: int| 0 <= j < k ==> ls[j].prompt_hash != prompt_hash@,
            decreases ls.len() - k,
        {
            assert(ls[k as int] == self.llm_index@[k as int]@);
            if str_eq(self.llm_index[k].prompt_hash.as_str(), prompt_hash) {
                proof {
                    lemma_llm_for_at(ls, k as int);
                }
                return Some(self.llm_index[k].response.as_str());
            }
            k += 1;
        }
        None
    }

    /// Every recorded tool call, group by group, in recording order within a group.
    pub fn get_all_tool_calls(&self) -> (v: Vec<ToolCallRecord>)
        ensures
            call_views(v@) == all_calls(self.groups()),
    {
        let ghost gs = self.groups();
        let mut out: Vec<ToolCallRecord> = Vec::new();
        let mut k: usize = 0;
        while k < self.tool_index.len()
            invariant
                gs == self.groups(),
                k <= gs.len(),
                call_views(out@) == all_calls(gs.take(k as int)),
            decreases gs.len() - k,
        {
            let g = &self.tool_index[k];
            assert(gs[k as int] == g@);
            let ghost start = call_views(out@);
            let mut i: usize = 0;
            while i < g.records.len()
                invariant
                    i <= g.records@.len(),
                    call_views(out@) == start + call_views(g.records@).take(i as int),
                decreases g.records@.len() - i,
            {
                let ghost before = call_views(out@);
                let c = clone_call(&g.records[i]);
                out.push(c);
                assert(call_views(out@) =~= before.push(g.records@[i as int]@));
                assert(call_views(g.records@).take(i + 1) =~= call_views(g.records@).take(i as int).push(
                    g.records@[i as int]@,
                ));
                assert(call_views(out@) =~= start + call_views(g.records@).take(i + 1));
                i += 1;
            }
            assert(call_views(g.records@).take(g.records@.len() as int) =~= call_views(g.records@));
            assert(gs.take(k + 1).drop_last() =~= gs.take(k as int));
            k += 1;
        }
        assert(gs.take(gs.len() as int) =~= gs);
        out
    }
}

} // verus!
