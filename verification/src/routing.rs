//! The rules of routing a request to a model that do not weigh scores:
//! provider names, which models a request may go to at all, how many of the
//! wanted capabilities a model has, and which models are switched off.

use vstd::prelude::*;
use crate::text::str_eq;
use crate::text::concat2;

verus! {

/// Why routing failed.
#[derive(Debug)]
pub enum RouterError {
    NoModelFound,
    ModelNotFound(String),
    Database(String),
    Serialization(String),
}

/// Who serves a model.
#[derive(Debug)]
pub enum ModelProvider {
    OpenAI,
    Anthropic,
    Google,
    Local,
    Cohere,
    Mistral,
    Custom { name: String, base_url: String },
}

/// The stored name of a provider: its lower-case name, or `custom:` and the
/// name of a custom one.
pub open spec fn provider_name(p: ModelProvider) -> Seq<char> {
    match p {
        ModelProvider::OpenAI => "openai"@,
        ModelProvider::Anthropic => "anthropic"@,
        ModelProvider::Google => "google"@,
        ModelProvider::Local => "local"@,
        ModelProvider::Cohere => "cohere"@,
        ModelProvider::Mistral => "mistral"@,
        ModelProvider::Custom { name, .. } => "custom:"@ + name@,
    }
}

impl ModelProvider {
    /// The stored name of the provider.
    pub fn as_str(&self) -> (s: String)
        ensures
            s@ == provider_name(*self),
    {
        match self {
            ModelProvider::OpenAI => String::from_str("openai"),
            ModelProvider::Anthropic => String::from_str("anthropic"),
            ModelProvider::Google => String::from_str("google"),
            ModelProvider::Local => String::from_str("local"),
            ModelProvider::Cohere => String::from_str("cohere"),
            ModelProvider::Mistral => String::from_str("mistral"),
            ModelProvider::Custom { name, .. } => concat2("custom:", name.as_str()),
        }
    }

    /// Whether the model runs locally.
    pub fn is_local(&self) -> (b: bool)
        ensures
            b == (*self is Local),
    {
        match self {
            ModelProvider::Local => true,
            _ => false,
        }
    }
}

/// What a model is good at.
#[derive(Clone, Copy, Debug, PartialEq, Eq, Structural)]
pub enum Capability {
    Reasoning,
    Coding,
    Math,
    Creative,
    Summarization,
    Embeddings,
}

/// Whether a capability is in a list.
pub fn has_capability(offered: &[Capability], cap: Capability) -> (b: bool)
    ensures
        b == offered@.contains(cap),
{
    let mut i: usize = 0;
    while i < offered.len()
        invariant
            i <= offered@.len(),
            forall|k: int| 0 <= k < i ==> offered@[k] != cap,
        decreases offered@.len() - i,
    {
        if offered[i] == cap {
            return true;
        }
        i += 1;
    }
    false
}

/// How many of the first `n` wanted capabilities a model has.
pub open spec fn matched_count(required: Seq<Capability>, offered: Seq<Capability>, n: int) -> nat
    decreases n,
{
    if n <= 0 {
        0
    } else {
        matched_count(required, offered, n - 1) + if offered.contains(required[n - 1]) { 1nat } else { 0nat }
    }
}

/// How many of the wanted capabilities a model has (each wanted one counted
/// as often as it is listed).
pub fn matched_capabilities(required: &[Capability], offered: &[Capability]) -> (n: usize)
    ensures
        n == matched_count(required@, offered@, required@.len() as int),
        n <= required@.len(),
{
    let mut n: usize = 0;
    let mut i: usize = 0;
    while i < required.len()
        invariant
            i <= required@.len(),
            n <= i,
            n == matched_count(required@, offered@, i as int),
        decreases required@.len() - i,
    {
        if has_capability(offered, required[i]) {
            n += 1;
        }
        i += 1;
    }
    n
}

/// Whether a model may serve a request at all, the cost aside: it is
/// switched on, its context window holds the request's tokens, it has every
/// wanted capability, and its mean latency is within the request's limit.
pub open spec fn eligible(
    available: bool,
    context_window: u32,
    capabilities: Seq<Capability>,
    avg_latency_ms: u32,
    context_tokens: u32,
    required: Seq<Capability>,
    max_latency_ms: Option<u32>,
) -> bool {
    &&& available
    &&& context_window >= context_tokens
    &&& forall|k: int| 0 <= k < required.len() ==> capabilities.contains(#[trigger] required[k])
    &&& match max_latency_ms {
        Some(m) => avg_latency_ms <= m,
        None => true,
    }
}

/// Whether a model may serve a request at all, the cost aside.
pub fn meets_requirements(
    available: bool,
    context_window: u32,
    capabilities: &[Capability],
    avg_latency_ms: u32,
    context_tokens: u32,
    required: &[Capability],
    max_latency_ms: Option<u32>,
) -> (b: bool)
    ensures
        b == eligible(available, context_window, capabilities@, avg_latency_ms, context_tokens, required@, max_latency_ms),
{
    if !available || context_window < context_tokens {
        return false;
    }
    let mut i: usize = 0;
    while i < required.len()
        invariant
            i <= required@.len(),
            forall|k: int| 0 <= k < i ==> capabilities@.contains(#[trigger] required@[k]),
        decreases required@.len() - i,
    {
        if !has_capability(capabilities, required[i]) {
            return false;
        }
        i += 1;
    }
    match max_latency_ms {
        Some(m) => avg_latency_ms <= m,
        None => true,
    }
}

/// The local-preference part of a model's score, in tenths: full for a local
/// model when local ones are preferred, half when no preference is given,
/// none for another model when local ones are preferred.
pub fn local_preference_tenths(prefer_local: bool, is_local: bool) -> (t: u32)
    ensures
        t == if prefer_local && is_local { 10u32 } else if !prefer_local { 5u32 } else { 0u32 },
{
    if prefer_local && is_local {
        10
    } else if !prefer_local {
        5
    } else {
        0
    }
}

/// Keys occur at most once.
pub open spec fn switch_keys_distinct(es: Seq<(Seq<char>, bool)>) -> bool {
    forall|a: int, b: int| 0 <= a < b < es.len() ==> es[a].0 != es[b].0
}

/// Whether a model is switched on: as last set, and on when never set.
pub open spec fn switched_on(es: Seq<(Seq<char>, bool)>, id: Seq<char>) -> bool {
    if exists|i: int| 0 <= i < es.len() && es[i].0 == id {
        es[choose|i: int| 0 <= i < es.len() && es[i].0 == id].1
    } else {
        true
    }
}

/// Which models are switched on or off, for circuit breaking.
pub struct AvailabilityTable {
    entries: Vec<(String, bool)>,
}

impl AvailabilityTable {
    /// The settings, as plain values.
    pub closed spec fn settings(&self) -> Seq<(Seq<char>, bool)> {
        self.entries@.map_values(|e: (String, bool)| (e.0@, e.1))
    }

    /// No model is set twice.
    pub open spec fn wf(&self) -> bool {
        switch_keys_distinct(self.settings())
    }

    /// A table where nothing is set.
    pub fn new() -> (t: AvailabilityTable)
        ensures
            t.wf(),
            t.settings().len() == 0,
    {
        let t = AvailabilityTable { entries: Vec::new() };
        assert(t.settings() =~= Seq::<(Seq<char>, bool)>::empty());
        t
    }

    fn find(&self, id: &str) -> (r: Option<usize>)
        requires
            self.wf(),
        ensures
            match r {
                Some(i) => i < self.settings().len() && self.settings()[i as int].0 == id@,
                None => forall|k: int| 0 <= k < self.settings().len() ==> self.settings()[k].0 != id@,
            },
    {
        let mut i: usize = 0;
        while i < self.entries.len()
            invariant
                i <= self.entries@.len(),
                self.settings().len() == self.entries@.len(),
                forall|k: int| 0 <= k < i ==> self.settings()[k].0 != id@,
            decreases self.entries@.len() - i,
        {
            assert(self.settings()[i as int].0 == self.entries@[i as int].0@);
            if str_eq(self.entries[i].0.as_str(), id) {
                return Some(i);
            }
            i += 1;
        }
        None
    }

    /// Whether a model is switched on (on when never set).
    pub fn is_available(&self, id: &str) -> (b: bool)
        requires
            self.wf(),
        ensures
            b == switched_on(self.settings(), id@),
    {
        match self.find(id) {
            Some(i) => {
                assert(0 <= i < self.settings().len() && self.settings()[i as int].0 == id@);
                let ghost j = choose|j: int| 0 <= j < self.settings().len() && self.settings()[j].0 == id@;
                assert(j == i);
                assert(self.settings()[i as int].1 == self.entries@[i as int].1);
                self.entries[i].1
            },
            None => true,
        }
    }

    /// Switches a model on or off.
    pub fn set(&mut self, id: &str, available: bool)
        requires
            old(self).wf(),
        ensures
            final(self).wf(),
            forall|other: Seq<char>| other != id@ ==> switched_on(final(self).settings(), other) == switched_on(
                old(self).settings(),
                other,
            ),
            switched_on(final(self).settings(), id@) == available,
    {
        let ghost es = self.settings();
        match self.find(id) {
            Some(i) => {
                self.entries.set(i, (String::from_str(id), available));
                assert(self.settings() =~= es.update(i as int, (id@, available)));
                proof {
                    let ns = self.settings();
                    assert forall|a: int, b: int| 0 <= a < b < ns.len() implies ns[a].0 != ns[b].0 by {
                        assert(ns[a].0 == es[a].0);
                        assert(ns[b].0 == es[b].0);
                    }
                    assert(0 <= i < ns.len() && ns[i as int].0 == id@);
                    let j = choose|j: int| 0 <= j < ns.len() && ns[j].0 == id@;
                    assert(j == i);
                    assert forall|other: Seq<char>| other != id@ implies switched_on(ns, other) == switched_on(es, other) by {
                        if exists|k: int| 0 <= k < es.len() && es[k].0 == other {
                            let k = choose|k: int| 0 <= k < es.len() && es[k].0 == other;
                            assert(ns[k].0 == other);
                            let k2 = choose|k2: int| 0 <= k2 < ns.len() && ns[k2].0 == other;
                            assert(k2 == k);
                        } else {
                            if exists|k: int| 0 <= k < ns.len() && ns[k].0 == other {
                                let k = choose|k: int| 0 <= k < ns.len() && ns[k].0 == other;
                                assert(es[k].0 == other);
                            }
                        }
                    }
                }
            },
            None => {
                self.entries.push((String::from_str(id), available));
                assert(self.settings() =~= es.push((id@, available)));
                proof {
                    let ns = self.settings();
                    let n = es.len() as int;
                    assert(0 <= n < ns.len() && ns[n].0 == id@);
                    let j = choose|j: int| 0 <= j < ns.len() && ns[j].0 == id@;
                    assert(j == n);
                    assert forall|other: Seq<char>| other != id@ implies switched_on(ns, other) == switched_on(es, other) by {
                        if exists|k: int| 0 <= k < es.len() && es[k].0 == other {
                            let k = choose|k: int| 0 <= k < es.len() && es[k].0 == other;
                            assert(ns[k].0 == other);
                            let k2 = choose|k2: int| 0 <= k2 < ns.len() && ns[k2].0 == other;
                            assert(k2 == k);
                        } else {
                            if exists|k: int| 0 <= k < ns.len() && ns[k].0 == other {
                                let k = choose|k: int| 0 <= k < ns.len() && ns[k].0 == other;
                                assert(k != n);
                                assert(es[k].0 == other);
                            }
                        }
                    }
                }
            },
        }
    }

    /// Forgets what was set for a model, which is then switched on.
    pub fn remove(&mut self, id: &str)
        requires
            old(self).wf(),
        ensures
            final(self).wf(),
            forall|other: Seq<char>| other != id@ ==> switched_on(final(self).settings(), other) == switched_on(
                old(self).settings(),
                other,
            ),
            switched_on(final(self).settings(), id@),
    {
        let ghost es = self.settings();
        match self.find(id) {
            Some(i) => {
                self.entries.remove(i);
                assert(self.settings() =~= es.remove(i as int));
                proof {
                    let ns = self.settings();
                    assert forall|a: int, b: int| 0 <= a < b < ns.len() implies ns[a].0 != ns[b].0 by {
                        let a0 = if a < i { a } else { a + 1 };
                        let b0 = if b < i { b } else { b + 1 };
                        assert(ns[a] == es[a0]);
                        assert(ns[b] == es[b0]);
                    }
                    assert forall|k: int| 0 <= k < ns.len() implies ns[k].0 != id@ by {
                        let k0 = if k < i { k } else { k + 1 };
                        assert(ns[k] == es[k0]);
                    }
                    assert forall|other: Seq<char>| other != id@ implies switched_on(ns, other) == switched_on(es, other) by {
                        if exists|k: int| 0 <= k < es.len() && es[k].0 == other {
                            let k = choose|k: int| 0 <= k < es.len() && es[k].0 == other;
                            assert(k != i);
                            let k1 = if k < i { k } else { k - 1 };
                            assert(ns[k1] == es[k]);
                            let k2 = choose|k2: int| 0 <= k2 < ns.len() && ns[k2].0 == other;
                            let k3 = if k2 < i { k2 } else { k2 + 1 };
                            assert(ns[k2] == es[k3]);
                            assert(k3 == k);
                        } else {
                            if exists|k: int| 0 <= k < ns.len() && ns[k].0 == other {
                                let k = choose|k: int| 0 <= k < ns.len() && ns[k].0 == other;
                                let k0 = if k < i { k } else { k + 1 };
                                assert(ns[k] == es[k0]);
                            }
                        }
                    }
                }
            },
            None => {},
        }
    }
}

} // verus!
