//! Language models: what is known of a model, the local model directory and
//! the reading of model files' names, GPU facts, and which models qualify
//! for a request.

use vstd::prelude::*;
use crate::scanner::split_chars;
use crate::scanner::split_on;
use crate::text::chars_of;
use crate::text::push_char;
use crate::text::string_from_chars;
use crate::text::concat2;
use crate::text::contains_seq;
use crate::text::str_contains;
use crate::text::str_eq;
use crate::scanner::trim;
use crate::scanner::trim_chars;

verus! {

/// Why a language-model operation failed.
#[derive(Debug)]
pub enum LlmError {
    ModelNotFound(String),
    ModelLoad(String),
    Inference(String),
    Gpu(String),
    ContextWindowExceeded { current: usize, max: usize },
    ModelNotLoaded,
    InvalidFormat(String),
    Io(String),
    Http(String),
    Serialization(String),
    Other(String),
}

/// Who serves a model.
#[derive(Debug, PartialEq, Eq)]
pub enum ModelProvider {
    Local,
    OpenAI,
    Anthropic,
    Google,
    Mistral,
    Custom(String),
}

/// What a model can do.
#[derive(Clone, Copy, Debug, PartialEq, Eq, Structural)]
pub enum ModelCapability {
    Chat,
    Code,
    Reasoning,
    Vision,
    ToolUse,
    Streaming,
}

/// What is known of a model. `path` is the model file, for local models.
#[derive(Debug)]
pub struct ModelInfo {
    pub id: String,
    pub name: String,
    pub provider: ModelProvider,
    pub context_window: usize,
    pub capabilities: Vec<ModelCapability>,
    pub size_bytes: Option<u64>,
    pub quantization: Option<String>,
    pub is_local: bool,
    pub path: Option<String>,
}

/// The directory local models are kept in.
#[derive(Debug)]
pub struct LocalModelManager {
    models_dir: String,
}

impl LocalModelManager {
    /// The directory the manager reads.
    pub closed spec fn dir(&self) -> Seq<char> {
        self.models_dir@
    }

    /// A manager of the models in the directory.
    pub fn new(models_dir: &str) -> (m: LocalModelManager)
        ensures
            m.dir() == models_dir@,
    {
        LocalModelManager { models_dir: String::from_str(models_dir) }
    }

    /// The directory the manager reads.
    pub fn get_models_dir(&self) -> (d: &str)
        ensures
            d@ == self.dir(),
    {
        self.models_dir.as_str()
    }
}

/// A model file's name with its dashes read as spaces.
pub open spec fn dashes_to_spaces(s: Seq<char>) -> Seq<char>
    decreases s.len(),
{
    if s.len() == 0 {
        Seq::empty()
    } else {
        dashes_to_spaces(s.drop_last()).push(if s.last() == '-' { ' ' } else { s.last() })
    }
}

/// The quantization named at the end of a model file's name (after its last
/// dash), when that part starts with `q` or `f`.
pub open spec fn quantization_of(stem: Seq<char>) -> Option<Seq<char>> {
    let last = split_on(stem, '-').last();
    if last.len() > 0 && (last[0] == 'q' || last[0] == 'f') {
        Some(last)
    } else {
        None
    }
}

/// The model described by a GGUF file, from its name without extension
/// (such as `llama-3.3-70b-q4_k_m`), its size and its path: a local chat and
/// code model with a 4096-token window.
pub fn model_info_from_file(file_stem: &str, size_bytes: u64, path: &str) -> (m: ModelInfo)
    ensures
        m.id@ == file_stem@,
        m.name@ == dashes_to_spaces(file_stem@),
        m.provider == ModelProvider::Local,
        m.context_window == 4096,
        m.capabilities@ == seq![ModelCapability::Chat, ModelCapability::Code],
        m.size_bytes == Some(size_bytes),
        match quantization_of(file_stem@) {
            Some(q) => m.quantization matches Some(x) && x@ == q,
            None => m.quantization is None,
        },
        m.is_local,
        m.path matches Some(p) && p@ == path@,
{
    let parts = split_chars(file_stem, '-');
    let ghost pv = parts@.map_values(|p: Vec<char>| p@);
    let last = &parts[parts.len() - 1];
    assert(pv.last() == last@);
    let quantization = if last.len() > 0 && (last[0] == 'q' || last[0] == 'f') {
        Some(string_from_chars(last.as_slice()))
    } else {
        None
    };
    let cs = chars_of(file_stem);
    let mut name = String::new();
    let mut i: usize = 0;
    while i < cs.len()
        invariant
            cs@ == file_stem@,
            i <= cs@.len(),
            name@ == dashes_to_spaces(file_stem@.take(i as int)),
        decreases cs@.len() - i,
    {
        assert(file_stem@.take(i + 1).drop_last() =~= file_stem@.take(i as int));
        push_char(&mut name, if cs[i] == '-' { ' ' } else { cs[i] });
        i += 1;
    }
    assert(file_stem@.take(cs@.len() as int) =~= file_stem@);
    let mut capabilities: Vec<ModelCapability> = Vec::new();
    capabilities.push(ModelCapability::Chat);
    capabilities.push(ModelCapability::Code);
    assert(capabilities@ =~= seq![ModelCapability::Chat, ModelCapability::Code]);
    ModelInfo {
        id: String::from_str(file_stem),
        name,
        provider: ModelProvider::Local,
        context_window: 4096,
        capabilities,
        size_bytes: Some(size_bytes),
        quantization,
        is_local: true,
        path: Some(String::from_str(path)),
    }
}

/// The graphics acceleration available.
#[derive(Clone, Copy, Debug)]
pub struct GpuInfo {
    pub has_cuda: bool,
    pub has_metal: bool,
    pub has_vulkan: bool,
    pub vram_mb: u64,
}

/// The graphics acceleration found: none is probed for yet, so none is reported.
pub fn detect_gpu() -> (g: GpuInfo)
    ensures
        !g.has_cuda && !g.has_metal && !g.has_vulkan && g.vram_mb == 0,
{
    GpuInfo { has_cuda: false, has_metal: false, has_vulkan: false, vram_mb: 0 }
}

/// The model can serve a request: its window holds the context and it has
/// every capability asked for.
pub open spec fn qualifies(info: ModelInfo, required: Seq<ModelCapability>, context_size: usize) -> bool {
    &&& context_size <= info.context_window
    &&& forall|i: int| 0 <= i < required.len() ==> info.capabilities@.contains(#[trigger] required[i])
}

/// Whether the model can serve a request needing the capabilities and the context size.
pub fn model_qualifies(info: &ModelInfo, required_capabilities: &[ModelCapability], context_size: usize) -> (b: bool)
    ensures
        b == qualifies(*info, required_capabilities@, context_size),
{
    if context_size > info.context_window {
        return false;
    }
    let mut i: usize = 0;
    while i < required_capabilities.len()
        invariant
            i <= required_capabilities@.len(),
            forall|k: int| 0 <= k < i ==> info.capabilities@.contains(#[trigger] required_capabilities@[k]),
        decreases required_capabilities@.len() - i,
    {
        let cap = required_capabilities[i];
        let mut found = false;
        let mut j: usize = 0;
        while j < info.capabilities.len()
            invariant
                j <= info.capabilities@.len(),
                found ==> info.capabilities@.contains(cap),
                !found ==> forall|t: int| 0 <= t < j ==> info.capabilities@[t] != cap,
            decreases info.capabilities@.len() - j,
        {
            if info.capabilities[j] == cap {
                found = true;
            }
            j += 1;
        }
        if !found {
            assert(!info.capabilities@.contains(cap));
            return false;
        }
        i += 1;
    }
    true
}

impl ModelInfo {
    /// Whether the model has a capability.
    pub fn supports_capability(&self, capability: ModelCapability) -> (b: bool)
        ensures
            b == self.capabilities@.contains(capability),
    {
        let mut j: usize = 0;
        while j < self.capabilities.len()
            invariant
                j <= self.capabilities@.len(),
                forall|t: int| 0 <= t < j ==> self.capabilities@[t] != capability,
            decreases self.capabilities@.len() - j,
        {
            if self.capabilities[j] == capability {
                return true;
            }
            j += 1;
        }
        false
    }
}

/// The name `{:?}` writes for a capability.
pub open spec fn capability_name(c: ModelCapability) -> Seq<char> {
    match c {
        ModelCapability::Chat => "Chat"@,
        ModelCapability::Code => "Code"@,
        ModelCapability::Reasoning => "Reasoning"@,
        ModelCapability::Vision => "Vision"@,
        ModelCapability::ToolUse => "ToolUse"@,
        ModelCapability::Streaming => "Streaming"@,
    }
}

/// The names of the first `n` capabilities, separated by `, `.
pub open spec fn capability_names(cs: Seq<ModelCapability>, n: int) -> Seq<char>
    decreases n,
{
    if n <= 0 {
        Seq::empty()
    } else if n == 1 {
        capability_name(cs[0])
    } else {
        capability_names(cs, n - 1) + ", "@ + capability_name(cs[n - 1])
    }
}

/// A list of capabilities as `{:?}` writes it: `[Chat, Code]`.
pub open spec fn capability_list_text(cs: Seq<ModelCapability>) -> Seq<char> {
    "["@ + capability_names(cs, cs.len() as int) + "]"@
}

/// Writes a capability's name.
pub fn capability_text(c: ModelCapability) -> (s: String)
    ensures
        s@ == capability_name(c),
{
    match c {
        ModelCapability::Chat => String::from_str("Chat"),
        ModelCapability::Code => String::from_str("Code"),
        ModelCapability::Reasoning => String::from_str("Reasoning"),
        ModelCapability::Vision => String::from_str("Vision"),
        ModelCapability::ToolUse => String::from_str("ToolUse"),
        ModelCapability::Streaming => String::from_str("Streaming"),
    }
}

/// Writes a list of capabilities as `{:?}` does.
pub fn capability_list(cs: &[ModelCapability]) -> (s: String)
    ensures
        s@ == capability_list_text(cs@),
{
    let mut s = String::from_str("[");
    let ghost start = s@;
    let mut i: usize = 0;
    while i < cs.len()
        invariant
            i <= cs@.len(),
            start == "["@,
            s@ == start + capability_names(cs@, i as int),
        decreases cs@.len() - i,
    {
        if i > 0 {
            s.append(", ");
        }
        s.append(capability_text(cs[i]).as_str());
        i += 1;
    }
    s.append("]");
    s
}

/// The models that may serve a request: those whose context window holds
/// it and that have every wanted capability, by their positions.
pub open spec fn qualifying_positions(models: Seq<ModelInfo>, required: Seq<ModelCapability>, context_size: usize, n: int) -> Seq<usize>
    decreases n,
{
    if n <= 0 {
        Seq::empty()
    } else {
        let prev = qualifying_positions(models, required, context_size, n - 1);
        if qualifies(models[n - 1], required, context_size) {
            prev.push((n - 1) as usize)
        } else {
            prev
        }
    }
}

/// The positions of the registered models that may serve a request, for the
/// caller to rank; an error when no model is registered, or none qualifies.
pub fn select_candidates(
    models: &[ModelInfo],
    required_capabilities: &[ModelCapability],
    context_size: usize,
) -> (r: Result<Vec<usize>, LlmError>)
    ensures
        models@.len() == 0 ==> (r matches Err(LlmError::ModelNotFound(m)) && m@ == "No models registered"@),
        models@.len() > 0 && qualifying_positions(models@, required_capabilities@, context_size, models@.len() as int).len() == 0
            ==> (r matches Err(LlmError::ModelNotFound(m)) && m@ == "No model found matching requirements: "@
            + capability_list_text(required_capabilities@)),
        qualifying_positions(models@, required_capabilities@, context_size, models@.len() as int).len() > 0 ==> (r matches Ok(v)
            && v@ == qualifying_positions(models@, required_capabilities@, context_size, models@.len() as int)),
{
    if models.len() == 0 {
        return Err(LlmError::ModelNotFound(String::from_str("No models registered")));
    }
    let mut v: Vec<usize> = Vec::new();
    let mut i: usize = 0;
    while i < models.len()
        invariant
            i <= models@.len(),
            v@ == qualifying_positions(models@, required_capabilities@, context_size, i as int),
        decreases models@.len() - i,
    {
        if model_qualifies(&models[i], required_capabilities, context_size) {
            v.push(i);
        }
        i += 1;
    }
    if v.len() == 0 {
        let list = capability_list(required_capabilities);
        return Err(LlmError::ModelNotFound(concat2("No model found matching requirements: ", list.as_str())));
    }
    Ok(v)
}


/// Whether a model answers to a name the user gave: its id is the name, or
/// its display name contains it.
pub open spec fn answers_to(m: ModelInfo, name: Seq<char>) -> bool {
    m.id@ == name || contains_seq(m.name@, name)
}

/// Finds the first model that answers to a name.
pub fn find_model(models: &[ModelInfo], name: &str) -> (r: Option<usize>)
    ensures
        match r {
            Some(i) => i < models@.len() && answers_to(models@[i as int], name@) && forall|j: int|
                0 <= j < i ==> !answers_to(#[trigger] models@[j], name@),
            None => forall|j: int| 0 <= j < models@.len() ==> !answers_to(#[trigger] models@[j], name@),
        },
{
    let mut i: usize = 0;
    while i < models.len()
        invariant
            i <= models@.len(),
            forall|j: int| 0 <= j < i ==> !answers_to(#[trigger] models@[j], name@),
        decreases models@.len() - i,
    {
        let m = &models[i];
        if str_eq(m.id.as_str(), name) || str_contains(m.name.as_str(), name) {
            return Some(i);
        }
        i = i + 1;
    }
    None
}

/// Whether an answer to a yes-or-no question is yes: once trimmed, the
/// letter `y` in either case.
pub open spec fn is_yes(answer: Seq<char>) -> bool {
    trim(answer) == "y"@ || trim(answer) == "Y"@
}

/// Reads a yes-or-no answer.
pub fn confirmed(answer: &str) -> (b: bool)
    ensures
        b == is_yes(answer@),
{
    let cs = chars_of(answer);
    let t = trim_chars(cs.as_slice());
    proof {
        reveal_strlit("y");
        reveal_strlit("Y");
    }
    let b = t.len() == 1 && (t[0] == 'y' || t[0] == 'Y');
    proof {
        if t@.len() == 1 {
            assert(t@ =~= seq![t@[0]]);
            assert("y"@ =~= seq!['y']);
            assert("Y"@ =~= seq!['Y']);
        } else {
            assert(t@.len() != "y"@.len());
        }
    }
    b
}


/// The first model of an id.
pub open spec fn model_named(ms: Seq<ModelInfo>, id: Seq<char>) -> Option<ModelInfo>
    decreases ms.len(),
{
    if ms.len() == 0 {
        None
    } else if ms[0].id@ == id {
        Some(ms[0])
    } else {
        model_named(ms.drop_first(), id)
    }
}

/// No id occurs twice.
pub open spec fn ids_distinct(ms: Seq<ModelInfo>) -> bool {
    forall|i: int, j: int| 0 <= i < j < ms.len() ==> ms[i].id@ != ms[j].id@
}

proof fn model_named_at(ms: Seq<ModelInfo>, i: int)
    requires
        ids_distinct(ms),
        0 <= i < ms.len(),
    ensures
        model_named(ms, ms[i].id@) == Some(ms[i]),
    decreases ms.len(),
{
    if i > 0 {
        assert(ms[0].id@ != ms[i].id@);
        assert(ms.drop_first()[i - 1] == ms[i]);
        model_named_at(ms.drop_first(), i - 1);
    }
}

proof fn model_named_absent(ms: Seq<ModelInfo>, id: Seq<char>)
    requires
        forall|i: int| 0 <= i < ms.len() ==> ms[i].id@ != id,
    ensures
        model_named(ms, id).is_none(),
    decreases ms.len(),
{
    if ms.len() > 0 {
        assert(ms[0].id@ != id);
        assert forall|i: int| 0 <= i < ms.drop_first().len() implies ms.drop_first()[i].id@ != id by {
            assert(ms.drop_first()[i] == ms[i + 1]);
        }
        model_named_absent(ms.drop_first(), id);
    }
}

proof fn model_named_found(ms: Seq<ModelInfo>, id: Seq<char>)
    requires
        model_named(ms, id).is_some(),
    ensures
        exists|i: int| 0 <= i < ms.len() && ms[i].id@ == id,
    decreases ms.len(),
{
    if ms[0].id@ != id {
        model_named_found(ms.drop_first(), id);
        let i = choose|i: int| 0 <= i < ms.drop_first().len() && ms.drop_first()[i].id@ == id;
        assert(ms[i + 1].id@ == id);
    }
}

/// Finds the position of the model of an id.
fn position_of(ms: &Vec<ModelInfo>, id: &str) -> (r: Option<usize>)
    ensures
        match r {
            Some(i) => i < ms@.len() && ms@[i as int].id@ == id@,
            None => forall|j: int| 0 <= j < ms@.len() ==> ms@[j].id@ != id@,
        },
{
    let mut i: usize = 0;
    while i < ms.len()
        invariant
            i <= ms@.len(),
            forall|j: int| 0 <= j < i ==> ms@[j].id@ != id@,
        decreases ms@.len() - i,
    {
        if str_eq(ms[i].id.as_str(), id) {
            return Some(i);
        }
        i = i + 1;
    }
    None
}

/// The models a router can choose from, each id once.
pub struct ModelRouter {
    models: Vec<ModelInfo>,
}

impl View for ModelRouter {
    type V = Seq<ModelInfo>;

    closed spec fn view(&self) -> Seq<ModelInfo> {
        self.models@
    }
}

impl ModelRouter {
    /// Each id names one model.
    pub closed spec fn wf(&self) -> bool {
        ids_distinct(self.models@)
    }

    /// A router with no models.
    pub fn new() -> (r: ModelRouter)
        ensures
            r.wf(),
            r@.len() == 0,
    {
        ModelRouter { models: Vec::new() }
    }

    /// Registers a model: it replaces the model of the same id, if any.
    pub fn register_model(&mut self, model: ModelInfo)
        requires
            old(self).wf(),
        ensures
            final(self).wf(),
            forall|id: Seq<char>| #[trigger] model_named(final(self)@, id) == if id == model.id@ {
                Some(model)
            } else {
                model_named(old(self)@, id)
            },
    {
        let ghost before = self.models@;
        let ghost m = model;
        match position_of(&self.models, model.id.as_str()) {
            Some(i) => {
                self.models.set(i, model);
                assert(self.models@ =~= before.update(i as int, m));
                assert(ids_distinct(self.models@)) by {
                    assert forall|a: int, b: int| 0 <= a < b < self.models@.len() implies self.models@[a].id@
                        != self.models@[b].id@ by {
                        assert(self.models@[a].id@ == before[a].id@ && self.models@[b].id@ == before[b].id@);
                    }
                }
                assert forall|id: Seq<char>| #[trigger] model_named(self.models@, id) == if id == m.id@ {
                    Some(m)
                } else {
                    model_named(before, id)
                } by {
                    if id == m.id@ {
                        model_named_at(self.models@, i as int);
                    } else if model_named(before, id).is_some() {
                        model_named_found(before, id);
                        let j = choose|j: int| 0 <= j < before.len() && before[j].id@ == id;
                        model_named_at(before, j);
                        model_named_at(self.models@, j);
                    } else {
                        assert forall|j: int| 0 <= j < self.models@.len() implies self.models@[j].id@ != id by {
                            if j != i && self.models@[j].id@ == id {
                                model_named_at(before, j);
                            }
                        }
                        model_named_absent(self.models@, id);
                    }
                }
            },
            None => {
                self.models.push(model);
                assert(self.models@ =~= before.push(m));
                assert(ids_distinct(self.models@)) by {
                    assert forall|a: int, b: int| 0 <= a < b < self.models@.len() implies self.models@[a].id@
                        != self.models@[b].id@ by {
                        if b == before.len() {
                            assert(before[a].id@ != m.id@);
                        } else {
                            assert(self.models@[a].id@ == before[a].id@ && self.models@[b].id@ == before[b].id@);
                        }
                    }
                }
                assert forall|id: Seq<char>| #[trigger] model_named(self.models@, id) == if id == m.id@ {
                    Some(m)
                } else {
                    model_named(before, id)
                } by {
                    if id == m.id@ {
                        model_named_at(self.models@, before.len() as int);
                    } else if model_named(before, id).is_some() {
                        model_named_found(before, id);
                        let j = choose|j: int| 0 <= j < before.len() && before[j].id@ == id;
                        model_named_at(before, j);
                        model_named_at(self.models@, j);
                    } else {
                        assert forall|j: int| 0 <= j < self.models@.len() implies self.models@[j].id@ != id by {
                            if j < before.len() && self.models@[j].id@ == id {
                                model_named_at(before, j);
                            }
                        }
                        model_named_absent(self.models@, id);
                    }
                }
            },
        }
    }

    /// Removes the model of an id; an error when there is none.
    pub fn unregister_model(&mut self, id: &str) -> (r: Result<(), LlmError>)
        requires
            old(self).wf(),
        ensures
            final(self).wf(),
            r is Ok <==> model_named(old(self)@, id@).is_some(),
            r matches Err(e) ==> (e matches LlmError::ModelNotFound(m) && m@ == id@),
            forall|k: Seq<char>| #[trigger] model_named(final(self)@, k) == if k == id@ {
                None
            } else {
                model_named(old(self)@, k)
            },
    {
        let ghost before = self.models@;
        match position_of(&self.models, id) {
            None => {
                proof {
                    model_named_absent(before, id@);
                }
                Err(LlmError::ModelNotFound(String::from_str(id)))
            },
            Some(i) => {
                self.models.remove(i);
                proof {
                    model_named_at(before, i as int);
                    let after = self.models@;
                    assert(after =~= before.remove(i as int));
                    assert forall|a: int| 0 <= a < after.len() implies after[a] == (if a < i {
                        before[a]
                    } else {
                        before[a + 1]
                    }) by {}
                    assert(ids_distinct(after)) by {
                        assert forall|a: int, b: int| 0 <= a < b < after.len() implies after[a].id@ != after[b].id@ by {
                            let a2 = if a < i { a } else { a + 1 };
                            let b2 = if b < i { b } else { b + 1 };
                            assert(after[a] == before[a2] && after[b] == before[b2] && a2 < b2);
                        }
                    }
                    assert forall|k: Seq<char>| #[trigger] model_named(after, k) == if k == id@ {
                        None
                    } else {
                        model_named(before, k)
                    } by {
                        if k == id@ {
                            assert forall|j: int| 0 <= j < after.len() implies after[j].id@ != k by {
                                let j2 = if j < i { j } else { j + 1 };
                                assert(after[j] == before[j2] && j2 != i);
                            }
                            model_named_absent(after, k);
                        } else if model_named(before, k).is_some() {
                            model_named_found(before, k);
                            let j = choose|j: int| 0 <= j < before.len() && before[j].id@ == k;
                            model_named_at(before, j);
                            let j3 = if j < i { j } else { j - 1 };
                            assert(after[j3] == before[j]);
                            model_named_at(after, j3);
                        } else {
                            assert forall|j: int| 0 <= j < after.len() implies after[j].id@ != k by {
                                let j2 = if j < i { j } else { j + 1 };
                                assert(after[j] == before[j2]);
                                if after[j].id@ == k {
                                    model_named_at(before, j2);
                                }
                            }
                            model_named_absent(after, k);
                        }
                    }
                }
                Ok(())
            },
        }
    }

    /// The model of an id; an error when there is none.
    pub fn get_model(&self, id: &str) -> (r: Result<&ModelInfo, LlmError>)
        requires
            self.wf(),
        ensures
            match model_named(self@, id@) {
                Some(m) => r matches Ok(x) && *x == m,
                None => r matches Err(LlmError::ModelNotFound(e)) && e@ == id@,
            },
    {
        match position_of(&self.models, id) {
            None => {
                proof {
                    model_named_absent(self.models@, id@);
                }
                Err(LlmError::ModelNotFound(String::from_str(id)))
            },
            Some(i) => {
                proof {
                    model_named_at(self.models@, i as int);
                }
                Ok(&self.models[i])
            },
        }
    }

    /// The registered models.
    pub fn list_models(&self) -> (r: &[ModelInfo])
        ensures
            r@ == self@,
    {
        self.models.as_slice()
    }

    /// The positions, in `list_models`, of the models that may serve a
    /// request, for the caller to rank (see `select_candidates`).
    pub fn candidates(&self, required_capabilities: &[ModelCapability], context_size: usize) -> (r: Result<
        Vec<usize>,
        LlmError,
    >)
        ensures
            self@.len() == 0 ==> (r matches Err(LlmError::ModelNotFound(m)) && m@ == "No models registered"@),
            self@.len() > 0 && qualifying_positions(self@, required_capabilities@, context_size, self@.len() as int).len()
                == 0 ==> (r matches Err(LlmError::ModelNotFound(m)) && m@ == "No model found matching requirements: "@
                + capability_list_text(required_capabilities@)),
            qualifying_positions(self@, required_capabilities@, context_size, self@.len() as int).len() > 0 ==> (r matches Ok(
                v,
            ) && v@ == qualifying_positions(self@, required_capabilities@, context_size, self@.len() as int)),
    {
        select_candidates(self.models.as_slice(), required_capabilities, context_size)
    }
}

} // verus!
