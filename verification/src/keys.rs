//! How the terminal interface reacts to a key or a mouse event: which
//! overlay opens or closes, what the selection and the typed texts become,
//! and what the caller must do next (send a prompt, save a key, scroll).

use vstd::prelude::*;
use crate::cli::InputLine;
use crate::cli::SlashCommand;
use crate::scanner::trim;
use crate::scanner::trim_chars;
use crate::text::has_prefix;
use crate::text::string_from_chars;
use crate::text::str_eq;
use crate::text::str_contains;
use crate::text::to_lowercase;
use crate::text::lowercase;
use crate::text::contains_seq;

verus! {

/// The popup shown over the chat, if any.
#[derive(Clone, Copy, Debug, PartialEq, Eq, Structural)]
pub enum Overlay {
    Closed,
    Commands,
    Skills,
    Models,
    Connect,
}

/// How the assistant is asked to work.
#[derive(Clone, Copy, Debug, PartialEq, Eq, Structural)]
pub enum Mode {
    Build,
    Plan,
    MultiAgent,
}

/// Where the session stands: nothing said yet, chatting, or an answer streaming in.
#[derive(Clone, Copy, Debug, PartialEq, Eq, Structural)]
pub enum Phase {
    Empty,
    Chat,
    Stream,
}

/// A key.
#[derive(Clone, Copy, Debug, PartialEq, Eq, Structural)]
pub enum KeyCode {
    Char(char),
    Enter,
    Esc,
    Backspace,
    Delete,
    Left,
    Right,
    Up,
    Down,
    Home,
    End,
    Tab,
    Other,
}

/// A key pressed, with the Control and Shift modifiers.
#[derive(Clone, Copy, Debug, PartialEq, Eq, Structural)]
pub struct KeyPress {
    pub code: KeyCode,
    pub ctrl: bool,
    pub shift: bool,
}

/// The name of an intelligence tier.
pub open spec fn tier_name(t: nat) -> Seq<char> {
    if t == 0 {
        "auto"@
    } else if t == 1 {
        "high"@
    } else {
        "max"@
    }
}

/// The number of intelligence tiers.
pub const TIER_COUNT: usize = 3;

/// The name shown for a mode.
pub open spec fn mode_name(m: Mode) -> Seq<char> {
    match m {
        Mode::Build => "Build"@,
        Mode::Plan => "Plan"@,
        Mode::MultiAgent => "Multi Agent"@,
    }
}

/// The mode after a switch: build, plan, multi-agent, and round again.
pub open spec fn next_mode(m: Mode) -> Mode {
    match m {
        Mode::Build => Mode::Plan,
        Mode::Plan => Mode::MultiAgent,
        Mode::MultiAgent => Mode::Build,
    }
}

/// Writes a tier's name.
pub fn tier_label(t: usize) -> (s: &'static str)
    requires
        t < TIER_COUNT,
    ensures
        s@ == tier_name(t as nat),
{
    if t == 0 {
        "auto"
    } else if t == 1 {
        "high"
    } else {
        "max"
    }
}

/// Writes a mode's name.
pub fn mode_label(m: Mode) -> (s: &'static str)
    ensures
        s@ == mode_name(m),
{
    match m {
        Mode::Build => "Build",
        Mode::Plan => "Plan",
        Mode::MultiAgent => "Multi Agent",
    }
}

/// The press is Control with the letter `ch`: the letter (either case) with
/// the Control modifier, or the control character the letter stands for.
pub open spec fn ctrl_letter(p: KeyPress, ch: char) -> bool {
    ||| p.ctrl && (p.code == KeyCode::Char(ch) || p.code == KeyCode::Char(((ch as u32) - 32) as char))
    ||| p.code == KeyCode::Char(((ch as u32) - 96) as char)
}

/// Whether a press is Control with a lower-case letter.
pub fn is_ctrl(p: KeyPress, ch: char) -> (b: bool)
    requires
        'a' <= ch <= 'z',
    ensures
        b == ctrl_letter(p, ch),
{
    let upper = ((ch as u8) - 32) as char;
    let raw = ((ch as u8) - 96) as char;
    if p.ctrl {
        if p.code == KeyCode::Char(ch) || p.code == KeyCode::Char(upper) {
            return true;
        }
    }
    p.code == KeyCode::Char(raw)
}

/// What the caller must do after an event.
#[derive(Debug)]
pub enum UiAction {
    Nothing,
    Quit,
    /// Save the typed key for the provider at this position.
    SaveKey { provider: usize, key: String },
    /// Remove the saved key of the provider at this position.
    RemoveKey { provider: usize },
    /// Read the clipboard into the key being typed.
    PasteIntoKey,
    /// Carry out the selected entry of the open overlay.
    ExecuteOverlay,
    /// Forget the conversation and start anew.
    NewSession,
    /// The mode or tier changed: set the system prompt again, and show the
    /// note if there is one.
    PromptChanged { note: Option<String> },
    /// Read the clipboard into the input line.
    PasteIntoInput,
    ScrollUp,
    ScrollDown,
    /// Run a slash command (the trimmed line).
    Slash(String),
    /// Send the text to the assistant; a session opens when none had.
    Submit { text: String, opens_session: bool },
    /// Show this note in the chat.
    Note(String),
    /// Switch to the model at this position of the model list.
    SelectModel { model: usize },
    /// Activate the skill at this position of the skills listed.
    ActivateSkill { skill: usize },
    /// Show which model is in use.
    ShowModel,
}

/// An action as plain values.
pub enum ActionView {
    Nothing,
    Quit,
    SaveKey { provider: nat, key: Seq<char> },
    RemoveKey { provider: nat },
    PasteIntoKey,
    ExecuteOverlay,
    NewSession,
    PromptChanged { note: Option<Seq<char>> },
    PasteIntoInput,
    ScrollUp,
    ScrollDown,
    Slash(Seq<char>),
    Submit { text: Seq<char>, opens_session: bool },
    Note(Seq<char>),
    SelectModel { model: nat },
    ActivateSkill { skill: nat },
    ShowModel,
}

impl View for UiAction {
    type V = ActionView;

    open spec fn view(&self) -> ActionView {
        match self {
            UiAction::Nothing => ActionView::Nothing,
            UiAction::Quit => ActionView::Quit,
            UiAction::SaveKey { provider, key } => ActionView::SaveKey { provider: *provider as nat, key: key@ },
            UiAction::RemoveKey { provider } => ActionView::RemoveKey { provider: *provider as nat },
            UiAction::PasteIntoKey => ActionView::PasteIntoKey,
            UiAction::ExecuteOverlay => ActionView::ExecuteOverlay,
            UiAction::NewSession => ActionView::NewSession,
            UiAction::PromptChanged { note } => ActionView::PromptChanged {
                note: match note {
                    Some(n) => Some(n@),
                    None => None,
                },
            },
            UiAction::PasteIntoInput => ActionView::PasteIntoInput,
            UiAction::ScrollUp => ActionView::ScrollUp,
            UiAction::ScrollDown => ActionView::ScrollDown,
            UiAction::Slash(s) => ActionView::Slash(s@),
            UiAction::Submit { text, opens_session } => ActionView::Submit { text: text@, opens_session: *opens_session },
            UiAction::Note(n) => ActionView::Note(n@),
            UiAction::SelectModel { model } => ActionView::SelectModel { model: *model as nat },
            UiAction::ActivateSkill { skill } => ActionView::ActivateSkill { skill: *skill as nat },
            UiAction::ShowModel => ActionView::ShowModel,
        }
    }
}

/// The interface's state as plain values.
pub struct UiView {
    pub phase: Phase,
    pub mode: Mode,
    pub tier: nat,
    pub overlay: Overlay,
    pub ov_idx: nat,
    pub search: Seq<char>,
    pub editing: bool,
    pub key_input: Seq<char>,
    pub line: (Seq<char>, nat),
}

/// The state of the terminal interface that keys and the mouse change.
pub struct UiState {
    pub phase: Phase,
    pub mode: Mode,
    pub tier: usize,
    pub overlay: Overlay,
    pub ov_idx: usize,
    pub search: Vec<char>,
    pub editing: bool,
    pub key_input: Vec<char>,
    pub line: InputLine,
}

impl View for UiState {
    type V = UiView;

    open spec fn view(&self) -> UiView {
        UiView {
            phase: self.phase,
            mode: self.mode,
            tier: self.tier as nat,
            overlay: self.overlay,
            ov_idx: self.ov_idx as nat,
            search: self.search@,
            editing: self.editing,
            key_input: self.key_input@,
            line: self.line@,
        }
    }
}

/// The view with some parts replaced.
pub open spec fn with_overlay(s: UiView, o: Overlay, idx: nat, search: Seq<char>) -> UiView {
    UiView { overlay: o, ov_idx: idx, search, ..s }
}

/// The last element dropped, if there is one.
pub open spec fn pop_last(s: Seq<char>) -> Seq<char> {
    if s.len() > 0 {
        s.drop_last()
    } else {
        s
    }
}

/// The line after a character is typed.
pub open spec fn typed(l: (Seq<char>, nat), c: char) -> (Seq<char>, nat) {
    (l.0.insert(l.1 as int, c), l.1 + 1)
}

/// The line after a backspace.
pub open spec fn backspaced(l: (Seq<char>, nat)) -> (Seq<char>, nat) {
    if l.1 > 0 {
        (l.0.remove(l.1 - 1), (l.1 - 1) as nat)
    } else {
        l
    }
}

/// The reaction to a key in the connect overlay.
pub open spec fn connect_key(s: UiView, p: KeyPress, providers: nat) -> (UiView, ActionView) {
    if s.editing {
        match p.code {
            KeyCode::Esc => (UiView { editing: false, key_input: Seq::empty(), ..s }, ActionView::Nothing),
            KeyCode::Enter => {
                let t = trim(s.key_input);
                (
                    UiView { editing: false, key_input: Seq::empty(), ..s },
                    if t.len() > 0 && s.ov_idx < providers {
                        ActionView::SaveKey { provider: s.ov_idx, key: t }
                    } else {
                        ActionView::Nothing
                    },
                )
            },
            KeyCode::Backspace => (UiView { key_input: pop_last(s.key_input), ..s }, ActionView::Nothing),
            KeyCode::Char(c) => if p.ctrl {
                if c == 'v' {
                    (s, ActionView::PasteIntoKey)
                } else {
                    (s, ActionView::Nothing)
                }
            } else {
                (UiView { key_input: s.key_input.push(c), ..s }, ActionView::Nothing)
            },
            _ => (s, ActionView::Nothing),
        }
    } else {
        match p.code {
            KeyCode::Esc => (UiView { overlay: Overlay::Closed, ..s }, ActionView::Nothing),
            KeyCode::Up => (UiView { ov_idx: if s.ov_idx > 0 { (s.ov_idx - 1) as nat } else { 0 }, ..s }, ActionView::Nothing),
            KeyCode::Down => (
                UiView { ov_idx: if s.ov_idx + 1 < providers { s.ov_idx + 1 } else { s.ov_idx }, ..s },
                ActionView::Nothing,
            ),
            KeyCode::Enter => (UiView { editing: true, key_input: Seq::empty(), ..s }, ActionView::Nothing),
            KeyCode::Delete => (
                s,
                if s.ov_idx < providers {
                    ActionView::RemoveKey { provider: s.ov_idx }
                } else {
                    ActionView::Nothing
                },
            ),
            _ => (s, ActionView::Nothing),
        }
    }
}

/// The reaction to a key in the other overlays.
pub open spec fn overlay_key(s: UiView, p: KeyPress, ov_count: nat) -> (UiView, ActionView) {
    match p.code {
        KeyCode::Esc => (with_overlay(s, Overlay::Closed, s.ov_idx, Seq::empty()), ActionView::Nothing),
        KeyCode::Up => (UiView { ov_idx: if s.ov_idx > 0 { (s.ov_idx - 1) as nat } else { 0 }, ..s }, ActionView::Nothing),
        KeyCode::Down => (
            UiView { ov_idx: if s.ov_idx + 1 < ov_count { s.ov_idx + 1 } else { s.ov_idx }, ..s },
            ActionView::Nothing,
        ),
        KeyCode::Enter => (s, ActionView::ExecuteOverlay),
        KeyCode::Backspace => (UiView { search: pop_last(s.search), ov_idx: 0, ..s }, ActionView::Nothing),
        KeyCode::Char(c) => if p.ctrl {
            (s, ActionView::Nothing)
        } else {
            (UiView { search: s.search.push(c), ov_idx: 0, ..s }, ActionView::Nothing)
        },
        _ => (s, ActionView::Nothing),
    }
}

/// The reaction to a key with the chat showing.
pub open spec fn chat_key(s: UiView, p: KeyPress) -> (UiView, ActionView) {
    if s.phase == Phase::Stream {
        match p.code {
            KeyCode::Up => (s, ActionView::ScrollUp),
            KeyCode::Down => (s, ActionView::ScrollDown),
            _ => (s, ActionView::Nothing),
        }
    } else {
        match p.code {
            KeyCode::Enter => if p.shift {
                (UiView { line: typed(s.line, '\n'), ..s }, ActionView::Nothing)
            } else {
                let text = s.line.0;
                let cleared = UiView { line: (Seq::empty(), 0nat), ..s };
                let t = trim(text);
                if t.len() == 0 {
                    (cleared, ActionView::Nothing)
                } else if has_prefix(t, "/"@) {
                    (cleared, ActionView::Slash(t))
                } else {
                    (
                        UiView { phase: Phase::Stream, ..cleared },
                        ActionView::Submit { text, opens_session: s.phase == Phase::Empty },
                    )
                }
            },
            KeyCode::Char(c) => (UiView { line: typed(s.line, c), ..s }, ActionView::Nothing),
            KeyCode::Backspace => (UiView { line: backspaced(s.line), ..s }, ActionView::Nothing),
            KeyCode::Left => (
                UiView { line: (s.line.0, if s.line.1 > 0 { (s.line.1 - 1) as nat } else { 0 }), ..s },
                ActionView::Nothing,
            ),
            KeyCode::Right => (
                UiView { line: (s.line.0, if s.line.1 < s.line.0.len() { s.line.1 + 1 } else { s.line.1 }), ..s },
                ActionView::Nothing,
            ),
            KeyCode::Up => (s, ActionView::ScrollUp),
            KeyCode::Down => (UiView { line: typed(s.line, '\n'), ..s }, ActionView::Nothing),
            KeyCode::Home => (UiView { line: (s.line.0, 0nat), ..s }, ActionView::Nothing),
            KeyCode::End => (UiView { line: (s.line.0, s.line.0.len()), ..s }, ActionView::Nothing),
            _ => (s, ActionView::Nothing),
        }
    }
}

/// The reaction to a key press: Control-C quits; an open overlay takes the
/// key; then the Control shortcuts (commands, models, skills, new session,
/// tier, paste); other Control keys do nothing; Tab switches the mode unless
/// an answer is streaming; while one streams only the arrows scroll; else
/// the key edits or sends the input line.
pub open spec fn key_reaction(s: UiView, p: KeyPress, ov_count: nat, providers: nat) -> (UiView, ActionView) {
    if ctrl_letter(p, 'c') {
        (s, ActionView::Quit)
    } else if s.overlay != Overlay::Closed {
        if s.overlay == Overlay::Connect {
            connect_key(s, p, providers)
        } else {
            overlay_key(s, p, ov_count)
        }
    } else if ctrl_letter(p, 'p') {
        (with_overlay(s, Overlay::Commands, 0, Seq::empty()), ActionView::Nothing)
    } else if ctrl_letter(p, 'm') {
        (with_overlay(s, Overlay::Models, 0, Seq::empty()), ActionView::Nothing)
    } else if ctrl_letter(p, 'k') {
        (with_overlay(s, Overlay::Skills, 0, Seq::empty()), ActionView::Nothing)
    } else if ctrl_letter(p, 'n') {
        (UiView { phase: Phase::Empty, ..s }, ActionView::NewSession)
    } else if ctrl_letter(p, 't') {
        let t = ((s.tier + 1) % 3) as nat;
        (
            UiView { tier: t, ..s },
            ActionView::PromptChanged {
                note: if s.phase != Phase::Empty { Some("Tier: "@ + tier_name(t)) } else { None },
            },
        )
    } else if ctrl_letter(p, 'v') {
        (s, ActionView::PasteIntoInput)
    } else if p.ctrl {
        (s, ActionView::Nothing)
    } else if p.code == KeyCode::Tab && s.phase != Phase::Stream {
        let m = next_mode(s.mode);
        (
            UiView { mode: m, ..s },
            ActionView::PromptChanged {
                note: if s.phase != Phase::Empty { Some("Mode: "@ + mode_name(m)) } else { None },
            },
        )
    } else {
        chat_key(s, p)
    }
}


/// Whether a palette entry is listed for a search text: the search is empty,
/// or the lower-cased label contains the lower-cased search.
pub open spec fn label_shown(label: Seq<char>, search: Seq<char>) -> bool {
    search.len() == 0 || contains_seq(lowercase(label), lowercase(search))
}

/// The positions of the palette entries listed for a search, in order.
pub fn shown_entries(labels: &[&str], search: &str) -> (v: Vec<usize>)
    ensures
        forall|k: int| 0 <= k < v@.len() ==> #[trigger] v@[k] < labels@.len() && label_shown(labels@[v@[k] as int]@, search@),
        forall|k: int, l: int| 0 <= k < l < v@.len() ==> v@[k] < v@[l],
        forall|i: int| 0 <= i < labels@.len() && label_shown(#[trigger] labels@[i]@, search@) ==> v@.contains(i as usize),
{
    let mut v: Vec<usize> = Vec::new();
    let empty = search.unicode_len() == 0;
    let needle = to_lowercase(search);
    let mut i: usize = 0;
    while i < labels.len()
        invariant
            i <= labels@.len(),
            empty == (search@.len() == 0),
            needle@ == lowercase(search@),
            forall|k: int| 0 <= k < v@.len() ==> #[trigger] v@[k] < i && label_shown(labels@[v@[k] as int]@, search@),
            forall|k: int, l: int| 0 <= k < l < v@.len() ==> v@[k] < v@[l],
            forall|j: int| 0 <= j < i && label_shown(#[trigger] labels@[j]@, search@) ==> v@.contains(j as usize),
        decreases labels@.len() - i,
    {
        let shown = if empty {
            true
        } else {
            let low = to_lowercase(labels[i]);
            str_contains(low.as_str(), needle.as_str())
        };
        if shown {
            let ghost before = v@;
            v.push(i);
            assert forall|j: int| 0 <= j < i && label_shown(#[trigger] labels@[j]@, search@) implies v@.contains(j as usize) by {
                let k = choose|k: int| 0 <= k < before.len() && before[k] == j as usize;
                assert(v@[k] == j as usize);
            }
            assert(v@[v@.len() - 1] == i);
        }
        i = i + 1;
    }
    v
}

/// The texts of a list of strings.
pub open spec fn cat_views(cats: Seq<&str>) -> Seq<Seq<char>> {
    cats.map_values(|c: &str| c@)
}

/// Whether the entry at position `j` opens a new category, so that a
/// heading line stands above it.
pub open spec fn opens_category(cats: Seq<Seq<char>>, j: int) -> bool {
    j == 0 || cats[j] != cats[j - 1]
}

/// The number of headings among the first `n` entries.
pub open spec fn headings(cats: Seq<Seq<char>>, n: nat) -> nat
    decreases n,
{
    if n == 0 {
        0
    } else {
        headings(cats, (n - 1) as nat) + if opens_category(cats, n - 1) { 1nat } else { 0nat }
    }
}

/// The line on which the entry at position `i` is drawn: the entries before
/// it and the headings up to and including its own.
pub open spec fn entry_line(cats: Seq<Seq<char>>, i: nat) -> nat {
    i + headings(cats, i + 1)
}

proof fn headings_grow(cats: Seq<Seq<char>>, a: nat, b: nat)
    requires
        a <= b,
    ensures
        headings(cats, a) <= headings(cats, b),
    decreases b,
{
    if a < b {
        headings_grow(cats, a, (b - 1) as nat);
    }
}

/// Which entry a click on a line of the command palette selects, when the
/// entries listed have these categories: the entry drawn on that line, or
/// none when the line holds a heading or lies below the list.
pub fn resolve_click(cats: &[&str], clicked: usize) -> (r: Option<usize>)
    ensures
        match r {
            Some(i) => i < cats@.len() && entry_line(cat_views(cats@), i as nat) == clicked,
            None => forall|i: nat| i < cats@.len() ==> #[trigger] entry_line(cat_views(cats@), i) != clicked,
        },
{
    let ghost cs = cat_views(cats@);
    let mut line: usize = 0;
    let mut gi: usize = 0;
    while gi < cats.len()
        invariant
            gi <= cats@.len(),
            cs == cat_views(cats@),
            line == gi + headings(cs, gi as nat),
            line <= clicked,
            forall|i: nat| i < gi ==> #[trigger] entry_line(cs, i) != clicked,
        decreases cats@.len() - gi,
    {
        let opens = gi == 0 || !str_eq(cats[gi], cats[gi - 1]);
        assert(opens == opens_category(cs, gi as int));
        if opens {
            if line == clicked {
                assert forall|i: nat| i < cats@.len() implies #[trigger] entry_line(cs, i) != clicked by {
                    if i >= gi {
                        headings_grow(cs, (gi + 1) as nat, i + 1);
                    }
                }
                return None;
            }
            line = line + 1;
        }
        assert(line == entry_line(cs, gi as nat));
        if line == clicked {
            return Some(gi);
        }
        line = line + 1;
        gi = gi + 1;
    }
    None
}

/// A mouse event.
#[derive(Clone, Copy, Debug, PartialEq, Eq, Structural)]
pub enum MouseKind {
    LeftDown { column: u16, row: u16 },
    ScrollUp,
    ScrollDown,
    Other,
}

/// Whether a point lies outside a rectangle given as column, row, width and height.
pub open spec fn outside(column: int, row: int, rect: (u16, u16, u16, u16)) -> bool {
    column < rect.0 || column >= rect.0 + rect.2 || row < rect.1 || row >= rect.1 + rect.3
}

/// The reaction to a mouse event. With an overlay open, a click outside its
/// rectangle closes it; a click on a listed entry (the lines from `item_y`
/// down) selects it and asks for it to be carried out; the wheel moves the
/// selection. With none open, the wheel scrolls the chat.
pub open spec fn mouse_reaction(
    s: UiView,
    m: MouseKind,
    rect: (u16, u16, u16, u16),
    item_y: u16,
    ov_count: nat,
    cats: Seq<Seq<char>>,
) -> (UiView, ActionView) {
    if s.overlay != Overlay::Closed {
        match m {
            MouseKind::LeftDown { column, row } => if outside(column as int, row as int, rect) {
                (with_overlay(s, Overlay::Closed, s.ov_idx, Seq::empty()), ActionView::Nothing)
            } else if row >= item_y {
                let clicked = (row - item_y) as nat;
                if s.overlay == Overlay::Commands {
                    if exists|i: nat| i < cats.len() && #[trigger] entry_line(cats, i) == clicked {
                        let i = choose|i: nat| i < cats.len() && #[trigger] entry_line(cats, i) == clicked;
                        (UiView { ov_idx: i, ..s }, ActionView::ExecuteOverlay)
                    } else {
                        (s, ActionView::Nothing)
                    }
                } else if clicked < ov_count {
                    (UiView { ov_idx: clicked, ..s }, ActionView::ExecuteOverlay)
                } else {
                    (s, ActionView::Nothing)
                }
            } else {
                (s, ActionView::Nothing)
            },
            MouseKind::ScrollUp => (UiView { ov_idx: if s.ov_idx > 0 { (s.ov_idx - 1) as nat } else { 0 }, ..s }, ActionView::Nothing),
            MouseKind::ScrollDown => (
                UiView { ov_idx: if s.ov_idx + 1 < ov_count { s.ov_idx + 1 } else { s.ov_idx }, ..s },
                ActionView::Nothing,
            ),
            MouseKind::Other => (s, ActionView::Nothing),
        }
    } else {
        match m {
            MouseKind::ScrollUp => (s, ActionView::ScrollUp),
            MouseKind::ScrollDown => (s, ActionView::ScrollDown),
            _ => (s, ActionView::Nothing),
        }
    }
}

proof fn entry_lines_distinct(cats: Seq<Seq<char>>, i: nat, j: nat)
    requires
        i < j,
    ensures
        entry_line(cats, i) < entry_line(cats, j),
{
    headings_grow(cats, i + 1, j + 1);
}


/// Whether a skill is listed for a search text: the search is empty, the
/// name contains it, or the lower-cased description contains it lower-cased.
pub open spec fn skill_shown(name: Seq<char>, desc: Seq<char>, search: Seq<char>) -> bool {
    search.len() == 0 || contains_seq(name, search) || contains_seq(lowercase(desc), lowercase(search))
}

/// The positions of the skills, given as name and description, listed for a search.
pub fn shown_skills(skills: &[(&str, &str)], search: &str) -> (v: Vec<usize>)
    ensures
        forall|k: int| 0 <= k < v@.len() ==> #[trigger] v@[k] < skills@.len() && skill_shown(
            skills@[v@[k] as int].0@,
            skills@[v@[k] as int].1@,
            search@,
        ),
        forall|k: int, l: int| 0 <= k < l < v@.len() ==> v@[k] < v@[l],
        forall|i: int|
            0 <= i < skills@.len() && skill_shown(#[trigger] skills@[i].0@, skills@[i].1@, search@) ==> v@.contains(
                i as usize,
            ),
{
    let mut v: Vec<usize> = Vec::new();
    let empty = search.unicode_len() == 0;
    let needle = to_lowercase(search);
    let mut i: usize = 0;
    while i < skills.len()
        invariant
            i <= skills@.len(),
            empty == (search@.len() == 0),
            needle@ == lowercase(search@),
            forall|k: int| 0 <= k < v@.len() ==> #[trigger] v@[k] < i && skill_shown(
                skills@[v@[k] as int].0@,
                skills@[v@[k] as int].1@,
                search@,
            ),
            forall|k: int, l: int| 0 <= k < l < v@.len() ==> v@[k] < v@[l],
            forall|j: int|
                0 <= j < i && skill_shown(#[trigger] skills@[j].0@, skills@[j].1@, search@) ==> v@.contains(j as usize),
        decreases skills@.len() - i,
    {
        let (name, desc) = skills[i];
        let shown = if empty {
            true
        } else if str_contains(name, search) {
            true
        } else {
            let low = to_lowercase(desc);
            str_contains(low.as_str(), needle.as_str())
        };
        if shown {
            let ghost before = v@;
            v.push(i);
            assert forall|j: int|
                0 <= j < i && skill_shown(#[trigger] skills@[j].0@, skills@[j].1@, search@) implies v@.contains(
                j as usize,
            ) by {
                let k = choose|k: int| 0 <= k < before.len() && before[k] == j as usize;
                assert(v@[k] == j as usize);
            }
            assert(v@[v@.len() - 1] == i);
        }
        i = i + 1;
    }
    v
}

/// A command of the palette.
#[derive(Clone, Copy, Debug, PartialEq, Eq, Structural)]
pub enum PaletteCommand {
    SwitchModel,
    Tier,
    ApiKeys,
    SwitchMode,
    NewSession,
    Skills,
    Help,
    Exit,
    Other,
}

/// The command a palette label stands for.
pub open spec fn palette_meaning(label: Seq<char>) -> PaletteCommand {
    if label == "Switch model"@ {
        PaletteCommand::SwitchModel
    } else if label == "Intelligence tier"@ {
        PaletteCommand::Tier
    } else if label == "API keys"@ {
        PaletteCommand::ApiKeys
    } else if label == "Switch mode"@ {
        PaletteCommand::SwitchMode
    } else if label == "New session"@ {
        PaletteCommand::NewSession
    } else if label == "Skills"@ {
        PaletteCommand::Skills
    } else if label == "Help"@ {
        PaletteCommand::Help
    } else if label == "Exit"@ {
        PaletteCommand::Exit
    } else {
        PaletteCommand::Other
    }
}

/// Reads a palette label.
pub fn palette_command(label: &str) -> (c: PaletteCommand)
    ensures
        c == palette_meaning(label@),
{
    if str_eq(label, "Switch model") {
        PaletteCommand::SwitchModel
    } else if str_eq(label, "Intelligence tier") {
        PaletteCommand::Tier
    } else if str_eq(label, "API keys") {
        PaletteCommand::ApiKeys
    } else if str_eq(label, "Switch mode") {
        PaletteCommand::SwitchMode
    } else if str_eq(label, "New session") {
        PaletteCommand::NewSession
    } else if str_eq(label, "Skills") {
        PaletteCommand::Skills
    } else if str_eq(label, "Help") {
        PaletteCommand::Help
    } else if str_eq(label, "Exit") {
        PaletteCommand::Exit
    } else {
        PaletteCommand::Other
    }
}

/// The note the palette's help entry shows.
pub open spec fn palette_help() -> Seq<char> {
    "Tab mode · Ctrl+T tier · Ctrl+P cmds · Ctrl+M model · Shift+Enter newline"@
}

/// The view with the overlay closed and its search cleared.
pub open spec fn closed(s: UiView) -> UiView {
    with_overlay(s, Overlay::Closed, s.ov_idx, Seq::empty())
}

/// What carrying out the selected overlay entry does. `command` is the
/// command of the palette entry selected, if any, and `listed` the number of
/// entries the open overlay lists. Opening another overlay leaves this one
/// for it; everything else closes the overlay.
pub open spec fn overlay_execution(s: UiView, command: Option<PaletteCommand>, listed: nat) -> (UiView, ActionView) {
    match s.overlay {
        Overlay::Commands => match command {
            Some(PaletteCommand::Exit) => (closed(s), ActionView::Quit),
            Some(PaletteCommand::NewSession) => (closed(UiView { phase: Phase::Empty, ..s }), ActionView::NewSession),
            Some(PaletteCommand::SwitchModel) => (with_overlay(s, Overlay::Models, 0, Seq::empty()), ActionView::Nothing),
            Some(PaletteCommand::Skills) => (with_overlay(s, Overlay::Skills, 0, Seq::empty()), ActionView::Nothing),
            Some(PaletteCommand::ApiKeys) => (
                UiView { overlay: Overlay::Connect, ov_idx: 0, editing: false, key_input: Seq::empty(), ..s },
                ActionView::Nothing,
            ),
            Some(PaletteCommand::SwitchMode) => {
                let m = next_mode(s.mode);
                (closed(UiView { mode: m, ..s }), ActionView::PromptChanged { note: Some("Mode: "@ + mode_name(m)) })
            },
            Some(PaletteCommand::Tier) => {
                let t = ((s.tier + 1) % 3) as nat;
                (closed(UiView { tier: t, ..s }), ActionView::Note("Tier: "@ + tier_name(t)))
            },
            Some(PaletteCommand::Help) => (closed(s), ActionView::Note(palette_help())),
            _ => (closed(s), ActionView::Nothing),
        },
        Overlay::Models => (
            closed(s),
            if s.ov_idx < listed {
                ActionView::SelectModel { model: s.ov_idx }
            } else {
                ActionView::Nothing
            },
        ),
        Overlay::Skills => (
            closed(s),
            if s.ov_idx < listed {
                ActionView::ActivateSkill { skill: s.ov_idx }
            } else {
                ActionView::Nothing
            },
        ),
        _ => (closed(s), ActionView::Nothing),
    }
}


/// A key pressed with Control.
pub open spec fn control(c: char) -> KeyPress {
    KeyPress { code: KeyCode::Char(c), ctrl: true, shift: false }
}

/// The keyboard shortcuts: Control-C quits whatever is showing. With no
/// overlay open, Control-P opens the command palette, Control-M the model
/// list and Control-K the skills, each with an empty search and the first
/// entry selected; Control-N starts a new session; Control-T moves to the
/// next intelligence tier; Tab moves to the next mode unless an answer is
/// streaming in.
pub proof fn keyboard_shortcuts(s: UiView, ov_count: nat, providers: nat)
    ensures
        key_reaction(s, control('c'), ov_count, providers).1 == ActionView::Quit,
        s.overlay == Overlay::Closed ==> key_reaction(s, control('p'), ov_count, providers) == (
            with_overlay(s, Overlay::Commands, 0, Seq::empty()),
            ActionView::Nothing,
        ),
        s.overlay == Overlay::Closed ==> key_reaction(s, control('m'), ov_count, providers) == (
            with_overlay(s, Overlay::Models, 0, Seq::empty()),
            ActionView::Nothing,
        ),
        s.overlay == Overlay::Closed ==> key_reaction(s, control('k'), ov_count, providers) == (
            with_overlay(s, Overlay::Skills, 0, Seq::empty()),
            ActionView::Nothing,
        ),
        s.overlay == Overlay::Closed ==> key_reaction(s, control('n'), ov_count, providers).1 == ActionView::NewSession
            && key_reaction(s, control('n'), ov_count, providers).0.phase == Phase::Empty,
        s.overlay == Overlay::Closed ==> key_reaction(s, control('t'), ov_count, providers).0.tier == (s.tier + 1) % 3,
        s.overlay == Overlay::Closed && s.phase != Phase::Stream ==> key_reaction(
            s,
            KeyPress { code: KeyCode::Tab, ctrl: false, shift: false },
            ov_count,
            providers,
        ).0.mode == next_mode(s.mode),
{
}

/// Three switches of mode come back to the mode one started in, through
/// the two others; three tier changes come back to the tier one started at.
pub proof fn modes_and_tiers_cycle(m: Mode, t: nat)
    requires
        t < 3,
    ensures
        next_mode(next_mode(next_mode(m))) == m,
        next_mode(m) != m,
        next_mode(next_mode(m)) != m,
        (((t + 1) % 3 + 1) % 3 + 1) % 3 == t,
{
}


/// The note `/help` shows.
pub open spec fn slash_help() -> Seq<char> {
    "Tab mode · Ctrl+T tier · Ctrl+P cmds · Ctrl+M model · Ctrl+K skills · Ctrl+N new · Shift+Enter newline · /exit quit"@
}

/// What a slash command does: `/help` shows the keys, `/clear` starts a
/// new session, `/model` shows the model, `/exit` quits, `/connect` opens
/// the key providers; a line that is no command does nothing.
pub open spec fn slash_reaction(s: UiView, cmd: Option<SlashCommand>) -> (UiView, ActionView) {
    match cmd {
        Some(SlashCommand::Help) => (s, ActionView::Note(slash_help())),
        Some(SlashCommand::Clear) => (UiView { phase: Phase::Empty, ..s }, ActionView::NewSession),
        Some(SlashCommand::Model) => (s, ActionView::ShowModel),
        Some(SlashCommand::Exit) => (s, ActionView::Quit),
        Some(SlashCommand::Connect) => (
            UiView { overlay: Overlay::Connect, ov_idx: 0, editing: false, key_input: Seq::empty(), ..s },
            ActionView::Nothing,
        ),
        None => (s, ActionView::Nothing),
    }
}

impl UiState {
    /// The tier names one of the three tiers and the input line is in order.
    pub open spec fn wf(&self) -> bool {
        self.tier < TIER_COUNT && self.line.wf()
    }

    /// A fresh interface: nothing said yet, build mode, automatic tier, no overlay.
    pub fn new() -> (s: UiState)
        ensures
            s.wf(),
            s@.phase == Phase::Empty,
            s@.mode == Mode::Build,
            s@.tier == 0,
            s@.overlay == Overlay::Closed,
            s@.ov_idx == 0,
            s@.search.len() == 0,
            !s@.editing,
            s@.key_input.len() == 0,
            s@.line == (Seq::<char>::empty(), 0nat),
    {
        UiState {
            phase: Phase::Empty,
            mode: Mode::Build,
            tier: 0,
            overlay: Overlay::Closed,
            ov_idx: 0,
            search: Vec::new(),
            editing: false,
            key_input: Vec::new(),
            line: InputLine::new(),
        }
    }

    fn open_overlay(&mut self, o: Overlay)
        requires
            old(self).wf(),
        ensures
            final(self).wf(),
            final(self)@ == with_overlay(old(self)@, o, 0, Seq::empty()),
    {
        self.overlay = o;
        self.ov_idx = 0;
        self.search = Vec::new();
        assert(self@ =~= with_overlay(old(self)@, o, 0, Seq::empty()));
    }

    fn on_connect_key(&mut self, p: KeyPress, providers: usize) -> (r: UiAction)
        requires
            old(self).wf(),
        ensures
            final(self).wf(),
            (final(self)@, r@) == connect_key(old(self)@, p, providers as nat),
    {
        if self.editing {
            match p.code {
                KeyCode::Esc => {
                    self.editing = false;
                    self.key_input = Vec::new();
                    assert(self.key_input@ =~= Seq::<char>::empty());
                    UiAction::Nothing
                },
                KeyCode::Enter => {
                    let t = trim_chars(self.key_input.as_slice());
                    let idx = self.ov_idx;
                    self.editing = false;
                    self.key_input = Vec::new();
                    assert(self.key_input@ =~= Seq::<char>::empty());
                    if t.len() > 0 && idx < providers {
                        UiAction::SaveKey { provider: idx, key: string_from_chars(t.as_slice()) }
                    } else {
                        UiAction::Nothing
                    }
                },
                KeyCode::Backspace => {
                    let ghost before = self.key_input@;
                    self.key_input.pop();
                    assert(self.key_input@ =~= pop_last(before));
                    UiAction::Nothing
                },
                KeyCode::Char(c) => {
                    if p.ctrl {
                        if c == 'v' {
                            UiAction::PasteIntoKey
                        } else {
                            UiAction::Nothing
                        }
                    } else {
                        self.key_input.push(c);
                        UiAction::Nothing
                    }
                },
                _ => UiAction::Nothing,
            }
        } else {
            match p.code {
                KeyCode::Esc => {
                    self.overlay = Overlay::Closed;
                    UiAction::Nothing
                },
                KeyCode::Up => {
                    if self.ov_idx > 0 {
                        self.ov_idx = self.ov_idx - 1;
                    }
                    UiAction::Nothing
                },
                KeyCode::Down => {
                    if providers > 0 && self.ov_idx < providers - 1 {
                        self.ov_idx = self.ov_idx + 1;
                    }
                    UiAction::Nothing
                },
                KeyCode::Enter => {
                    self.editing = true;
                    self.key_input = Vec::new();
                    assert(self.key_input@ =~= Seq::<char>::empty());
                    UiAction::Nothing
                },
                KeyCode::Delete => {
                    if self.ov_idx < providers {
                        UiAction::RemoveKey { provider: self.ov_idx }
                    } else {
                        UiAction::Nothing
                    }
                },
                _ => UiAction::Nothing,
            }
        }
    }

    fn on_overlay_key(&mut self, p: KeyPress, ov_count: usize) -> (r: UiAction)
        requires
            old(self).wf(),
        ensures
            final(self).wf(),
            (final(self)@, r@) == overlay_key(old(self)@, p, ov_count as nat),
    {
        match p.code {
            KeyCode::Esc => {
                self.overlay = Overlay::Closed;
                self.search = Vec::new();
                assert(self@ =~= with_overlay(old(self)@, Overlay::Closed, old(self)@.ov_idx, Seq::empty()));
                UiAction::Nothing
            },
            KeyCode::Up => {
                if self.ov_idx > 0 {
                    self.ov_idx = self.ov_idx - 1;
                }
                UiAction::Nothing
            },
            KeyCode::Down => {
                if ov_count > 0 && self.ov_idx < ov_count - 1 {
                    self.ov_idx = self.ov_idx + 1;
                }
                UiAction::Nothing
            },
            KeyCode::Enter => UiAction::ExecuteOverlay,
            KeyCode::Backspace => {
                let ghost before = self.search@;
                self.search.pop();
                self.ov_idx = 0;
                assert(self.search@ =~= pop_last(before));
                UiAction::Nothing
            },
            KeyCode::Char(c) => {
                if !p.ctrl {
                    self.search.push(c);
                    self.ov_idx = 0;
                }
                UiAction::Nothing
            },
            _ => UiAction::Nothing,
        }
    }

    fn on_chat_key(&mut self, p: KeyPress) -> (r: UiAction)
        requires
            old(self).wf(),
        ensures
            final(self).wf(),
            (final(self)@, r@) == chat_key(old(self)@, p),
    {
        if self.phase == Phase::Stream {
            return match p.code {
                KeyCode::Up => UiAction::ScrollUp,
                KeyCode::Down => UiAction::ScrollDown,
                _ => UiAction::Nothing,
            };
        }
        match p.code {
            KeyCode::Enter => {
                if p.shift {
                    self.line.insert('\n');
                    return UiAction::Nothing;
                }
                let was_empty = self.phase == Phase::Empty;
                let text = self.line.take();
                let tv = crate::text::chars_of(text.as_str());
                let t = trim_chars(tv.as_slice());
                if t.len() == 0 {
                    return UiAction::Nothing;
                }
                let ts = string_from_chars(t.as_slice());
                if crate::text::str_starts_with(ts.as_str(), "/") {
                    UiAction::Slash(ts)
                } else {
                    self.phase = Phase::Stream;
                    UiAction::Submit { text, opens_session: was_empty }
                }
            },
            KeyCode::Char(c) => {
                self.line.insert(c);
                UiAction::Nothing
            },
            KeyCode::Backspace => {
                self.line.backspace();
                UiAction::Nothing
            },
            KeyCode::Left => {
                self.line.left();
                UiAction::Nothing
            },
            KeyCode::Right => {
                self.line.right();
                UiAction::Nothing
            },
            KeyCode::Up => UiAction::ScrollUp,
            KeyCode::Down => {
                self.line.insert('\n');
                UiAction::Nothing
            },
            KeyCode::Home => {
                self.line.home();
                UiAction::Nothing
            },
            KeyCode::End => {
                self.line.end();
                UiAction::Nothing
            },
            _ => UiAction::Nothing,
        }
    }

    /// Reacts to a key press; `ov_count` is the number of entries the open
    /// overlay lists and `providers` the number of key providers.
    pub fn on_key(&mut self, p: KeyPress, ov_count: usize, providers: usize) -> (r: UiAction)
        requires
            old(self).wf(),
        ensures
            final(self).wf(),
            (final(self)@, r@) == key_reaction(old(self)@, p, ov_count as nat, providers as nat),
    {
        if is_ctrl(p, 'c') {
            return UiAction::Quit;
        }
        if self.overlay != Overlay::Closed {
            if self.overlay == Overlay::Connect {
                return self.on_connect_key(p, providers);
            }
            return self.on_overlay_key(p, ov_count);
        }
        if is_ctrl(p, 'p') {
            self.open_overlay(Overlay::Commands);
            return UiAction::Nothing;
        }
        if is_ctrl(p, 'm') {
            self.open_overlay(Overlay::Models);
            return UiAction::Nothing;
        }
        if is_ctrl(p, 'k') {
            self.open_overlay(Overlay::Skills);
            return UiAction::Nothing;
        }
        if is_ctrl(p, 'n') {
            self.phase = Phase::Empty;
            return UiAction::NewSession;
        }
        if is_ctrl(p, 't') {
            self.tier = (self.tier + 1) % TIER_COUNT;
            let note = if self.phase != Phase::Empty {
                let mut n = String::from_str("Tier: ");
                n.append(tier_label(self.tier));
                Some(n)
            } else {
                None
            };
            return UiAction::PromptChanged { note };
        }
        if is_ctrl(p, 'v') {
            return UiAction::PasteIntoInput;
        }
        if p.ctrl {
            return UiAction::Nothing;
        }
        if p.code == KeyCode::Tab && self.phase != Phase::Stream {
            self.mode = match self.mode {
                Mode::Build => Mode::Plan,
                Mode::Plan => Mode::MultiAgent,
                Mode::MultiAgent => Mode::Build,
            };
            let note = if self.phase != Phase::Empty {
                let mut n = String::from_str("Mode: ");
                n.append(mode_label(self.mode));
                Some(n)
            } else {
                None
            };
            return UiAction::PromptChanged { note };
        }
        self.on_chat_key(p)
    }

    /// Reacts to a mouse event; `rect` is where the open overlay is drawn,
    /// `item_y` the row of its first entry line, `ov_count` the number of
    /// entries it lists, and `cats` the categories of the palette entries
    /// listed, in order (read when the command palette is open).
    pub fn on_mouse(
        &mut self,
        m: MouseKind,
        rect: (u16, u16, u16, u16),
        item_y: u16,
        ov_count: usize,
        cats: &[&str],
    ) -> (r: UiAction)
        requires
            old(self).wf(),
        ensures
            final(self).wf(),
            (final(self)@, r@) == mouse_reaction(old(self)@, m, rect, item_y, ov_count as nat, cat_views(cats@)),
    {
        let ghost cs = cat_views(cats@);
        if self.overlay == Overlay::Closed {
            return match m {
                MouseKind::ScrollUp => UiAction::ScrollUp,
                MouseKind::ScrollDown => UiAction::ScrollDown,
                _ => UiAction::Nothing,
            };
        }
        match m {
            MouseKind::LeftDown { column, row } => {
                let right: u32 = rect.0 as u32 + rect.2 as u32;
                let bottom: u32 = rect.1 as u32 + rect.3 as u32;
                if column < rect.0 || column as u32 >= right || row < rect.1 || row as u32 >= bottom {
                    self.overlay = Overlay::Closed;
                    self.search = Vec::new();
                    assert(self@ =~= with_overlay(old(self)@, Overlay::Closed, old(self)@.ov_idx, Seq::empty()));
                    return UiAction::Nothing;
                }
                if row < item_y {
                    return UiAction::Nothing;
                }
                let clicked = (row - item_y) as usize;
                let target = if self.overlay == Overlay::Commands {
                    let t = resolve_click(cats, clicked);
                    proof {
                        match t {
                            Some(i) => {
                                assert forall|k: nat| k < cs.len() && #[trigger] entry_line(cs, k) == clicked implies k == i by {
                                    if k < i {
                                        entry_lines_distinct(cs, k, i as nat);
                                    } else if i < k {
                                        entry_lines_distinct(cs, i as nat, k);
                                    }
                                }
                            },
                            None => {},
                        }
                    }
                    t
                } else if clicked < ov_count {
                    Some(clicked)
                } else {
                    None
                };
                match target {
                    Some(i) => {
                        self.ov_idx = i;
                        UiAction::ExecuteOverlay
                    },
                    None => UiAction::Nothing,
                }
            },
            MouseKind::ScrollUp => {
                if self.ov_idx > 0 {
                    self.ov_idx = self.ov_idx - 1;
                }
                UiAction::Nothing
            },
            MouseKind::ScrollDown => {
                if ov_count > 0 && self.ov_idx < ov_count - 1 {
                    self.ov_idx = self.ov_idx + 1;
                }
                UiAction::Nothing
            },
            MouseKind::Other => UiAction::Nothing,
        }
    }

    /// Carries out a slash command (as `slash_command` reads the line).
    pub fn run_slash(&mut self, cmd: Option<SlashCommand>) -> (r: UiAction)
        requires
            old(self).wf(),
        ensures
            final(self).wf(),
            (final(self)@, r@) == slash_reaction(old(self)@, cmd),
    {
        match cmd {
            Some(SlashCommand::Help) => UiAction::Note(
                String::from_str(
                    "Tab mode · Ctrl+T tier · Ctrl+P cmds · Ctrl+M model · Ctrl+K skills · Ctrl+N new · Shift+Enter newline · /exit quit",
                ),
            ),
            Some(SlashCommand::Clear) => {
                self.phase = Phase::Empty;
                UiAction::NewSession
            },
            Some(SlashCommand::Model) => UiAction::ShowModel,
            Some(SlashCommand::Exit) => UiAction::Quit,
            Some(SlashCommand::Connect) => {
                self.overlay = Overlay::Connect;
                self.ov_idx = 0;
                self.editing = false;
                self.key_input = Vec::new();
                assert(self.key_input@ =~= Seq::<char>::empty());
                UiAction::Nothing
            },
            None => UiAction::Nothing,
        }
    }

    /// Carries out the selected entry of the open overlay; `command` is the
    /// command of the selected palette entry (when the palette is open and an
    /// entry is selected) and `listed` the number of entries the overlay lists.
    pub fn execute_overlay(&mut self, command: Option<PaletteCommand>, listed: usize) -> (r: UiAction)
        requires
            old(self).wf(),
        ensures
            final(self).wf(),
            (final(self)@, r@) == overlay_execution(old(self)@, command, listed as nat),
    {
        let mut action = UiAction::Nothing;
        match self.overlay {
            Overlay::Commands => {
                match command {
                    Some(PaletteCommand::Exit) => {
                        action = UiAction::Quit;
                    },
                    Some(PaletteCommand::NewSession) => {
                        self.phase = Phase::Empty;
                        action = UiAction::NewSession;
                    },
                    Some(PaletteCommand::SwitchModel) => {
                        self.open_overlay(Overlay::Models);
                        return UiAction::Nothing;
                    },
                    Some(PaletteCommand::Skills) => {
                        self.open_overlay(Overlay::Skills);
                        return UiAction::Nothing;
                    },
                    Some(PaletteCommand::ApiKeys) => {
                        self.overlay = Overlay::Connect;
                        self.ov_idx = 0;
                        self.editing = false;
                        self.key_input = Vec::new();
                        assert(self.key_input@ =~= Seq::<char>::empty());
                        return UiAction::Nothing;
                    },
                    Some(PaletteCommand::SwitchMode) => {
                        self.mode = match self.mode {
                            Mode::Build => Mode::Plan,
                            Mode::Plan => Mode::MultiAgent,
                            Mode::MultiAgent => Mode::Build,
                        };
                        let mut n = String::from_str("Mode: ");
                        n.append(mode_label(self.mode));
                        action = UiAction::PromptChanged { note: Some(n) };
                    },
                    Some(PaletteCommand::Tier) => {
                        self.tier = (self.tier + 1) % TIER_COUNT;
                        let mut n = String::from_str("Tier: ");
                        n.append(tier_label(self.tier));
                        action = UiAction::Note(n);
                    },
                    Some(PaletteCommand::Help) => {
                        let n = String::from_str("Tab mode · Ctrl+T tier · Ctrl+P cmds · Ctrl+M model · Shift+Enter newline");
                        action = UiAction::Note(n);
                    },
                    _ => {},
                }
            },
            Overlay::Models => {
                if self.ov_idx < listed {
                    action = UiAction::SelectModel { model: self.ov_idx };
                }
            },
            Overlay::Skills => {
                if self.ov_idx < listed {
                    action = UiAction::ActivateSkill { skill: self.ov_idx };
                }
            },
            _ => {},
        }
        let ghost mid = self@;
        self.overlay = Overlay::Closed;
        self.search = Vec::new();
        assert(self@ =~= closed(mid));
        action
    }

    /// The number of entries the open overlay lists: the palette entries and
    /// skills that match the search, all models, all key providers.
    pub fn ov_count(&self, labels: &[&str], skills: &[(&str, &str)], models: usize, providers: usize) -> (n: usize)
        ensures
            n == (match self.overlay {
                Overlay::Commands => Set::new(|i: int| 0 <= i < labels@.len() && label_shown(labels@[i]@, self.search@)).len(),
                Overlay::Skills => Set::new(|i: int| 0 <= i < skills@.len() && skill_shown(skills@[i].0@, skills@[i].1@, self.search@)).len(),
                Overlay::Models => models as nat,
                Overlay::Connect => providers as nat,
                Overlay::Closed => 0,
            }),
    {
        let search = string_from_chars(self.search.as_slice());
        match self.overlay {
            Overlay::Commands => {
                let v = shown_entries(labels, search.as_str());
                let nl = labels.len();
                proof {
                    let ss = Set::new(|i: int| 0 <= i < labels@.len() && label_shown(labels@[i]@, self.search@));
                    assert forall|i: int| ss.contains(i) implies exists|k: int| 0 <= k < v@.len() && #[trigger] v@[k] as int == i by {
                        assert(0 <= i < nl);
                        assert(v@.contains(i as usize));
                        let k = choose|k: int| 0 <= k < v@.len() && v@[k] == i as usize;
                        assert(v@[k] as int == i);
                    }
                    positions_count(v@, ss);
                }
                v.len()
            },
            Overlay::Skills => {
                let v = shown_skills(skills, search.as_str());
                let nl = skills.len();
                proof {
                    let ss = Set::new(|i: int| 0 <= i < skills@.len() && skill_shown(skills@[i].0@, skills@[i].1@, self.search@));
                    assert forall|i: int| ss.contains(i) implies exists|k: int| 0 <= k < v@.len() && #[trigger] v@[k] as int == i by {
                        assert(0 <= i < nl);
                        assert(v@.contains(i as usize));
                        let k = choose|k: int| 0 <= k < v@.len() && v@[k] == i as usize;
                        assert(v@[k] as int == i);
                    }
                    positions_count(v@, ss);
                }
                v.len()
            },
            Overlay::Models => models,
            Overlay::Connect => providers,
            Overlay::Closed => 0,
        }
    }
}

/// A strictly increasing list of positions that holds exactly the members
/// of a set has as many entries as the set.
proof fn positions_count(v: Seq<usize>, s: Set<int>)
    requires
        forall|k: int, l: int| 0 <= k < l < v.len() ==> v[k] < v[l],
        forall|k: int| 0 <= k < v.len() ==> s.contains(#[trigger] v[k] as int),
        forall|i: int| s.contains(i) ==> exists|k: int| 0 <= k < v.len() && #[trigger] v[k] as int == i,
    ensures
        s.finite(),
        s.len() == v.len(),
    decreases v.len(),
{
    if v.len() == 0 {
        assert(s =~= Set::empty());
    } else {
        let last = v.last() as int;
        let s2 = s.remove(last);
        let v2 = v.drop_last();
        assert forall|i: int| s2.contains(i) implies exists|k: int| 0 <= k < v2.len() && #[trigger] v2[k] as int == i by {
            let k = choose|k: int| 0 <= k < v.len() && #[trigger] v[k] as int == i;
            if k == v.len() - 1 {
                assert(false);
            }
            assert(v2[k] as int == i);
        }
        assert forall|k: int| 0 <= k < v2.len() implies s2.contains(#[trigger] v2[k] as int) by {
            assert(v[k] < v[v.len() - 1]);
            assert(s.contains(v[k] as int));
        }
        positions_count(v2, s2);
        assert(s2.insert(last) =~= s);
    }
}

} // verus!
