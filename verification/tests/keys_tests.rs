use openzax::cli::SlashCommand;
use openzax::keys::palette_command;
use openzax::keys::shown_skills;
use openzax::keys::PaletteCommand;
use openzax::cli::InputLine;
use openzax::keys::mode_label;
use openzax::keys::resolve_click;
use openzax::keys::shown_entries;
use openzax::keys::tier_label;
use openzax::keys::KeyCode;
use openzax::keys::KeyPress;
use openzax::keys::Mode;
use openzax::keys::MouseKind;
use openzax::keys::Overlay;
use openzax::keys::Phase;
use openzax::keys::UiAction;
use openzax::keys::UiState;

fn key(code: KeyCode) -> KeyPress {
    KeyPress { code, ctrl: false, shift: false }
}

fn ctrl(c: char) -> KeyPress {
    KeyPress { code: KeyCode::Char(c), ctrl: true, shift: false }
}

fn type_text(s: &mut UiState, text: &str) {
    for c in text.chars() {
        let r = s.on_key(key(KeyCode::Char(c)), 0, 0);
        assert!(matches!(r, UiAction::Nothing));
    }
}

#[test]
fn line_home_end_and_paste() {
    let mut l = InputLine::new();
    l.paste("ab\r\ncd");
    assert_eq!(l.text(), "ab\ncd");
    assert_eq!(l.cursor(), 5);
    l.home();
    assert_eq!(l.cursor(), 0);
    l.insert('>');
    assert_eq!(l.text(), ">ab\ncd");
    l.end();
    assert_eq!(l.cursor(), 6);
}

#[test]
fn labels_name_tiers_and_modes() {
    assert_eq!(tier_label(0), "auto");
    assert_eq!(tier_label(1), "high");
    assert_eq!(tier_label(2), "max");
    assert_eq!(mode_label(Mode::Build), "Build");
    assert_eq!(mode_label(Mode::Plan), "Plan");
    assert_eq!(mode_label(Mode::MultiAgent), "Multi Agent");
}

#[test]
fn control_c_quits_even_with_an_overlay() {
    let mut s = UiState::new();
    assert!(matches!(s.on_key(ctrl('p'), 0, 0), UiAction::Nothing));
    assert_eq!(s.overlay, Overlay::Commands);
    assert!(matches!(s.on_key(ctrl('c'), 0, 0), UiAction::Quit));
    let mut t = UiState::new();
    let raw = KeyPress { code: KeyCode::Char('\u{3}'), ctrl: false, shift: false };
    assert!(matches!(t.on_key(raw, 0, 0), UiAction::Quit));
}

#[test]
fn enter_submits_and_starts_streaming() {
    let mut s = UiState::new();
    type_text(&mut s, "  hi there ");
    match s.on_key(key(KeyCode::Enter), 0, 0) {
        UiAction::Submit { text, opens_session } => {
            assert_eq!(text, "  hi there ");
            assert!(opens_session);
        }
        _ => panic!("expected a submission"),
    }
    assert_eq!(s.phase, Phase::Stream);
    assert_eq!(s.line.text(), "");
    // While the answer streams, typing does nothing and arrows scroll.
    assert!(matches!(s.on_key(key(KeyCode::Char('x')), 0, 0), UiAction::Nothing));
    assert_eq!(s.line.text(), "");
    assert!(matches!(s.on_key(key(KeyCode::Up), 0, 0), UiAction::ScrollUp));
    assert!(matches!(s.on_key(key(KeyCode::Down), 0, 0), UiAction::ScrollDown));
}

#[test]
fn slash_lines_and_blank_lines() {
    let mut s = UiState::new();
    type_text(&mut s, " /help ");
    match s.on_key(key(KeyCode::Enter), 0, 0) {
        UiAction::Slash(cmd) => assert_eq!(cmd, "/help"),
        _ => panic!("expected a slash command"),
    }
    assert_eq!(s.phase, Phase::Empty);
    type_text(&mut s, "   ");
    assert!(matches!(s.on_key(key(KeyCode::Enter), 0, 0), UiAction::Nothing));
    assert_eq!(s.line.text(), "");
}

#[test]
fn shift_enter_and_down_break_the_line() {
    let mut s = UiState::new();
    type_text(&mut s, "a");
    let shifted = KeyPress { code: KeyCode::Enter, ctrl: false, shift: true };
    assert!(matches!(s.on_key(shifted, 0, 0), UiAction::Nothing));
    s.on_key(key(KeyCode::Down), 0, 0);
    assert_eq!(s.line.text(), "a\n\n");
    s.on_key(key(KeyCode::Home), 0, 0);
    assert_eq!(s.line.cursor(), 0);
    s.on_key(key(KeyCode::End), 0, 0);
    assert_eq!(s.line.cursor(), 3);
}

#[test]
fn tab_cycles_modes_and_control_t_cycles_tiers() {
    let mut s = UiState::new();
    match s.on_key(key(KeyCode::Tab), 0, 0) {
        UiAction::PromptChanged { note } => assert_eq!(note, None),
        _ => panic!("expected a prompt change"),
    }
    assert_eq!(s.mode, Mode::Plan);
    s.phase = Phase::Chat;
    match s.on_key(key(KeyCode::Tab), 0, 0) {
        UiAction::PromptChanged { note } => assert_eq!(note.as_deref(), Some("Mode: Multi Agent")),
        _ => panic!("expected a prompt change"),
    }
    s.on_key(key(KeyCode::Tab), 0, 0);
    assert_eq!(s.mode, Mode::Build);
    match s.on_key(ctrl('t'), 0, 0) {
        UiAction::PromptChanged { note } => assert_eq!(note.as_deref(), Some("Tier: high")),
        _ => panic!("expected a prompt change"),
    }
    s.on_key(ctrl('t'), 0, 0);
    s.on_key(ctrl('t'), 0, 0);
    assert_eq!(s.tier, 0);
    assert!(matches!(s.on_key(ctrl('n'), 0, 0), UiAction::NewSession));
    assert_eq!(s.phase, Phase::Empty);
}

#[test]
fn overlay_search_and_selection() {
    let mut s = UiState::new();
    s.on_key(ctrl('m'), 0, 0);
    assert_eq!(s.overlay, Overlay::Models);
    s.on_key(key(KeyCode::Down), 3, 0);
    s.on_key(key(KeyCode::Down), 3, 0);
    s.on_key(key(KeyCode::Down), 3, 0);
    assert_eq!(s.ov_idx, 2);
    s.on_key(key(KeyCode::Char('q')), 3, 0);
    assert_eq!(s.search, vec!['q']);
    assert_eq!(s.ov_idx, 0);
    s.on_key(key(KeyCode::Backspace), 3, 0);
    assert!(s.search.is_empty());
    assert!(matches!(s.on_key(key(KeyCode::Enter), 3, 0), UiAction::ExecuteOverlay));
    s.on_key(key(KeyCode::Char('z')), 3, 0);
    s.on_key(key(KeyCode::Esc), 3, 0);
    assert_eq!(s.overlay, Overlay::Closed);
    assert!(s.search.is_empty());
}

#[test]
fn connect_overlay_saves_and_removes_keys() {
    let mut s = UiState::new();
    s.overlay = Overlay::Connect;
    s.on_key(key(KeyCode::Down), 0, 2);
    assert_eq!(s.ov_idx, 1);
    s.on_key(key(KeyCode::Enter), 0, 2);
    assert!(s.editing);
    for c in " sk-1 ".chars() {
        s.on_key(key(KeyCode::Char(c)), 0, 2);
    }
    s.on_key(key(KeyCode::Backspace), 0, 2);
    assert!(matches!(s.on_key(ctrl('v'), 0, 2), UiAction::PasteIntoKey));
    match s.on_key(key(KeyCode::Enter), 0, 2) {
        UiAction::SaveKey { provider, key } => {
            assert_eq!(provider, 1);
            assert_eq!(key, "sk-1");
        }
        _ => panic!("expected a key to save"),
    }
    assert!(!s.editing);
    assert!(s.key_input.is_empty());
    match s.on_key(key(KeyCode::Delete), 0, 2) {
        UiAction::RemoveKey { provider } => assert_eq!(provider, 1),
        _ => panic!("expected a key removal"),
    }
    s.on_key(key(KeyCode::Esc), 0, 2);
    assert_eq!(s.overlay, Overlay::Closed);
}

#[test]
fn palette_lists_matching_labels() {
    let labels = ["New Session", "Switch Model", "Skills", "Exit"];
    assert_eq!(shown_entries(&labels, ""), vec![0, 1, 2, 3]);
    assert_eq!(shown_entries(&labels, "S"), vec![0, 1, 2]);
    assert_eq!(shown_entries(&labels, "model"), vec![1]);
    assert_eq!(shown_entries(&labels, "zzz"), Vec::<usize>::new());
}

#[test]
fn clicks_skip_category_headings() {
    let cats = ["Session", "Session", "Agent", "System"];
    // Line 0: heading; 1, 2: entries; 3: heading; 4: entry; 5: heading; 6: entry.
    assert_eq!(resolve_click(&cats, 0), None);
    assert_eq!(resolve_click(&cats, 1), Some(0));
    assert_eq!(resolve_click(&cats, 2), Some(1));
    assert_eq!(resolve_click(&cats, 3), None);
    assert_eq!(resolve_click(&cats, 4), Some(2));
    assert_eq!(resolve_click(&cats, 6), Some(3));
    assert_eq!(resolve_click(&cats, 7), None);
}

#[test]
fn mouse_clicks_and_wheel() {
    let mut s = UiState::new();
    assert!(matches!(s.on_mouse(MouseKind::ScrollUp, (0, 0, 0, 0), 0, 0, &[]), UiAction::ScrollUp));
    assert!(matches!(s.on_mouse(MouseKind::ScrollDown, (0, 0, 0, 0), 0, 0, &[]), UiAction::ScrollDown));
    s.on_key(ctrl('k'), 0, 0);
    let rect = (10, 5, 20, 10);
    assert!(matches!(s.on_mouse(MouseKind::LeftDown { column: 12, row: 8 }, rect, 7, 4, &[]), UiAction::ExecuteOverlay));
    assert_eq!(s.ov_idx, 1);
    assert!(matches!(s.on_mouse(MouseKind::LeftDown { column: 12, row: 12 }, rect, 7, 4, &[]), UiAction::Nothing));
    s.on_mouse(MouseKind::ScrollDown, rect, 7, 4, &[]);
    assert_eq!(s.ov_idx, 2);
    s.on_mouse(MouseKind::ScrollUp, rect, 7, 4, &[]);
    assert_eq!(s.ov_idx, 1);
    assert!(matches!(s.on_mouse(MouseKind::LeftDown { column: 30, row: 8 }, rect, 7, 4, &[]), UiAction::Nothing));
    assert_eq!(s.overlay, Overlay::Closed);
    s.on_key(ctrl('p'), 0, 0);
    let cats = ["Session", "Agent"];
    assert!(matches!(s.on_mouse(MouseKind::LeftDown { column: 12, row: 9 }, rect, 6, 2, &cats), UiAction::ExecuteOverlay));
    assert_eq!(s.ov_idx, 1);
    assert!(matches!(s.on_mouse(MouseKind::LeftDown { column: 12, row: 8 }, rect, 6, 2, &cats), UiAction::Nothing));
}

#[test]
fn skills_are_found_by_name_or_description() {
    let skills = [("webapp-testing", "Test web applications"), ("docker-expert", "Docker containers")];
    assert_eq!(shown_skills(&skills, ""), vec![0, 1]);
    assert_eq!(shown_skills(&skills, "docker"), vec![1]);
    assert_eq!(shown_skills(&skills, "WEB"), vec![0]);
    assert_eq!(shown_skills(&skills, "Docker-"), Vec::<usize>::new());
}

#[test]
fn palette_entries_carry_out_their_commands() {
    assert_eq!(palette_command("Exit"), PaletteCommand::Exit);
    assert_eq!(palette_command("Switch model"), PaletteCommand::SwitchModel);
    assert_eq!(palette_command("exit"), PaletteCommand::Other);
    let mut s = UiState::new();
    s.on_key(ctrl('p'), 0, 0);
    assert!(matches!(s.execute_overlay(Some(PaletteCommand::SwitchModel), 8), UiAction::Nothing));
    assert_eq!(s.overlay, Overlay::Models);
    s.ov_idx = 2;
    assert!(matches!(s.execute_overlay(None, 5), UiAction::SelectModel { model: 2 }));
    assert_eq!(s.overlay, Overlay::Closed);
    s.on_key(ctrl('p'), 0, 0);
    match s.execute_overlay(Some(PaletteCommand::Tier), 8) {
        UiAction::Note(n) => assert_eq!(n, "Tier: high"),
        _ => panic!("expected a note"),
    }
    s.on_key(ctrl('p'), 0, 0);
    match s.execute_overlay(Some(PaletteCommand::SwitchMode), 8) {
        UiAction::PromptChanged { note } => assert_eq!(note.as_deref(), Some("Mode: Plan")),
        _ => panic!("expected a prompt change"),
    }
    s.on_key(ctrl('p'), 0, 0);
    s.on_key(key(KeyCode::Char('x')), 8, 0);
    s.execute_overlay(Some(PaletteCommand::ApiKeys), 8);
    assert_eq!(s.overlay, Overlay::Connect);
    assert_eq!(s.search, vec!['x']);
    s.overlay = Overlay::Commands;
    assert!(matches!(s.execute_overlay(Some(PaletteCommand::Exit), 8), UiAction::Quit));
    s.on_key(ctrl('k'), 0, 0);
    s.ov_idx = 3;
    assert!(matches!(s.execute_overlay(None, 3), UiAction::Nothing));
}

#[test]
fn overlays_count_their_entries() {
    let labels = ["Switch model", "Skills", "Exit"];
    let skills = [("a-skill", "Alpha"), ("b-skill", "Beta")];
    let mut s = UiState::new();
    assert_eq!(s.ov_count(&labels, &skills, 7, 3), 0);
    s.on_key(ctrl('p'), 0, 0);
    assert_eq!(s.ov_count(&labels, &skills, 7, 3), 3);
    s.on_key(key(KeyCode::Char('s')), 3, 0);
    assert_eq!(s.ov_count(&labels, &skills, 7, 3), 2);
    s.on_key(key(KeyCode::Esc), 3, 0);
    s.on_key(ctrl('k'), 0, 0);
    s.on_key(key(KeyCode::Char('b')), 2, 0);
    assert_eq!(s.ov_count(&labels, &skills, 7, 3), 1);
    s.on_key(key(KeyCode::Backspace), 2, 0);
    s.on_key(key(KeyCode::Char('k')), 2, 0);
    assert_eq!(s.ov_count(&labels, &skills, 7, 3), 2);
    s.on_key(ctrl('c'), 0, 0);
    s.overlay = Overlay::Models;
    assert_eq!(s.ov_count(&labels, &skills, 7, 3), 7);
    s.overlay = Overlay::Connect;
    assert_eq!(s.ov_count(&labels, &skills, 7, 3), 3);
}

#[test]
fn slash_commands_change_the_interface() {
    let mut s = UiState::new();
    s.phase = Phase::Chat;
    assert!(matches!(s.run_slash(Some(SlashCommand::Clear)), UiAction::NewSession));
    assert_eq!(s.phase, Phase::Empty);
    assert!(matches!(s.run_slash(Some(SlashCommand::Exit)), UiAction::Quit));
    assert!(matches!(s.run_slash(Some(SlashCommand::Model)), UiAction::ShowModel));
    match s.run_slash(Some(SlashCommand::Help)) {
        UiAction::Note(n) => assert!(n.starts_with("Tab mode")),
        _ => panic!("expected a note"),
    }
    assert!(matches!(s.run_slash(Some(SlashCommand::Connect)), UiAction::Nothing));
    assert_eq!(s.overlay, Overlay::Connect);
    assert!(!s.editing);
    assert!(matches!(s.run_slash(None), UiAction::Nothing));
}
