use std::cell::RefCell;
use vipix::bitmap2d::PosSet;
use vipix::keyboard::CharKey;
use vipix::keyboard::CharKeyMod;
use vipix::keyboard::KeyboardLayout;
use vipix::keyboard::Mod;
use vipix::keyboard::ModSet;
use vipix::ui::InputEvent;
use vipix::ui::KeyAction;
use vipix::ui::Mode;
use vipix::ui::Ui;
use vipix::ui::UiCtl;
use vipix::ui::UiHooks;

// Action tokens the tests register callbacks under.
const ACT_VERB_TRANS: u64 = 1;
const ACT_VERB_COUNT: u64 = 2;
const ACT_VERB_INSERT: u64 = 3;
const ACT_VERB_COMMAND: u64 = 4;
const ACT_CMD_COLOR: u64 = 5;
const ACT_VERB_ON_ESC: u64 = 9;
const ACT_OBJ_W: u64 = 10;
const ACT_OBJ_H: u64 = 11;

struct TestEnv {
    log: RefCell<Vec<String>>,
}

impl TestEnv {
    fn new() -> TestEnv {
        TestEnv { log: RefCell::new(Vec::new()) }
    }

    fn log_vec(&self) -> Vec<String> {
        self.log.borrow().clone()
    }

    fn count_of(&self, entry: &str) -> usize {
        self.log.borrow().iter().filter(|e| e.as_str() == entry).count()
    }
}

impl UiHooks for TestEnv {
    fn process_char(&mut self, _ctl: &mut UiCtl, chord: CharKeyMod) {
        self.log.borrow_mut().push(format!("char:{:?}", chord.key));
    }

    fn run_verb(&mut self, ctl: &mut UiCtl, action: u64, positions: Option<&PosSet>) {
        match action {
            ACT_VERB_TRANS => {
                let n = positions.map(|p| p.len()).unwrap_or(0);
                self.log.borrow_mut().push(format!("verb-trans:{}", n));
            }
            ACT_VERB_COUNT => {
                self.log.borrow_mut().push("verb-count".to_string());
            }
            ACT_VERB_INSERT => {
                ctl.set_mode(Mode::Insertion);
                self.log.borrow_mut().push("enter-insert".to_string());
            }
            ACT_VERB_COMMAND => {
                ctl.set_mode(Mode::Command);
            }
            ACT_VERB_ON_ESC => {
                self.log.borrow_mut().push("esc-verb".to_string());
            }
            _ => {}
        }
    }

    fn run_object(&self, ctl: &mut UiCtl, action: u64, positions: &mut PosSet) {
        match action {
            ACT_OBJ_W => {
                let (x, y) = ctl.cursor();
                positions.insert(x, y);
                ctl.displace(1, 0, 100, 100);
                let (x2, y2) = ctl.cursor();
                positions.insert(x2, y2);
                self.log.borrow_mut().push("obj-w".to_string());
            }
            ACT_OBJ_H => {
                ctl.displace(-1, 0, 100, 100);
                self.log.borrow_mut().push("obj-h".to_string());
            }
            _ => {}
        }
    }

    fn run_command(&mut self, _ctl: &mut UiCtl, action: u64, args: &Vec<String>) {
        self.log.borrow_mut().push(format!("cmd{}:{}", action, args.join(" ")));
    }
}

fn chord(token: &str) -> CharKeyMod {
    CharKeyMod::parse(token)
}

fn type_chars(ui: &mut Ui, env: &mut TestEnv, text: &str) {
    for c in text.chars() {
        ui.perform_char_mod(env, CharKey::Char(c), ModSet::empty());
    }
}

fn fresh_ui() -> Ui {
    Ui::new(KeyboardLayout::new())
}

#[test]
fn grammar_counted_verb_object_nesting() {
    // "2d3w": the verb fires exactly twice, each time after the object ran
    // three times, with at most four deduplicated positions.
    let mut env = TestEnv::new();
    let mut ui = fresh_ui();
    ui.add_verb(chord("d"), true, ACT_VERB_TRANS);
    ui.add_object(chord("w"), ACT_OBJ_W);
    type_chars(&mut ui, &mut env, "2d3w");
    let expected: Vec<String> = vec![
        "obj-w", "obj-w", "obj-w", "verb-trans:4", "obj-w", "obj-w", "obj-w", "verb-trans:4",
    ]
    .into_iter()
    .map(|s| s.to_string())
    .collect();
    assert_eq!(env.log_vec(), expected);
    assert_eq!(ui.cursor(), (6, 0));
}

#[test]
fn grammar_intransitive_verb_repeats_count_times() {
    let mut env = TestEnv::new();
    let mut ui = fresh_ui();
    ui.add_verb(chord("z"), false, ACT_VERB_COUNT);
    type_chars(&mut ui, &mut env, "3z");
    assert_eq!(env.count_of("verb-count"), 3);
    type_chars(&mut ui, &mut env, "z");
    assert_eq!(env.count_of("verb-count"), 4);
}

#[test]
fn grammar_multi_digit_count() {
    let mut env = TestEnv::new();
    let mut ui = fresh_ui();
    ui.add_verb(chord("z"), false, ACT_VERB_COUNT);
    type_chars(&mut ui, &mut env, "12z");
    assert_eq!(env.count_of("verb-count"), 12);
}

#[test]
fn get_selection_orders_corners() {
    let mut env = TestEnv::new();
    let mut ui = fresh_ui();
    ui.add_object(chord("w"), ACT_OBJ_W);
    type_chars(&mut ui, &mut env, "5w");
    ui.set_mode(Mode::Visual);
    ui.displace(-2, 3, 100, 100);
    // cursor (3, 3), saved cursor (5, 0): corners come out ordered.
    assert_eq!(ui.get_selection(), ((3, 0), (5, 3)));
}

#[test]
fn grammar_standalone_object_motion() {
    let mut env = TestEnv::new();
    let mut ui = fresh_ui();
    ui.add_object(chord("w"), ACT_OBJ_W);
    type_chars(&mut ui, &mut env, "4w");
    assert_eq!(env.count_of("obj-w"), 4);
    assert_eq!(ui.cursor(), (4, 0));
}

#[test]
fn grammar_unknown_object_cancels_pending_verb() {
    let mut env = TestEnv::new();
    let mut ui = fresh_ui();
    ui.add_verb(chord("d"), true, ACT_VERB_TRANS);
    ui.add_object(chord("w"), ACT_OBJ_W);
    type_chars(&mut ui, &mut env, "dx");
    // The pending verb was silently dropped: a later object moves alone.
    type_chars(&mut ui, &mut env, "w");
    assert_eq!(env.count_of("obj-w"), 1);
    assert_eq!(env.count_of("verb-trans:2"), 0);
    assert!(env.log_vec().iter().all(|e| !e.starts_with("verb-trans")));
}

#[test]
fn grammar_unmatched_chord_is_noop() {
    let mut env = TestEnv::new();
    let mut ui = fresh_ui();
    type_chars(&mut ui, &mut env, "q");
    assert!(env.log_vec().is_empty());
    assert_eq!(ui.get_mode(), Mode::Normal);
}

#[test]
fn escape_clears_buffers_and_pending_verb() {
    let mut env = TestEnv::new();
    let mut ui = fresh_ui();
    ui.add_verb(chord("d"), true, ACT_VERB_TRANS);
    ui.add_object(chord("w"), ACT_OBJ_W);
    // Pending digits and a pending verb are both dropped by Escape.
    type_chars(&mut ui, &mut env, "5d");
    ui.perform_char_mod(&mut env, CharKey::Special(0), ModSet::empty());
    assert_eq!(ui.get_mode(), Mode::Normal);
    assert_eq!(ui.get_buffer().as_str(), "");
    // The object now runs once, not five times, and fires no verb.
    type_chars(&mut ui, &mut env, "w");
    assert_eq!(env.count_of("obj-w"), 1);
    assert!(env.log_vec().iter().all(|e| !e.starts_with("verb-trans")));
}

#[test]
fn escape_clears_command_buffer_in_any_mode() {
    let mut env = TestEnv::new();
    let mut ui = fresh_ui();
    ui.set_mode(Mode::Command);
    type_chars(&mut ui, &mut env, "colo");
    assert_eq!(ui.get_buffer().as_str(), "colo");
    ui.perform_char_mod(&mut env, CharKey::Special(0), ModSet::empty());
    assert_eq!(ui.get_buffer().as_str(), "");
    assert_eq!(ui.get_mode(), Mode::Normal);
}

#[test]
fn escape_restores_cursor_to_saved_cursor() {
    let mut env = TestEnv::new();
    let mut ui = fresh_ui();
    ui.add_object(chord("w"), ACT_OBJ_W);
    type_chars(&mut ui, &mut env, "3w");
    assert_eq!(ui.cursor(), (3, 0));
    ui.set_mode(Mode::Visual);
    type_chars(&mut ui, &mut env, "2w");
    assert_eq!(ui.cursor(), (5, 0));
    ui.perform_char_mod(&mut env, CharKey::Special(0), ModSet::empty());
    assert_eq!(ui.cursor(), (3, 0));
    assert_eq!(ui.get_mode(), Mode::Normal);
}

#[test]
fn escape_fires_explicitly_bound_verb() {
    let mut env = TestEnv::new();
    let mut ui = fresh_ui();
    ui.add_verb(chord("<Esc>"), false, ACT_VERB_ON_ESC);
    ui.perform_char_mod(&mut env, CharKey::Special(0), ModSet::empty());
    assert_eq!(env.count_of("esc-verb"), 1);
}

#[test]
fn visual_roundtrip_returns_cursor() {
    // Enter Visual, move the cursor, press Escape: the cursor returns to
    // the pre-Visual position.
    let mut env = TestEnv::new();
    let mut ui = fresh_ui();
    ui.add_object(chord("w"), ACT_OBJ_W);
    type_chars(&mut ui, &mut env, "2w");
    let before = ui.cursor();
    ui.set_mode(Mode::Visual);
    type_chars(&mut ui, &mut env, "3w");
    assert_ne!(ui.cursor(), before);
    assert_eq!(ui.get_selection(), ((2, 0), (5, 0)));
    ui.perform_char_mod(&mut env, CharKey::Special(0), ModSet::empty());
    assert_eq!(ui.cursor(), before);
}

#[test]
fn macro_replay_matches_manual_dispatch() {
    // A macro bound as (<Left>, Insertion) -> "<Esc>hi" produces the same
    // mutations as dispatching Escape, h, i by hand.
    let setup = |ui: &mut Ui| {
        ui.add_object(chord("h"), ACT_OBJ_H);
        ui.add_verb(chord("i"), false, ACT_VERB_INSERT);
        ui.bind_key(chord("<Left>"), Mode::Insertion, "<Esc>hi");
    };
    let mut layout = KeyboardLayout::new();
    layout.bind(100, ModSet::empty(), CharKey::Special(20));

    let mut env_a = TestEnv::new();
    let mut ui_a = Ui::new({
        let mut l = KeyboardLayout::new();
        l.bind(100, ModSet::empty(), CharKey::Special(20));
        l
    });
    setup(&mut ui_a);
    ui_a.set_mode(Mode::Insertion);
    ui_a.process_event(
        &mut env_a,
        InputEvent::Key { key: 100, mod_key: None, action: KeyAction::Press },
    );

    let mut env_b = TestEnv::new();
    let mut ui_b = fresh_ui();
    setup(&mut ui_b);
    ui_b.set_mode(Mode::Insertion);
    ui_b.perform_char_mod(&mut env_b, CharKey::Special(0), ModSet::empty());
    ui_b.perform_char_mod(&mut env_b, CharKey::Char('h'), ModSet::empty());
    ui_b.perform_char_mod(&mut env_b, CharKey::Char('i'), ModSet::empty());

    assert_eq!(env_a.log_vec(), env_b.log_vec());
    assert_eq!(ui_a.cursor(), ui_b.cursor());
    assert_eq!(ui_a.get_mode(), ui_b.get_mode());
    assert_eq!(ui_a.get_mode(), Mode::Insertion);
}

#[test]
fn chord_dispatch_consults_macro_table() {
    // The chord-level dispatch replays a bound macro just as the event
    // path does.
    let mut env = TestEnv::new();
    let mut ui = fresh_ui();
    ui.add_object(chord("h"), ACT_OBJ_H);
    ui.add_verb(chord("i"), false, ACT_VERB_INSERT);
    ui.bind_key(chord("<Left>"), Mode::Insertion, "<Esc>hi");
    ui.set_mode(Mode::Insertion);
    ui.dispatch_chord(&mut env, chord("<Left>"));
    assert_eq!(
        env.log_vec(),
        vec!["obj-h".to_string(), "enter-insert".to_string()]
    );
    assert_eq!(ui.get_mode(), Mode::Insertion);
    // An unbound chord goes through the ordinary dispatch.
    ui.dispatch_chord(&mut env, chord("x"));
    assert_eq!(env.log_vec().len(), 3);
    assert!(env.log_vec()[2].starts_with("char:"));
}

#[test]
fn command_mode_scenario() {
    // The buffer accumulates "color a 255 0 0", Enter dispatches the
    // registered command with its arguments, mode returns to Normal and
    // the buffer is empty.
    let mut env = TestEnv::new();
    let mut ui = fresh_ui();
    ui.add_command("color", ACT_CMD_COLOR);
    ui.set_mode(Mode::Command);
    type_chars(&mut ui, &mut env, "color a 255 0 0");
    assert_eq!(ui.get_buffer().as_str(), "color a 255 0 0");
    ui.perform_char_mod(&mut env, CharKey::Special(24), ModSet::empty());
    assert_eq!(env.log_vec(), vec!["cmd5:a 255 0 0".to_string()]);
    assert_eq!(ui.get_mode(), Mode::Normal);
    assert_eq!(ui.get_buffer().as_str(), "");
}

#[test]
fn unknown_command_is_silently_ignored() {
    let mut env = TestEnv::new();
    let mut ui = fresh_ui();
    ui.add_command("color", ACT_CMD_COLOR);
    ui.set_mode(Mode::Command);
    type_chars(&mut ui, &mut env, "nope 1 2");
    ui.perform_char_mod(&mut env, CharKey::Special(24), ModSet::empty());
    assert!(env.log_vec().is_empty());
    assert_eq!(ui.get_mode(), Mode::Normal);
    assert_eq!(ui.get_buffer().as_str(), "");
}

#[test]
fn empty_command_line_is_harmless() {
    let mut env = TestEnv::new();
    let mut ui = fresh_ui();
    ui.set_mode(Mode::Command);
    ui.perform_char_mod(&mut env, CharKey::Special(24), ModSet::empty());
    assert!(env.log_vec().is_empty());
    assert_eq!(ui.get_mode(), Mode::Normal);
}

#[test]
fn command_mode_backspace_shortens_buffer() {
    let mut env = TestEnv::new();
    let mut ui = fresh_ui();
    ui.set_mode(Mode::Command);
    type_chars(&mut ui, &mut env, "ab");
    ui.perform_char_mod(&mut env, CharKey::Special(15), ModSet::empty());
    assert_eq!(ui.get_buffer().as_str(), "a");
    ui.perform_char_mod(&mut env, CharKey::Special(15), ModSet::empty());
    ui.perform_char_mod(&mut env, CharKey::Special(15), ModSet::empty());
    assert_eq!(ui.get_buffer().as_str(), "");
}

#[test]
fn insertion_mode_forwards_every_chord() {
    let mut env = TestEnv::new();
    let mut ui = fresh_ui();
    ui.set_mode(Mode::Insertion);
    type_chars(&mut ui, &mut env, "x5");
    ui.perform_char_mod(&mut env, CharKey::Special(24), ModSet::empty());
    assert_eq!(env.log_vec().len(), 3);
    assert!(env.log_vec()[0].starts_with("char:"));
    assert_eq!(ui.get_mode(), Mode::Insertion);
}

#[test]
fn command_verb_enters_command_mode() {
    let mut env = TestEnv::new();
    let mut ui = fresh_ui();
    ui.add_verb(chord(":"), false, ACT_VERB_COMMAND);
    ui.add_command("color", ACT_CMD_COLOR);
    type_chars(&mut ui, &mut env, ":");
    assert_eq!(ui.get_mode(), Mode::Command);
    type_chars(&mut ui, &mut env, "color b 1 2 3");
    ui.perform_char_mod(&mut env, CharKey::Special(24), ModSet::empty());
    assert_eq!(env.log_vec(), vec!["cmd5:b 1 2 3".to_string()]);
    assert_eq!(ui.get_mode(), Mode::Normal);
}

#[test]
fn modifier_tracking_and_translation() {
    let mut env = TestEnv::new();
    let mut layout = KeyboardLayout::new();
    layout.bind(10, ModSet::shift(), CharKey::Char('A'));
    let mut ui = Ui::new(layout);
    ui.add_verb(CharKeyMod { key: CharKey::Char('A'), mods: ModSet::shift() }, false, ACT_VERB_COUNT);
    // Press the Shift key itself (untranslatable), then the letter key.
    ui.process_event(
        &mut env,
        InputEvent::Key { key: 340, mod_key: Some(Mod::Shift), action: KeyAction::Press },
    );
    ui.process_event(
        &mut env,
        InputEvent::Key { key: 10, mod_key: None, action: KeyAction::Press },
    );
    assert_eq!(env.count_of("verb-count"), 1);
    // Release Shift: the bare key no longer translates, so nothing fires.
    ui.process_event(
        &mut env,
        InputEvent::Key { key: 340, mod_key: Some(Mod::Shift), action: KeyAction::Release },
    );
    ui.process_event(
        &mut env,
        InputEvent::Key { key: 10, mod_key: None, action: KeyAction::Press },
    );
    assert_eq!(env.count_of("verb-count"), 1);
}

#[test]
fn close_event_stops_the_interpreter() {
    let mut env = TestEnv::new();
    let mut ui = fresh_ui();
    let events = vec![InputEvent::Close];
    assert!(ui.is_running());
    let running = ui.input(&mut env, &events);
    assert!(!running);
}

#[test]
fn displace_clamps_and_wraps_left_of_zero() {
    let mut env = TestEnv::new();
    let mut ui = fresh_ui();
    ui.add_object(chord("h"), ACT_OBJ_H);
    // Moving left from the origin lands on the far edge of the canvas the
    // object uses (width 100).
    type_chars(&mut ui, &mut env, "h");
    assert_eq!(ui.cursor(), (99, 0));
    ui.displace(5, 2, 100, 100);
    assert_eq!(ui.cursor(), (99, 2));
    ui.wrapping_displace(-99, -1, 100, 100);
    assert_eq!(ui.cursor(), (0, 1));
}
