use vipix::keyboard::CharKey;
use vipix::keyboard::CharKeyMod;
use vipix::keyboard::KeyboardLayout;
use vipix::keyboard::Mod;
use vipix::keyboard::ModSet;
use vipix::ui::KeySequence;

#[test]
fn parse_single_uppercase_implies_shift() {
    let ck = CharKeyMod::parse("A");
    assert_eq!(ck.key, CharKey::Char('a'));
    assert_eq!(ck.mods, ModSet(1));
}

#[test]
fn parse_single_lowercase_has_no_mods() {
    let ck = CharKeyMod::parse("a");
    assert_eq!(ck.key, CharKey::Char('a'));
    assert_eq!(ck.mods, ModSet(0));
}

#[test]
fn parse_single_punctuation_has_no_mods() {
    let ck = CharKeyMod::parse(":");
    assert_eq!(ck.key, CharKey::Char(':'));
    assert_eq!(ck.mods, ModSet(0));
}

#[test]
fn parse_control_left() {
    let ck = CharKeyMod::parse("<C-Left>");
    assert_eq!(ck.key, CharKey::Special(20));
    assert_eq!(ck.mods, ModSet(2));
}

#[test]
fn parse_shift_control_plus() {
    let ck = CharKeyMod::parse("<S-C-+>");
    assert_eq!(ck.key, CharKey::Char('+'));
    assert_eq!(ck.mods, ModSet(3));
}

#[test]
fn parse_alt_prefix() {
    let ck = CharKeyMod::parse("<A-x>");
    assert_eq!(ck.key, CharKey::Char('x'));
    assert_eq!(ck.mods, ModSet(4));
}

#[test]
fn parse_bracketed_uppercase_without_prefix_implies_shift() {
    let ck = CharKeyMod::parse("<A>");
    assert_eq!(ck.key, CharKey::Char('A'));
    assert_eq!(ck.mods, ModSet(1));
}

#[test]
fn parse_bracketed_uppercase_with_prefix_keeps_mods() {
    let ck = CharKeyMod::parse("<C-A>");
    assert_eq!(ck.key, CharKey::Char('A'));
    assert_eq!(ck.mods, ModSet(2));
}

#[test]
fn parse_special_names() {
    assert_eq!(CharKey::parse("<Esc>"), CharKey::Special(0));
    assert_eq!(CharKey::parse("<F1>"), CharKey::Special(1));
    assert_eq!(CharKey::parse("<F12>"), CharKey::Special(12));
    assert_eq!(CharKey::parse("<BS>"), CharKey::Special(15));
    assert_eq!(CharKey::parse("<Left>"), CharKey::Special(20));
    assert_eq!(CharKey::parse("<CR>"), CharKey::Special(24));
    assert_eq!(CharKey::parse("<Tab>"), CharKey::Special(28));
}

#[test]
fn parse_special_character_aliases() {
    assert_eq!(CharKey::parse("<Space>"), CharKey::Char(' '));
    assert_eq!(CharKey::parse("<Less>"), CharKey::Char('<'));
    assert_eq!(CharKey::parse("<More>"), CharKey::Char('>'));
}

#[test]
fn parse_unknown_name_degrades_to_unrecognized() {
    assert_eq!(CharKey::parse("<Wat>"), CharKey::Special(1000));
    let ck = CharKeyMod::parse("<S-Wat>");
    assert_eq!(ck.key, CharKey::Special(1000));
    assert_eq!(ck.mods, ModSet(1));
}

#[test]
fn parse_key_sequence_groups_and_singles() {
    let seq = KeySequence::parse("<Esc>hi");
    assert_eq!(seq.len(), 3);
    assert_eq!(seq.get(0).key, CharKey::Special(0));
    assert_eq!(seq.get(0).mods, ModSet(0));
    assert_eq!(seq.get(1).key, CharKey::Char('h'));
    assert_eq!(seq.get(2).key, CharKey::Char('i'));
}

#[test]
fn parse_key_sequence_uppercase_and_groups() {
    let seq = KeySequence::parse("A<C-x>b");
    assert_eq!(seq.len(), 3);
    assert_eq!(seq.get(0).key, CharKey::Char('a'));
    assert_eq!(seq.get(0).mods, ModSet(1));
    assert_eq!(seq.get(1).key, CharKey::Char('x'));
    assert_eq!(seq.get(1).mods, ModSet(2));
    assert_eq!(seq.get(2).key, CharKey::Char('b'));
    assert_eq!(seq.get(2).mods, ModSet(0));
}

#[test]
fn parse_key_sequence_unterminated_group_is_closed() {
    let seq = KeySequence::parse("<Esc");
    assert_eq!(seq.len(), 1);
    assert_eq!(seq.get(0).key, CharKey::Special(0));
}

#[test]
fn from_impls_match_parse() {
    assert_eq!(CharKeyMod::from("A"), CharKeyMod::parse("A"));
    assert_eq!(CharKeyMod::from("<C-Left>"), CharKeyMod::parse("<C-Left>"));
    assert_eq!(CharKey::from("<Esc>"), CharKey::parse("<Esc>"));
    assert_eq!(ModSet::from(Mod::Shift), ModSet::shift());
    assert_eq!(ModSet::from(Mod::AltGr), ModSet::altgr());
}

#[test]
fn modset_operations() {
    let mut m = ModSet::empty();
    assert!(!m.is_set(Mod::Shift));
    m.set(Mod::Shift);
    m.set(Mod::Alt);
    assert!(m.is_set(Mod::Shift));
    assert!(m.is_set(Mod::Alt));
    assert!(!m.is_set(Mod::Control));
    assert!(m.superset(ModSet::shift()));
    assert!(ModSet::shift().subset(m));
    assert!(!m.subset(ModSet::shift()));
    m.clear(Mod::Shift);
    assert!(!m.is_set(Mod::Shift));
    assert!(m.is_set(Mod::Alt));
    assert_eq!(m, ModSet::alt());
}

#[test]
fn translate_exact_hit_wins() {
    let mut layout = KeyboardLayout::new();
    layout.bind(10, ModSet::empty(), CharKey::Char('a'));
    layout.bind(10, ModSet::shift(), CharKey::Char('A'));
    assert_eq!(layout.translate(&(10, ModSet::empty())), Some(CharKey::Char('a')));
    assert_eq!(layout.translate(&(10, ModSet::shift())), Some(CharKey::Char('A')));
}

#[test]
fn translate_strips_alt_before_control() {
    let mut layout = KeyboardLayout::new();
    layout.bind(10, ModSet::alt(), CharKey::Char('m'));
    layout.bind(10, ModSet::control(), CharKey::Char('c'));
    // Exact {Alt, Control} is unbound; Alt is stripped first, so the
    // Control binding is found before the Alt one could be.
    let mut both = ModSet::empty();
    both.set(Mod::Alt);
    both.set(Mod::Control);
    assert_eq!(layout.translate(&(10, both)), Some(CharKey::Char('c')));
}

#[test]
fn translate_strips_altgr_before_shift() {
    let mut layout = KeyboardLayout::new();
    layout.bind(10, ModSet::altgr(), CharKey::Char('g'));
    layout.bind(10, ModSet::shift(), CharKey::Char('s'));
    let mut held = ModSet::empty();
    held.set(Mod::AltGr);
    held.set(Mod::Shift);
    // The exact pair is unbound; AltGr goes before Shift, so the search
    // reaches the Shift binding first.
    assert_eq!(layout.translate(&(10, held)), Some(CharKey::Char('s')));
}

#[test]
fn translate_strips_down_to_empty() {
    let mut layout = KeyboardLayout::new();
    layout.bind(10, ModSet::empty(), CharKey::Char('a'));
    let mut held = ModSet::empty();
    held.set(Mod::Alt);
    held.set(Mod::Control);
    held.set(Mod::AltGr);
    held.set(Mod::Shift);
    assert_eq!(layout.translate(&(10, held)), Some(CharKey::Char('a')));
}

#[test]
fn translate_miss_without_fallback_is_none() {
    let mut layout = KeyboardLayout::new();
    layout.bind(10, ModSet::shift(), CharKey::Char('A'));
    // Stripping only removes modifiers, so a binding that needs Shift is
    // never reached from a bare press, and an empty table translates
    // nothing at all.
    assert_eq!(layout.translate(&(10, ModSet::empty())), None);
    assert_eq!(layout.translate(&(11, ModSet::shift())), None);
    let empty = KeyboardLayout::new();
    assert_eq!(empty.translate(&(10, ModSet::empty())), None);
}

#[test]
fn translate_last_binding_wins() {
    let mut layout = KeyboardLayout::new();
    layout.bind(10, ModSet::empty(), CharKey::Char('a'));
    layout.bind(10, ModSet::empty(), CharKey::Char('b'));
    assert_eq!(layout.translate(&(10, ModSet::empty())), Some(CharKey::Char('b')));
}
