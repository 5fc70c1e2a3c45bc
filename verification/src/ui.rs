//! The modal command interpreter: modes, the callback-visible control
//! state, key-sequence macros, verb/object/command registries, and the
//! dispatch of translated chords.

use vstd::prelude::*;
use crate::keyboard::CharKey;
use crate::keyboard::CharKeyMod;
use crate::keyboard::KeyboardLayout;
use crate::keyboard::Mod;
use crate::keyboard::ModSet;
use crate::keyboard::PhysKey;
use crate::keyboard::spec_chord;
use crate::keyboard::spec_translate;
use crate::bitmap2d::PosSet;
use crate::strutil::is_ascii_digit;
use crate::strutil::is_space;
use crate::strutil::spec_is_space;
use crate::strutil::str_eq;
use vstd::string::StrSliceExecFns;
use vstd::string::StringExecFns;

verus! {

/// The interpreter's mode: exactly one is active at a time.
#[derive(Clone, Copy, PartialEq, Eq, Structural, Hash, Debug)]
pub enum Mode {
    Normal,
    Command,
    Insertion,
    Visual,
}

/// The abstract value of the callback-visible control state.
pub struct CtlView {
    pub mode: Mode,
    pub cursor: (usize, usize),
    pub saved_cursor: (usize, usize),
    pub running: bool,
}

/// Switching mode snapshots the cursor into the saved cursor exactly when
/// Visual mode is entered from another mode; leaving Visual restores
/// nothing by itself.
pub open spec fn spec_set_mode(v: CtlView, m: Mode) -> CtlView {
    CtlView {
        mode: m,
        saved_cursor: if v.mode != Mode::Visual && m == Mode::Visual {
            v.cursor
        } else {
            v.saved_cursor
        },
        ..v
    }
}

/// One cursor coordinate after a displacement: sums that land left of zero
/// wrap to the far bound, and everything is clamped to the bound.
pub open spec fn spec_move_clamped(c: usize, d: int, bound: usize) -> usize {
    if c + d < 0 {
        bound
    } else if c + d > bound {
        bound
    } else {
        (c + d) as usize
    }
}

/// The control state after displacing the cursor by `(dx, dy)` inside a
/// `w` by `h` canvas: outside Visual mode the saved cursor follows the
/// cursor.
pub open spec fn spec_displace(v: CtlView, dx: int, dy: int, w: usize, h: usize) -> CtlView {
    let nc = (
        spec_move_clamped(v.cursor.0, dx, (w - 1) as usize),
        spec_move_clamped(v.cursor.1, dy, (h - 1) as usize),
    );
    CtlView {
        cursor: nc,
        saved_cursor: if v.mode != Mode::Visual {
            nc
        } else {
            v.saved_cursor
        },
        ..v
    }
}

/// The control state after the Escape reset: the cursor returns to the
/// saved cursor and the mode returns to Normal.
pub open spec fn spec_escape_ctl(v: CtlView) -> CtlView {
    spec_set_mode(CtlView { cursor: v.saved_cursor, ..v }, Mode::Normal)
}

/// Entering Visual mode, moving the cursor, and pressing Escape brings the
/// cursor back to where it stood before Visual mode was entered.
pub proof fn lemma_visual_roundtrip(v: CtlView, dx: int, dy: int, w: usize, h: usize)
    requires
        v.mode != Mode::Visual,
    ensures
        spec_escape_ctl(spec_displace(spec_set_mode(v, Mode::Visual), dx, dy, w, h)).cursor
            == v.cursor,
        spec_escape_ctl(spec_displace(spec_set_mode(v, Mode::Visual), dx, dy, w, h)).mode
            == Mode::Normal,
{
}

/// The part of the interpreter that callbacks may read and steer: the
/// mode, the cursor pair, and the close flag.
pub struct UiCtl {
    mode: Mode,
    cursor: (usize, usize),
    saved_cursor: (usize, usize),
    running: bool,
}

impl View for UiCtl {
    type V = CtlView;

    closed spec fn view(&self) -> CtlView {
        CtlView {
            mode: self.mode,
            cursor: self.cursor,
            saved_cursor: self.saved_cursor,
            running: self.running,
        }
    }
}

impl UiCtl {
    /// The initial control state: Normal mode, cursor at the origin,
    /// running.
    pub fn new() -> (c: UiCtl)
        ensures
            c@ == (CtlView {
                mode: Mode::Normal,
                cursor: (0usize, 0usize),
                saved_cursor: (0usize, 0usize),
                running: true,
            }),
    {
        UiCtl { mode: Mode::Normal, cursor: (0, 0), saved_cursor: (0, 0), running: true }
    }

    /// Switch mode, snapshotting the cursor when Visual mode is entered.
    pub fn set_mode(&mut self, mode: Mode)
        ensures
            final(self)@ == spec_set_mode(old(self)@, mode),
    {
        if self.mode != Mode::Visual && mode == Mode::Visual {
            self.saved_cursor = self.cursor;
        }
        self.mode = mode;
    }

    /// The active mode.
    pub fn get_mode(&self) -> (m: Mode)
        ensures
            m == self@.mode,
    {
        self.mode
    }

    /// The current cursor position.
    pub fn cursor(&self) -> (c: (usize, usize))
        ensures
            c == self@.cursor,
    {
        self.cursor
    }

    /// Whether the interpreter still runs.
    pub fn is_running(&self) -> (r: bool)
        ensures
            r == self@.running,
    {
        self.running
    }

    /// Ask the application to stop.
    pub fn close(&mut self)
        ensures
            final(self)@ == (CtlView { running: false, ..old(self)@ }),
    {
        self.running = false;
    }

    /// Displace the cursor by `(dx, dy)`, clamped to a `w` by `h` canvas;
    /// sums left of zero wrap to the far edge. Outside Visual mode the
    /// saved cursor follows.
    pub fn displace(&mut self, dx: isize, dy: isize, w: usize, h: usize)
        requires
            w >= 1,
            h >= 1,
        ensures
            final(self)@ == spec_displace(old(self)@, dx as int, dy as int, w, h),
    {
        let nx = move_clamped(self.cursor.0, dx, w - 1);
        let ny = move_clamped(self.cursor.1, dy, h - 1);
        self.cursor = (nx, ny);
        if self.mode != Mode::Visual {
            self.saved_cursor = self.cursor;
        }
    }

    /// Displace with wrap-around arithmetic; observable behaviour matches
    /// `displace` on every reachable state.
    pub fn wrapping_displace(&mut self, dx: isize, dy: isize, w: usize, h: usize)
        requires
            w >= 1,
            h >= 1,
        ensures
            final(self)@ == spec_displace(old(self)@, dx as int, dy as int, w, h),
    {
        self.displace(dx, dy, w, h);
    }

    /// The selection span between the cursor and the saved cursor, as an
    /// ordered pair of corners.
    pub fn get_selection(&self) -> (r: ((usize, usize), (usize, usize)))
        ensures
            r.0.0 <= r.1.0 && r.0.1 <= r.1.1,
            r.0.0 == if self@.cursor.0 <= self@.saved_cursor.0 {
                self@.cursor.0
            } else {
                self@.saved_cursor.0
            },
            r.0.1 == if self@.cursor.1 <= self@.saved_cursor.1 {
                self@.cursor.1
            } else {
                self@.saved_cursor.1
            },
            r.1.0 == if self@.cursor.0 <= self@.saved_cursor.0 {
                self@.saved_cursor.0
            } else {
                self@.cursor.0
            },
            r.1.1 == if self@.cursor.1 <= self@.saved_cursor.1 {
                self@.saved_cursor.1
            } else {
                self@.cursor.1
            },
    {
        let (x1, y1) = self.cursor;
        let (x2, y2) = self.saved_cursor;
        let lo = (
            if x1 <= x2 {
                x1
            } else {
                x2
            },
            if y1 <= y2 {
                y1
            } else {
                y2
            },
        );
        let hi = (
            if x1 <= x2 {
                x2
            } else {
                x1
            },
            if y1 <= y2 {
                y2
            } else {
                y1
            },
        );
        (lo, hi)
    }
}

/// One clamped cursor move along a single axis.
fn move_clamped(c: usize, d: isize, bound: usize) -> (r: usize)
    ensures
        r == spec_move_clamped(c, d as int, bound),
{
    if d >= 0 {
        let du = d as usize;
        if c > bound {
            bound
        } else if du > bound - c {
            bound
        } else {
            c + du
        }
    } else {
        let m: usize = if d == isize::MIN {
            (isize::MAX as usize) + 1
        } else {
            (-d) as usize
        };
        if c >= m {
            let t = c - m;
            if t > bound {
                bound
            } else {
                t
            }
        } else {
            bound
        }
    }
}

/// The first index at or after `i` holding a closing bracket, or the
/// length when there is none.
pub open spec fn find_gt(s: Seq<char>, i: int) -> int
    decreases s.len() - i,
{
    if i < 0 || i >= s.len() {
        s.len() as int
    } else if s[i] == '>' {
        i
    } else {
        find_gt(s, i + 1)
    }
}

/// `find_gt` stays between its start and the length, lands on a closing
/// bracket when it is inside the string, and skips nothing.
pub proof fn lemma_find_gt_bounds(s: Seq<char>, i: int)
    requires
        0 <= i <= s.len(),
    ensures
        i <= find_gt(s, i) <= s.len(),
        find_gt(s, i) < s.len() ==> s[find_gt(s, i)] == '>',
        forall|k: int| i <= k < find_gt(s, i) ==> s[k] != '>',
    decreases s.len() - i,
{
    if i < s.len() && s[i] != '>' {
        lemma_find_gt_bounds(s, i + 1);
    }
}

/// The chords encoded by the tail of a token stream from index `i`: a
/// bracketed group forms one chord, a group whose bracket never closes is
/// completed with one, and any other character forms a chord by itself.
pub open spec fn spec_key_seq_from(s: Seq<char>, i: int) -> Seq<CharKeyMod>
    decreases s.len() - i,
    via key_seq_from_decreases
{
    if i < 0 || i >= s.len() {
        Seq::empty()
    } else if s[i] == '<' {
        let j = find_gt(s, i + 1);
        if j < s.len() {
            seq![spec_chord(s.subrange(i, j + 1))] + spec_key_seq_from(s, j + 1)
        } else {
            seq![spec_chord(s.subrange(i, s.len() as int).push('>'))]
        }
    } else {
        seq![spec_chord(seq![s[i]])] + spec_key_seq_from(s, i + 1)
    }
}

#[via_fn]
proof fn key_seq_from_decreases(s: Seq<char>, i: int) {
    if 0 <= i < s.len() && s[i] == '<' {
        lemma_find_gt_bounds(s, i + 1);
    }
}

/// The chords a whole token stream encodes.
pub open spec fn spec_key_sequence(s: Seq<char>) -> Seq<CharKeyMod> {
    spec_key_seq_from(s, 0)
}

/// A parsed replay sequence: the ordered chords a macro plays back.
#[derive(Debug)]
pub struct KeySequence {
    seq: Vec<CharKeyMod>,
}

impl KeySequence {
    /// The chords of the sequence, in replay order.
    pub closed spec fn chords(&self) -> Seq<CharKeyMod> {
        self.seq@
    }

    /// How many chords the sequence holds.
    pub fn len(&self) -> (n: usize)
        ensures
            n == self.chords().len(),
    {
        self.seq.len()
    }

    /// The chord at index `i`.
    pub fn get(&self, i: usize) -> (c: CharKeyMod)
        requires
            i < self.chords().len(),
        ensures
            c == self.chords()[i as int],
    {
        self.seq[i]
    }

    /// Parse a token stream such as `"<Esc>hi"` into its chords: `<...>`
    /// groups form one chord each and any other character stands alone.
    pub fn parse(s: &str) -> (r: KeySequence)
        ensures
            r.chords() == spec_key_sequence(s@),
    {
        let n = s.unicode_len();
        let mut seq: Vec<CharKeyMod> = Vec::new();
        let mut i: usize = 0;
        while i < n
            invariant
                i <= n,
                n == s@.len(),
                spec_key_seq_from(s@, 0) == seq@ + spec_key_seq_from(s@, i as int),
            decreases n - i,
        {
            let ghost prev = seq@;
            let c = s.get_char(i);
            if c == '<' {
                let mut j: usize = i + 1;
                while j < n
                    invariant_except_break
                        i + 1 <= j <= n,
                        n == s@.len(),
                        find_gt(s@, i as int + 1) == find_gt(s@, j as int),
                    ensures
                        i + 1 <= j <= n,
                        n == s@.len(),
                        j as int == find_gt(s@, i as int + 1),
                    decreases n - j,
                {
                    if s.get_char(j) == '>' {
                        break ;
                    }
                    j = j + 1;
                }
                if j < n {
                    let token = s.substring_char(i, j + 1);
                    seq.push(CharKeyMod::parse(token));
                    proof {
                        assert(seq@ =~= prev + seq![spec_chord(s@.subrange(i as int, j + 1))]);
                        assert(prev + (seq![spec_chord(s@.subrange(i as int, j + 1))]
                            + spec_key_seq_from(s@, j + 1)) =~= seq@ + spec_key_seq_from(
                            s@,
                            j + 1,
                        ));
                    }
                    i = j + 1;
                } else {
                    let mut token = String::from_str(s.substring_char(i, n));
                    token.push('>');
                    proof {
                        assert(token@ =~= s@.subrange(i as int, n as int).push('>'));
                    }
                    seq.push(CharKeyMod::parse(token.as_str()));
                    proof {
                        assert(seq@ =~= prev + seq![
                            spec_chord(s@.subrange(i as int, n as int).push('>')),
                        ]);
                        assert(seq@ + spec_key_seq_from(s@, n as int) =~= seq@);
                    }
                    i = n;
                }
            } else {
                let token = s.substring_char(i, i + 1);
                proof {
                    assert(token@ =~= seq![s@[i as int]]);
                }
                seq.push(CharKeyMod::parse(token));
                proof {
                    assert(seq@ =~= prev + seq![spec_chord(seq![s@[i as int]])]);
                    assert(prev + (seq![spec_chord(seq![s@[i as int]])] + spec_key_seq_from(
                        s@,
                        i as int + 1,
                    )) =~= seq@ + spec_key_seq_from(s@, i as int + 1));
                }
                i = i + 1;
            }
        }
        proof {
            assert(seq@ + spec_key_seq_from(s@, n as int) =~= seq@);
        }
        KeySequence { seq }
    }
}

/// A registered verb: a chord, its transitivity, and the application's
/// action token for it.
#[derive(PartialEq, Eq, Structural, Clone, Copy, Debug)]
pub struct VerbEntry {
    pub chord: CharKeyMod,
    pub transitive: bool,
    pub action: u64,
}

/// A registered object: a chord and the application's action token.
#[derive(PartialEq, Eq, Structural, Clone, Copy, Debug)]
pub struct ObjectEntry {
    pub chord: CharKeyMod,
    pub action: u64,
}

/// A registered command: a name and the application's action token.
#[derive(Debug)]
pub struct CommandEntry {
    pub name: String,
    pub action: u64,
}

/// A macro binding: a chord and a mode, mapped to a replay sequence.
#[derive(Debug)]
pub struct BindingEntry {
    pub chord: CharKeyMod,
    pub mode: Mode,
    pub seq: KeySequence,
}

/// The verb registered for `c`, the latest registration winning.
pub open spec fn spec_find_verb(vs: Seq<VerbEntry>, c: CharKeyMod) -> Option<(bool, u64)>
    decreases vs.len(),
{
    if vs.len() == 0 {
        None
    } else if vs.last().chord == c {
        Some((vs.last().transitive, vs.last().action))
    } else {
        spec_find_verb(vs.drop_last(), c)
    }
}

/// The object registered for `c`, the latest registration winning.
pub open spec fn spec_find_object(os: Seq<ObjectEntry>, c: CharKeyMod) -> Option<u64>
    decreases os.len(),
{
    if os.len() == 0 {
        None
    } else if os.last().chord == c {
        Some(os.last().action)
    } else {
        spec_find_object(os.drop_last(), c)
    }
}

/// The command registered under `name`, the latest registration winning.
pub open spec fn spec_find_command(cs: Seq<CommandEntry>, name: Seq<char>) -> Option<u64>
    decreases cs.len(),
{
    if cs.len() == 0 {
        None
    } else if cs.last().name@ == name {
        Some(cs.last().action)
    } else {
        spec_find_command(cs.drop_last(), name)
    }
}

/// The replay sequence bound to `(c, m)`, the latest binding winning.
pub open spec fn spec_find_binding(bs: Seq<BindingEntry>, c: CharKeyMod, m: Mode) -> Option<
    Seq<CharKeyMod>,
>
    decreases bs.len(),
{
    if bs.len() == 0 {
        None
    } else if bs.last().chord == c && bs.last().mode == m {
        Some(bs.last().seq.chords())
    } else {
        spec_find_binding(bs.drop_last(), c, m)
    }
}

/// The decimal value of a run of digits, most significant first.
pub open spec fn digits_val(s: Seq<u8>) -> int
    decreases s.len(),
{
    if s.len() == 0 {
        0
    } else {
        10 * digits_val(s.drop_last()) + s.last()
    }
}

/// The repeat count a digit buffer stands for: one when it is empty, its
/// decimal value otherwise, saturated at the largest count expressible.
pub open spec fn spec_count(s: Seq<u8>) -> int {
    if s.len() == 0 {
        1
    } else if digits_val(s) > usize::MAX {
        usize::MAX as int
    } else {
        digits_val(s)
    }
}

/// The digit value a digit character stands for.
pub open spec fn spec_digit(c: char) -> u8 {
    (c as u32 - 48) as u8
}

/// A run of digits has a non-negative value.
proof fn lemma_digits_val_nonneg(s: Seq<u8>)
    ensures
        digits_val(s) >= 0,
    decreases s.len(),
{
    if s.len() > 0 {
        lemma_digits_val_nonneg(s.drop_last());
        assert(10 * digits_val(s.drop_last()) >= 0) by (nonlinear_arith)
            requires
                digits_val(s.drop_last()) >= 0,
        ;
    }
}

/// The first index at or after `i` holding whitespace, or the length when
/// there is none.
pub open spec fn find_sp(s: Seq<char>, i: int) -> int
    decreases s.len() - i,
{
    if i < 0 || i >= s.len() {
        s.len() as int
    } else if spec_is_space(s[i]) {
        i
    } else {
        find_sp(s, i + 1)
    }
}

/// `find_sp` stays between its start and the length and lands on
/// whitespace when it is inside the string.
pub proof fn lemma_find_sp_bounds(s: Seq<char>, i: int)
    requires
        0 <= i <= s.len(),
    ensures
        i <= find_sp(s, i) <= s.len(),
        find_sp(s, i) < s.len() ==> spec_is_space(s[find_sp(s, i)]),
        forall|k: int| i <= k < find_sp(s, i) ==> !spec_is_space(s[k]),
    decreases s.len() - i,
{
    if i < s.len() && !spec_is_space(s[i]) {
        lemma_find_sp_bounds(s, i + 1);
    }
}

/// The whitespace-separated words of the tail of `s` from index `i`.
pub open spec fn spec_words_from(s: Seq<char>, i: int) -> Seq<Seq<char>>
    decreases s.len() - i,
    via words_from_decreases
{
    if i < 0 || i >= s.len() {
        Seq::empty()
    } else if spec_is_space(s[i]) {
        spec_words_from(s, i + 1)
    } else {
        let j = find_sp(s, i + 1);
        seq![s.subrange(i, j)] + spec_words_from(s, j)
    }
}

#[via_fn]
proof fn words_from_decreases(s: Seq<char>, i: int) {
    if 0 <= i < s.len() && !spec_is_space(s[i]) {
        lemma_find_sp_bounds(s, i + 1);
    }
}

/// The whitespace-separated words of `s`.
pub open spec fn spec_words(s: Seq<char>) -> Seq<Seq<char>> {
    spec_words_from(s, 0)
}

/// Split `text` on whitespace into its words.
fn split_words(text: &str) -> (r: Vec<String>)
    ensures
        r@.map_values(|w: String| w@) == spec_words(text@),
{
    let n = text.unicode_len();
    let mut r: Vec<String> = Vec::new();
    let mut i: usize = 0;
    while i < n
        invariant
            i <= n,
            n == text@.len(),
            r@.map_values(|w: String| w@) + spec_words_from(text@, i as int) == spec_words(
                text@,
            ),
        decreases n - i,
    {
        let ghost prev = r@;
        let c = text.get_char(i);
        if is_space(c) {
            i = i + 1;
        } else {
            let mut j: usize = i + 1;
            while j < n
                invariant_except_break
                    i + 1 <= j <= n,
                    n == text@.len(),
                    find_sp(text@, i as int + 1) == find_sp(text@, j as int),
                ensures
                    i + 1 <= j <= n,
                    n == text@.len(),
                    j as int == find_sp(text@, i as int + 1),
                decreases n - j,
            {
                if is_space(text.get_char(j)) {
                    break ;
                }
                j = j + 1;
            }
            let word = String::from_str(text.substring_char(i, j));
            r.push(word);
            proof {
                assert(r@.map_values(|w: String| w@) =~= prev.map_values(|w: String| w@).push(
                    text@.subrange(i as int, j as int),
                ));
                assert(prev.map_values(|w: String| w@) + (seq![
                    text@.subrange(i as int, j as int),
                ] + spec_words_from(text@, j as int)) =~= r@.map_values(|w: String| w@)
                    + spec_words_from(text@, j as int));
            }
            i = j;
        }
    }
    proof {
        assert(r@.map_values(|w: String| w@) + spec_words_from(text@, n as int) =~= r@.map_values(
            |w: String| w@,
        ));
    }
    r
}

/// Parse a digit buffer into a repeat count.
fn parse_count(digits: &Vec<u8>) -> (n: usize)
    ensures
        n == spec_count(digits@),
{
    let len = digits.len();
    if len == 0 {
        return 1;
    }
    let mut acc: usize = 0;
    let mut i: usize = 0;
    proof {
        assert(digits@.subrange(0, 0) =~= Seq::<u8>::empty());
    }
    while i < len
        invariant
            i <= len,
            len == digits@.len(),
            digits_val(digits@.subrange(0, i as int)) > usize::MAX ==> acc == usize::MAX,
            digits_val(digits@.subrange(0, i as int)) <= usize::MAX ==> acc == digits_val(
                digits@.subrange(0, i as int),
            ),
        decreases len - i,
    {
        let ghost pre = digits@.subrange(0, i as int);
        let ghost cur = digits@.subrange(0, i + 1 as int);
        proof {
            assert(cur.drop_last() =~= pre);
            assert(cur.last() == digits@[i as int]);
            lemma_digits_val_nonneg(pre);
        }
        let d = digits[i] as usize;
        if acc <= (usize::MAX - d) / 10 {
            proof {
                assert(acc * 10 + d <= usize::MAX) by (nonlinear_arith)
                    requires
                        acc <= (usize::MAX - d) / 10,
                        0 <= d <= usize::MAX,
                        acc >= 0,
                ;
                assert(digits_val(pre) <= usize::MAX) by {
                    if digits_val(pre) > usize::MAX {
                        assert(acc == usize::MAX);
                        assert(usize::MAX > (usize::MAX - d) / 10);
                    }
                }
            }
            acc = acc * 10 + d;
            proof {
                assert(digits_val(cur) == 10 * digits_val(pre) + d);
                assert(acc == digits_val(cur));
            }
        } else {
            proof {
                assert(10 * acc + d > usize::MAX) by (nonlinear_arith)
                    requires
                        acc > (usize::MAX - d) / 10,
                        0 <= d <= usize::MAX,
                        acc >= 0,
                ;
                if digits_val(pre) <= usize::MAX {
                    assert(digits_val(cur) == 10 * digits_val(pre) + d);
                    assert(digits_val(cur) > usize::MAX);
                } else {
                    assert(digits_val(cur) == 10 * digits_val(pre) + d);
                    assert(digits_val(cur) > usize::MAX) by (nonlinear_arith)
                        requires
                            digits_val(cur) == 10 * digits_val(pre) + d,
                            digits_val(pre) > usize::MAX,
                            d >= 0,
                    ;
                }
            }
            acc = usize::MAX;
        }
        i = i + 1;
    }
    proof {
        assert(digits@.subrange(0, len as int) =~= digits@);
    }
    acc
}

/// The application side of the interpreter: the callbacks that verbs,
/// objects, commands and Insertion-mode characters are delivered to. Each
/// action is identified by the token the application registered it under.
/// A callback may steer the interpreter through the control state handed
/// to it.
pub trait UiHooks {
    /// A chord received while in Insertion mode.
    fn process_char(&mut self, ctl: &mut UiCtl, chord: CharKeyMod);

    /// A verb action, with the positions its object produced, if any.
    fn run_verb(&mut self, ctl: &mut UiCtl, action: u64, positions: Option<&PosSet>);

    /// An object action: record positions and move the cursor.
    fn run_object(&self, ctl: &mut UiCtl, action: u64, positions: &mut PosSet);

    /// A command invoked from the command line, with its arguments.
    fn run_command(&mut self, ctl: &mut UiCtl, action: u64, args: &Vec<String>);
}

/// One delivery made to the application through the hooks: which callback
/// ran, under which action token, and with what shape of argument. A verb
/// event records whether a position set was supplied; a command event
/// records the whitespace-split arguments.
pub enum HookEvent {
    Char { chord: CharKeyMod },
    Verb { action: u64, with_positions: bool },
    Object { action: u64 },
    Command { action: u64, args: Seq<Seq<char>> },
}

/// `count` deliveries of one verb action, each without positions.
pub open spec fn verb_events(action: u64, count: nat) -> Seq<HookEvent> {
    Seq::new(count, |i: int| HookEvent::Verb { action, with_positions: false })
}

/// `count` deliveries of one object action.
pub open spec fn object_events(action: u64, count: nat) -> Seq<HookEvent> {
    Seq::new(count, |i: int| HookEvent::Object { action })
}

/// The deliveries of one counted verb-object resolution: `n` rounds, each
/// being `count` object runs followed by one verb delivery that carries
/// the accumulated positions.
pub open spec fn verb_object_rounds(obj: u64, verb: u64, count: nat, n: nat) -> Seq<HookEvent>
    decreases n,
{
    if n == 0 {
        Seq::empty()
    } else {
        verb_object_rounds(obj, verb, count, (n - 1) as nat) + object_events(obj, count).push(
            HookEvent::Verb { action: verb, with_positions: true },
        )
    }
}

/// Whether `c` is the Escape special key, whatever the held modifiers.
pub open spec fn is_escape_key(c: CharKey) -> bool {
    c == CharKey::Special(crate::keyboard::CODE_ESC)
}

/// The character a chord's key holds, if it is a character key.
pub open spec fn key_char(c: CharKey) -> Option<char> {
    match c {
        CharKey::Char(ch) => Some(ch),
        CharKey::Special(_) => None,
    }
}

/// Whether `c` is an ASCII digit character key.
pub open spec fn is_digit_key(c: CharKey) -> bool {
    match c {
        CharKey::Char(ch) => 48 <= ch as u32 <= 57,
        CharKey::Special(_) => false,
    }
}

/// The physical key of a key event, if it is one.
pub open spec fn evt_key(e: InputEvent) -> Option<PhysKey> {
    match e {
        InputEvent::Key { key, mod_key, action } => Some(key),
        InputEvent::Close => None,
    }
}

/// The modifier a key event's physical key stands for, if any.
pub open spec fn evt_mod(e: InputEvent) -> Option<Mod> {
    match e {
        InputEvent::Key { key, mod_key, action } => mod_key,
        InputEvent::Close => None,
    }
}

/// The action of a key event, if it is one.
pub open spec fn evt_action(e: InputEvent) -> Option<KeyAction> {
    match e {
        InputEvent::Key { key, mod_key, action } => Some(action),
        InputEvent::Close => None,
    }
}

/// A key event handed to the interpreter by the windowing layer: either a
/// close request or a physical key transition. `mod_key` names the
/// modifier this physical key stands for, if any.
#[derive(PartialEq, Eq, Structural, Clone, Copy, Debug)]
pub enum InputEvent {
    Close,
    Key { key: PhysKey, mod_key: Option<Mod>, action: KeyAction },
}

/// What happened to a physical key.
#[derive(PartialEq, Eq, Structural, Clone, Copy, Debug)]
pub enum KeyAction {
    Press,
    Repeat,
    Release,
}

/// The modal command interpreter: mode state machine, registries, digit
/// and command-line buffers, pending verb, and the keyboard layout.
pub struct Ui {
    ctl: UiCtl,
    layout: KeyboardLayout,
    modset: ModSet,
    verbs: Vec<VerbEntry>,
    objects: Vec<ObjectEntry>,
    commands: Vec<CommandEntry>,
    bindings: Vec<BindingEntry>,
    // command-line text typed while in Command mode
    buffer: String,
    // pending repeat-count digit values typed while in Normal or Visual mode
    digits: Vec<u8>,
    // typed verb waiting for an object to come (if transitive)
    verb: Option<(usize, u64)>,
    // every delivery made to the application, oldest first
    events: Ghost<Seq<HookEvent>>,
}

impl Ui {
    /// The control state the callbacks see.
    pub closed spec fn ctl_view(&self) -> CtlView {
        self.ctl@
    }

    /// The digit buffer, as digit values, most significant first.
    pub closed spec fn digits_view(&self) -> Seq<u8> {
        self.digits@
    }

    /// The command-line buffer.
    pub closed spec fn buffer_view(&self) -> Seq<char> {
        self.buffer@
    }

    /// The pending transitive verb, with its outer count.
    pub closed spec fn pending(&self) -> Option<(usize, u64)> {
        self.verb
    }

    /// Every delivery made to the application so far, oldest first.
    pub closed spec fn events(&self) -> Seq<HookEvent> {
        self.events@
    }

    /// The registered verbs, oldest first.
    pub closed spec fn verbs_view(&self) -> Seq<VerbEntry> {
        self.verbs@
    }

    /// The registered objects, oldest first.
    pub closed spec fn objects_view(&self) -> Seq<ObjectEntry> {
        self.objects@
    }

    /// The registered commands, oldest first.
    pub closed spec fn commands_view(&self) -> Seq<CommandEntry> {
        self.commands@
    }

    /// The macro bindings, oldest first.
    pub closed spec fn bindings_view(&self) -> Seq<BindingEntry> {
        self.bindings@
    }

    /// The keyboard layout entries.
    pub closed spec fn layout_view(&self) -> Seq<crate::keyboard::LayoutEntry> {
        self.layout.entries()
    }

    /// The modifiers currently held.
    pub closed spec fn mods_view(&self) -> ModSet {
        self.modset
    }

    /// Everything that only registration may change: the registries, the
    /// bindings and the layout.
    pub open spec fn spec_config(&self) -> (
        Seq<VerbEntry>,
        Seq<ObjectEntry>,
        Seq<CommandEntry>,
        Seq<BindingEntry>,
        Seq<crate::keyboard::LayoutEntry>,
    ) {
        (
            self.verbs_view(),
            self.objects_view(),
            self.commands_view(),
            self.bindings_view(),
            self.layout_view(),
        )
    }

    /// A fresh interpreter over the given layout: Normal mode, cursor at
    /// the origin, empty registries and buffers.
    pub fn new(layout: KeyboardLayout) -> (ui: Ui)
        ensures
            ui.ctl_view() == (CtlView {
                mode: Mode::Normal,
                cursor: (0usize, 0usize),
                saved_cursor: (0usize, 0usize),
                running: true,
            }),
            ui.layout_view() == layout.entries(),
            ui.mods_view() == ModSet(0u8),
            ui.verbs_view() == Seq::<VerbEntry>::empty(),
            ui.objects_view() == Seq::<ObjectEntry>::empty(),
            ui.commands_view() == Seq::<CommandEntry>::empty(),
            ui.bindings_view() == Seq::<BindingEntry>::empty(),
            ui.digits_view() == Seq::<u8>::empty(),
            ui.buffer_view() == Seq::<char>::empty(),
            ui.pending() is None,
            ui.events() == Seq::<HookEvent>::empty(),
    {
        Ui {
            ctl: UiCtl::new(),
            layout,
            modset: ModSet::empty(),
            verbs: Vec::new(),
            objects: Vec::new(),
            commands: Vec::new(),
            bindings: Vec::new(),
            buffer: String::new(),
            digits: Vec::new(),
            verb: None,
            events: Ghost(Seq::empty()),
        }
    }

    /// Register a verb under a chord; a later registration under the same
    /// chord wins.
    pub fn add_verb(&mut self, verb: CharKeyMod, transitive: bool, action: u64)
        ensures
            final(self).verbs_view() == old(self).verbs_view().push(
                VerbEntry { chord: verb, transitive, action },
            ),
            final(self).objects_view() == old(self).objects_view(),
            final(self).commands_view() == old(self).commands_view(),
            final(self).bindings_view() == old(self).bindings_view(),
            final(self).layout_view() == old(self).layout_view(),
            final(self).ctl_view() == old(self).ctl_view(),
            final(self).mods_view() == old(self).mods_view(),
            final(self).digits_view() == old(self).digits_view(),
            final(self).buffer_view() == old(self).buffer_view(),
            final(self).pending() == old(self).pending(),
            final(self).events() == old(self).events(),
    {
        self.verbs.push(VerbEntry { chord: verb, transitive, action });
    }

    /// Register an object under a chord; a later registration wins.
    pub fn add_object(&mut self, obj: CharKeyMod, action: u64)
        ensures
            final(self).objects_view() == old(self).objects_view().push(
                ObjectEntry { chord: obj, action },
            ),
            final(self).verbs_view() == old(self).verbs_view(),
            final(self).commands_view() == old(self).commands_view(),
            final(self).bindings_view() == old(self).bindings_view(),
            final(self).layout_view() == old(self).layout_view(),
            final(self).ctl_view() == old(self).ctl_view(),
            final(self).mods_view() == old(self).mods_view(),
            final(self).digits_view() == old(self).digits_view(),
            final(self).buffer_view() == old(self).buffer_view(),
            final(self).pending() == old(self).pending(),
            final(self).events() == old(self).events(),
    {
        self.objects.push(ObjectEntry { chord: obj, action });
    }

    /// Register a command under a name; a later registration wins.
    pub fn add_command(&mut self, name: &str, action: u64)
        ensures
            final(self).commands_view().len() == old(self).commands_view().len() + 1,
            final(self).commands_view().last().name@ == name@,
            final(self).commands_view().last().action == action,
            final(self).commands_view().drop_last() == old(self).commands_view(),
            final(self).verbs_view() == old(self).verbs_view(),
            final(self).objects_view() == old(self).objects_view(),
            final(self).bindings_view() == old(self).bindings_view(),
            final(self).layout_view() == old(self).layout_view(),
            final(self).ctl_view() == old(self).ctl_view(),
            final(self).mods_view() == old(self).mods_view(),
            final(self).digits_view() == old(self).digits_view(),
            final(self).buffer_view() == old(self).buffer_view(),
            final(self).pending() == old(self).pending(),
            final(self).events() == old(self).events(),
    {
        self.commands.push(CommandEntry { name: String::from_str(name), action });
        proof {
            assert(self.commands@.drop_last() =~= old(self).commands@);
        }
    }

    /// Bind a chord, in one mode, to a replay sequence parsed from
    /// `phrase`; a later binding of the same pair wins.
    pub fn bind_key(&mut self, k: CharKeyMod, mode: Mode, phrase: &str)
        ensures
            final(self).bindings_view().len() == old(self).bindings_view().len() + 1,
            final(self).bindings_view().last().chord == k,
            final(self).bindings_view().last().mode == mode,
            final(self).bindings_view().last().seq.chords() == spec_key_sequence(phrase@),
            final(self).bindings_view().drop_last() == old(self).bindings_view(),
            final(self).verbs_view() == old(self).verbs_view(),
            final(self).objects_view() == old(self).objects_view(),
            final(self).commands_view() == old(self).commands_view(),
            final(self).layout_view() == old(self).layout_view(),
            final(self).ctl_view() == old(self).ctl_view(),
            final(self).mods_view() == old(self).mods_view(),
            final(self).digits_view() == old(self).digits_view(),
            final(self).buffer_view() == old(self).buffer_view(),
            final(self).pending() == old(self).pending(),
            final(self).events() == old(self).events(),
    {
        let seq = KeySequence::parse(phrase);
        self.bindings.push(BindingEntry { chord: k, mode, seq });
        proof {
            assert(self.bindings@.drop_last() =~= old(self).bindings@);
        }
    }

    /// Ask the application to stop.
    pub fn close(&mut self)
        ensures
            final(self).ctl_view() == (CtlView { running: false, ..old(self).ctl_view() }),
            final(self).spec_config() == old(self).spec_config(),
            final(self).mods_view() == old(self).mods_view(),
            final(self).digits_view() == old(self).digits_view(),
            final(self).buffer_view() == old(self).buffer_view(),
            final(self).pending() == old(self).pending(),
            final(self).events() == old(self).events(),
    {
        self.ctl.close();
    }

    /// The current cursor position.
    pub fn cursor(&self) -> (c: (usize, usize))
        ensures
            c == self.ctl_view().cursor,
    {
        self.ctl.cursor()
    }

    /// Displace the cursor inside a `w` by `h` canvas; see
    /// `UiCtl::displace`.
    pub fn displace(&mut self, dx: isize, dy: isize, w: usize, h: usize)
        requires
            w >= 1,
            h >= 1,
        ensures
            final(self).ctl_view() == spec_displace(old(self).ctl_view(), dx as int, dy as int, w, h),
            final(self).spec_config() == old(self).spec_config(),
            final(self).mods_view() == old(self).mods_view(),
            final(self).digits_view() == old(self).digits_view(),
            final(self).buffer_view() == old(self).buffer_view(),
            final(self).pending() == old(self).pending(),
            final(self).events() == old(self).events(),
    {
        self.ctl.displace(dx, dy, w, h);
    }

    /// Displace with wrap-around arithmetic; see
    /// `UiCtl::wrapping_displace`.
    pub fn wrapping_displace(&mut self, dx: isize, dy: isize, w: usize, h: usize)
        requires
            w >= 1,
            h >= 1,
        ensures
            final(self).ctl_view() == spec_displace(old(self).ctl_view(), dx as int, dy as int, w, h),
            final(self).spec_config() == old(self).spec_config(),
            final(self).mods_view() == old(self).mods_view(),
            final(self).digits_view() == old(self).digits_view(),
            final(self).buffer_view() == old(self).buffer_view(),
            final(self).pending() == old(self).pending(),
            final(self).events() == old(self).events(),
    {
        self.ctl.wrapping_displace(dx, dy, w, h);
    }

    /// Switch mode, snapshotting the cursor when Visual mode is entered.
    pub fn set_mode(&mut self, mode: Mode)
        ensures
            final(self).ctl_view() == spec_set_mode(old(self).ctl_view(), mode),
            final(self).spec_config() == old(self).spec_config(),
            final(self).mods_view() == old(self).mods_view(),
            final(self).digits_view() == old(self).digits_view(),
            final(self).buffer_view() == old(self).buffer_view(),
            final(self).pending() == old(self).pending(),
            final(self).events() == old(self).events(),
    {
        self.ctl.set_mode(mode);
    }

    /// The active mode.
    pub fn get_mode(&self) -> (m: Mode)
        ensures
            m == self.ctl_view().mode,
    {
        self.ctl.get_mode()
    }

    /// The selection span between the cursor and the saved cursor, as an
    /// ordered pair of corners.
    pub fn get_selection(&self) -> (r: ((usize, usize), (usize, usize)))
        ensures
            r.0.0 <= r.1.0 && r.0.1 <= r.1.1,
            ((r.0.0, r.0.1), (r.1.0, r.1.1)) == r,
            r.0.0 == if self.ctl_view().cursor.0 <= self.ctl_view().saved_cursor.0 {
                self.ctl_view().cursor.0
            } else {
                self.ctl_view().saved_cursor.0
            },
            r.0.1 == if self.ctl_view().cursor.1 <= self.ctl_view().saved_cursor.1 {
                self.ctl_view().cursor.1
            } else {
                self.ctl_view().saved_cursor.1
            },
            r.1.0 == if self.ctl_view().cursor.0 <= self.ctl_view().saved_cursor.0 {
                self.ctl_view().saved_cursor.0
            } else {
                self.ctl_view().cursor.0
            },
            r.1.1 == if self.ctl_view().cursor.1 <= self.ctl_view().saved_cursor.1 {
                self.ctl_view().saved_cursor.1
            } else {
                self.ctl_view().cursor.1
            },
    {
        self.ctl.get_selection()
    }

    /// The command-line buffer, for status-line display.
    pub fn get_buffer(&self) -> (b: &String)
        ensures
            b@ == self.buffer_view(),
    {
        &self.buffer
    }

    /// Whether the interpreter still runs.
    pub fn is_running(&self) -> (r: bool)
        ensures
            r == self.ctl_view().running,
    {
        self.ctl.is_running()
    }

    /// Find the latest verb registered under `c`.
    fn find_verb(&self, c: CharKeyMod) -> (r: Option<(bool, u64)>)
        ensures
            r == spec_find_verb(self.verbs_view(), c),
    {
        let n = self.verbs.len();
        let mut i: usize = n;
        proof {
            assert(self.verbs@.subrange(0, n as int) =~= self.verbs@);
        }
        while i > 0
            invariant
                i <= n,
                n == self.verbs@.len(),
                spec_find_verb(self.verbs@, c) == spec_find_verb(
                    self.verbs@.subrange(0, i as int),
                    c,
                ),
            decreases i,
        {
            i = i - 1;
            let e = &self.verbs[i];
            proof {
                assert(self.verbs@.subrange(0, i + 1 as int).last() == self.verbs@[i as int]);
                assert(self.verbs@.subrange(0, i + 1 as int).drop_last() =~= self.verbs@.subrange(
                    0,
                    i as int,
                ));
            }
            if e.chord == c {
                return Some((e.transitive, e.action));
            }
        }
        proof {
            assert(self.verbs@.subrange(0, 0) =~= Seq::<VerbEntry>::empty());
        }
        None
    }

    /// Find the latest object registered under `c`.
    fn find_object(&self, c: CharKeyMod) -> (r: Option<u64>)
        ensures
            r == spec_find_object(self.objects_view(), c),
    {
        let n = self.objects.len();
        let mut i: usize = n;
        proof {
            assert(self.objects@.subrange(0, n as int) =~= self.objects@);
        }
        while i > 0
            invariant
                i <= n,
                n == self.objects@.len(),
                spec_find_object(self.objects@, c) == spec_find_object(
                    self.objects@.subrange(0, i as int),
                    c,
                ),
            decreases i,
        {
            i = i - 1;
            let e = &self.objects[i];
            proof {
                assert(self.objects@.subrange(0, i + 1 as int).last() == self.objects@[i as int]);
                assert(self.objects@.subrange(0, i + 1 as int).drop_last() =~= self.objects@
                    .subrange(0, i as int));
            }
            if e.chord == c {
                return Some(e.action);
            }
        }
        proof {
            assert(self.objects@.subrange(0, 0) =~= Seq::<ObjectEntry>::empty());
        }
        None
    }

    /// Find the latest command registered under `name`.
    fn find_command(&self, name: &str) -> (r: Option<u64>)
        ensures
            r == spec_find_command(self.commands_view(), name@),
    {
        let n = self.commands.len();
        let mut i: usize = n;
        proof {
            assert(self.commands@.subrange(0, n as int) =~= self.commands@);
        }
        while i > 0
            invariant
                i <= n,
                n == self.commands@.len(),
                spec_find_command(self.commands@, name@) == spec_find_command(
                    self.commands@.subrange(0, i as int),
                    name@,
                ),
            decreases i,
        {
            i = i - 1;
            let e = &self.commands[i];
            proof {
                assert(self.commands@.subrange(0, i + 1 as int).last() == self.commands@[i as int]);
                assert(self.commands@.subrange(0, i + 1 as int).drop_last() =~= self.commands@
                    .subrange(0, i as int));
            }
            if str_eq(e.name.as_str(), name) {
                return Some(e.action);
            }
        }
        proof {
            assert(self.commands@.subrange(0, 0) =~= Seq::<CommandEntry>::empty());
        }
        None
    }

    /// Find the replay chords bound to `(c, m)`, copied out for replay.
    fn find_binding(&self, c: CharKeyMod, m: Mode) -> (r: Option<Vec<CharKeyMod>>)
        ensures
            r is Some <==> spec_find_binding(self.bindings_view(), c, m) is Some,
            r matches Some(v) ==> Some(v@) == spec_find_binding(self.bindings_view(), c, m),
    {
        let n = self.bindings.len();
        let mut i: usize = n;
        proof {
            assert(self.bindings@.subrange(0, n as int) =~= self.bindings@);
        }
        while i > 0
            invariant
                i <= n,
                n == self.bindings@.len(),
                spec_find_binding(self.bindings@, c, m) == spec_find_binding(
                    self.bindings@.subrange(0, i as int),
                    c,
                    m,
                ),
            decreases i,
        {
            i = i - 1;
            let e = &self.bindings[i];
            proof {
                assert(self.bindings@.subrange(0, i + 1 as int).last() == self.bindings@[i as int]);
                assert(self.bindings@.subrange(0, i + 1 as int).drop_last() =~= self.bindings@
                    .subrange(0, i as int));
            }
            if e.chord == c && e.mode == m {
                let len = e.seq.len();
                let mut out: Vec<CharKeyMod> = Vec::new();
                let mut j: usize = 0;
                while j < len
                    invariant
                        j <= len,
                        len == self.bindings@[i as int].seq.chords().len(),
                        out@ == self.bindings@[i as int].seq.chords().subrange(0, j as int),
                        i < self.bindings@.len(),
                    decreases len - j,
                {
                    out.push(self.bindings[i].seq.get(j));
                    proof {
                        assert(out@ =~= self.bindings@[i as int].seq.chords().subrange(
                            0,
                            j + 1 as int,
                        ));
                    }
                    j = j + 1;
                }
                proof {
                    assert(out@ =~= self.bindings@[i as int].seq.chords());
                }
                return Some(out);
            }
        }
        proof {
            assert(self.bindings@.subrange(0, 0) =~= Seq::<BindingEntry>::empty());
        }
        None
    }
}

impl Ui {
    /// Execute one command line: split it on whitespace into a name and
    /// arguments, and invoke the command registered under the name. An
    /// empty line, or an unregistered name, is silently ignored.
    fn launch_command<E: UiHooks>(&mut self, env: &mut E, command: String)
        ensures
            final(self).spec_config() == old(self).spec_config(),
            final(self).mods_view() == old(self).mods_view(),
            final(self).digits_view() == old(self).digits_view(),
            final(self).buffer_view() == old(self).buffer_view(),
            final(self).pending() == old(self).pending(),
            (spec_words(command@).len() == 0 || spec_find_command(
                old(self).commands_view(),
                spec_words(command@)[0],
            ) is None) ==> final(self).ctl_view() == old(self).ctl_view() && final(self).events()
                == old(self).events(),
            (spec_words(command@).len() > 0 && spec_find_command(
                old(self).commands_view(),
                spec_words(command@)[0],
            ) is Some) ==> final(self).events() == old(self).events().push(
                (HookEvent::Command {
                    action: spec_find_command(
                        old(self).commands_view(),
                        spec_words(command@)[0],
                    ).unwrap(),
                    args: spec_words(command@).drop_first(),
                }),
            ),
    {
        let words = split_words(command.as_str());
        proof {
            assert(words@.map_values(|w: String| w@).len() == words@.len());
        }
        if words.len() == 0 {
            return ;
        }
        proof {
            assert(words@.map_values(|w: String| w@)[0] == words@[0]@);
        }
        let name = &words[0];
        match self.find_command(name.as_str()) {
            Some(act) => {
                let mut args: Vec<String> = Vec::new();
                let mut k: usize = 1;
                while k < words.len()
                    invariant
                        1 <= k <= words@.len(),
                    decreases words@.len() - k,
                {
                    args.push(words[k].clone());
                    k = k + 1;
                }
                env.run_command(&mut self.ctl, act, &args);
                self.events = Ghost(
                    self.events@.push(
                        HookEvent::Command { action: act, args: spec_words(command@).drop_first() },
                    ),
                );
            },
            None => {},
        }
    }

    /// Resolve one grammar chord in Normal or Visual mode: consume the
    /// repeat count, then either feed an object to the pending verb, store
    /// a transitive verb, fire an intransitive verb, or run a standalone
    /// object; a chord matching nothing is a no-op. The digit buffer is
    /// cleared whatever happens, and a pending verb never survives.
    fn resolve_grammar<E: UiHooks>(&mut self, env: &mut E, chord: CharKeyMod)
        ensures
            final(self).spec_config() == old(self).spec_config(),
            final(self).mods_view() == old(self).mods_view(),
            final(self).digits_view().len() == 0,
            final(self).buffer_view() == old(self).buffer_view(),
            old(self).pending() is Some ==> final(self).pending() is None,
            old(self).pending() is Some && spec_find_object(old(self).objects_view(), chord)
                is None ==> final(self).ctl_view() == old(self).ctl_view() && final(self).events()
                == old(self).events(),
            old(self).pending() is Some && spec_find_object(old(self).objects_view(), chord)
                is Some ==> final(self).events() == old(self).events() + verb_object_rounds(
                spec_find_object(old(self).objects_view(), chord).unwrap(),
                old(self).pending().unwrap().1,
                spec_count(old(self).digits_view()) as nat,
                old(self).pending().unwrap().0 as nat,
            ),
            old(self).pending() is None && spec_find_verb(old(self).verbs_view(), chord) is Some
                && spec_find_verb(old(self).verbs_view(), chord).unwrap().0 ==> final(self).pending() == Some(
                (
                    (spec_count(old(self).digits_view()) as usize),
                    spec_find_verb(old(self).verbs_view(), chord).unwrap().1,
                ),
            ) && final(self).ctl_view() == old(self).ctl_view() && final(self).events() == old(self).events(),
            old(self).pending() is None && spec_find_verb(old(self).verbs_view(), chord) is Some
                && !spec_find_verb(old(self).verbs_view(), chord).unwrap().0 ==> final(self).pending() is None
                && final(self).events() == old(self).events() + verb_events(
                spec_find_verb(old(self).verbs_view(), chord).unwrap().1,
                spec_count(old(self).digits_view()) as nat,
            ),
            old(self).pending() is None && spec_find_verb(old(self).verbs_view(), chord) is None
                ==> final(self).pending() is None,
            old(self).pending() is None && spec_find_verb(old(self).verbs_view(), chord) is None
                && spec_find_object(old(self).objects_view(), chord) is Some ==> final(self).events() == old(self).events() + object_events(
                spec_find_object(old(self).objects_view(), chord).unwrap(),
                spec_count(old(self).digits_view()) as nat,
            ),
            old(self).pending() is None && spec_find_verb(old(self).verbs_view(), chord) is None
                && spec_find_object(old(self).objects_view(), chord) is None ==> final(self).ctl_view() == old(self).ctl_view() && final(self).events() == old(self).events(),
    {
        let count = parse_count(&self.digits);
        self.digits.clear();
        let pending = self.verb;
        self.verb = None;
        if let Some((n, act)) = pending {
            match self.find_object(chord) {
                Some(obj_act) => {
                    let ghost base = *self;
                    proof {
                        assert(base.events() + verb_object_rounds(obj_act, act, count as nat, 0)
                            =~= base.events());
                    }
                    let mut positions = PosSet::new();
                    let mut i: usize = 0;
                    while i < n
                        invariant
                            self.spec_config() == base.spec_config(),
                            self.mods_view() == base.mods_view(),
                            self.digits_view() == base.digits_view(),
                            self.buffer_view() == base.buffer_view(),
                            self.pending() is None,
                            i <= n,
                            self.events() == base.events() + verb_object_rounds(
                                obj_act,
                                act,
                                count as nat,
                                i as nat,
                            ),
                        decreases n - i,
                    {
                        let ghost round_start = self.events@;
                        positions.clear();
                        let mut j: usize = 0;
                        proof {
                            assert(round_start + object_events(obj_act, 0) =~= round_start);
                        }
                        while j < count
                            invariant
                                self.spec_config() == base.spec_config(),
                                self.mods_view() == base.mods_view(),
                                self.digits_view() == base.digits_view(),
                                self.buffer_view() == base.buffer_view(),
                                self.pending() is None,
                                j <= count,
                                self.events() == round_start + object_events(obj_act, j as nat),
                            decreases count - j,
                        {
                            env.run_object(&mut self.ctl, obj_act, &mut positions);
                            self.events = Ghost(
                                self.events@.push(HookEvent::Object { action: obj_act }),
                            );
                            proof {
                                assert(self.events@ =~= round_start + object_events(
                                    obj_act,
                                    (j + 1) as nat,
                                ));
                            }
                            j = j + 1;
                        }
                        env.run_verb(&mut self.ctl, act, Some(&positions));
                        self.events = Ghost(
                            self.events@.push(
                                HookEvent::Verb { action: act, with_positions: true },
                            ),
                        );
                        proof {
                            assert(self.events@ =~= base.events() + verb_object_rounds(
                                obj_act,
                                act,
                                count as nat,
                                (i + 1) as nat,
                            ));
                        }
                        i = i + 1;
                    }
                },
                None => {},
            }
        } else {
            if let Some((transitive, act)) = self.find_verb(chord) {
                if transitive {
                    self.verb = Some((count, act));
                } else {
                    let ghost base = *self;
                    proof {
                        assert(base.events() + verb_events(act, 0) =~= base.events());
                    }
                    let mut i: usize = 0;
                    while i < count
                        invariant
                            self.spec_config() == base.spec_config(),
                            self.mods_view() == base.mods_view(),
                            self.digits_view() == base.digits_view(),
                            self.buffer_view() == base.buffer_view(),
                            self.pending() is None,
                            i <= count,
                            self.events() == base.events() + verb_events(act, i as nat),
                        decreases count - i,
                    {
                        env.run_verb(&mut self.ctl, act, None);
                        self.events = Ghost(
                            self.events@.push(
                                HookEvent::Verb { action: act, with_positions: false },
                            ),
                        );
                        proof {
                            assert(self.events@ =~= base.events() + verb_events(
                                act,
                                (i + 1) as nat,
                            ));
                        }
                        i = i + 1;
                    }
                }
            } else if let Some(obj_act) = self.find_object(chord) {
                let ghost base = *self;
                proof {
                    assert(base.events() + object_events(obj_act, 0) =~= base.events());
                }
                let mut v = PosSet::new();
                let mut i: usize = 0;
                while i < count
                    invariant
                        self.spec_config() == base.spec_config(),
                        self.mods_view() == base.mods_view(),
                        self.digits_view() == base.digits_view(),
                        self.buffer_view() == base.buffer_view(),
                        self.pending() is None,
                        i <= count,
                        self.events() == base.events() + object_events(obj_act, i as nat),
                    decreases count - i,
                {
                    env.run_object(&mut self.ctl, obj_act, &mut v);
                    self.events = Ghost(self.events@.push(HookEvent::Object { action: obj_act }));
                    proof {
                        assert(self.events@ =~= base.events() + object_events(
                            obj_act,
                            (i + 1) as nat,
                        ));
                    }
                    i = i + 1;
                }
            }
        }
    }

    /// Everything one chord dispatch promises about the starting state `o`
    /// and the resulting state `f`, including exactly which deliveries were
    /// appended to the event log. Modifier bookkeeping is promised by the
    /// dispatching functions separately; this predicate never reads the
    /// held modifiers of `o`.
    pub open spec fn spec_dispatched(o: Ui, f: Ui, c: CharKey, mods: ModSet) -> bool {
        &&& f.spec_config() == o.spec_config()
        &&& o.events().is_prefix_of(f.events())
        &&& is_escape_key(c) ==> f.digits_view().len() == 0 && f.buffer_view().len() == 0
            && f.pending() is None
        &&& is_escape_key(c) && spec_find_verb(o.verbs_view(), (CharKeyMod { key: c, mods }))
            is None ==> f.ctl_view() == spec_escape_ctl(o.ctl_view()) && f.events() == o.events()
        &&& is_escape_key(c) && spec_find_verb(o.verbs_view(), (CharKeyMod { key: c, mods }))
            is Some ==> f.events() == o.events().push(
            (HookEvent::Verb {
                action: spec_find_verb(o.verbs_view(), (CharKeyMod { key: c, mods })).unwrap().1,
                with_positions: false,
            }),
        )
        &&& c == CharKey::Special(crate::keyboard::CODE_CR) && o.ctl_view().mode == Mode::Command
            ==> f.buffer_view().len() == 0 && f.digits_view() == o.digits_view() && f.pending()
            == o.pending() && f.ctl_view().mode == Mode::Normal
        &&& c == CharKey::Special(crate::keyboard::CODE_CR) && o.ctl_view().mode == Mode::Command
            && (spec_words(o.buffer_view()).len() == 0 || spec_find_command(
            o.commands_view(),
            spec_words(o.buffer_view())[0],
        ) is None) ==> f.ctl_view() == spec_set_mode(o.ctl_view(), Mode::Normal) && f.events()
            == o.events()
        &&& c == CharKey::Special(crate::keyboard::CODE_CR) && o.ctl_view().mode == Mode::Command
            && spec_words(o.buffer_view()).len() > 0 && spec_find_command(
            o.commands_view(),
            spec_words(o.buffer_view())[0],
        ) is Some ==> f.events() == o.events().push(
            (HookEvent::Command {
                action: spec_find_command(
                    o.commands_view(),
                    spec_words(o.buffer_view())[0],
                ).unwrap(),
                args: spec_words(o.buffer_view()).drop_first(),
            }),
        )
        &&& !is_escape_key(c) && o.ctl_view().mode == Mode::Insertion ==> f.digits_view()
            == o.digits_view() && f.buffer_view() == o.buffer_view() && f.pending() == o.pending()
            && f.events() == o.events().push((HookEvent::Char { chord: CharKeyMod { key: c, mods } }))
        &&& !is_escape_key(c) && o.ctl_view().mode == Mode::Command && key_char(c) is Some
            ==> f.buffer_view() == o.buffer_view().push(key_char(c).unwrap()) && f.ctl_view()
            == o.ctl_view() && f.digits_view() == o.digits_view() && f.pending() == o.pending()
            && f.events() == o.events()
        &&& o.ctl_view().mode == Mode::Command && c == CharKey::Special(crate::keyboard::CODE_BS)
            ==> f.buffer_view() == (if o.buffer_view().len() > 0 {
            o.buffer_view().drop_last()
        } else {
            o.buffer_view()
        }) && f.ctl_view() == o.ctl_view() && f.digits_view() == o.digits_view() && f.pending()
            == o.pending() && f.events() == o.events()
        &&& !is_escape_key(c) && o.ctl_view().mode == Mode::Command && key_char(c) is None && c
            != CharKey::Special(crate::keyboard::CODE_CR) && c != CharKey::Special(
            crate::keyboard::CODE_BS,
        ) ==> f.buffer_view() == o.buffer_view() && f.ctl_view() == o.ctl_view() && f.digits_view()
            == o.digits_view() && f.pending() == o.pending() && f.events() == o.events()
        &&& (o.ctl_view().mode == Mode::Normal || o.ctl_view().mode == Mode::Visual)
            && is_digit_key(c) ==> f.digits_view() == o.digits_view().push(
            spec_digit(key_char(c).unwrap()),
        ) && f.buffer_view() == o.buffer_view() && f.ctl_view() == o.ctl_view() && f.pending()
            == o.pending() && f.events() == o.events()
        &&& (o.ctl_view().mode == Mode::Normal || o.ctl_view().mode == Mode::Visual)
            && !is_escape_key(c) && !is_digit_key(c) ==> f.digits_view().len() == 0
            && f.buffer_view() == o.buffer_view()
        &&& (o.ctl_view().mode == Mode::Normal || o.ctl_view().mode == Mode::Visual)
            && !is_escape_key(c) && !is_digit_key(c) && o.pending() is Some ==> f.pending() is None
        &&& (o.ctl_view().mode == Mode::Normal || o.ctl_view().mode == Mode::Visual)
            && !is_escape_key(c) && !is_digit_key(c) && o.pending() is Some && spec_find_object(
            o.objects_view(),
            (CharKeyMod { key: c, mods }),
        ) is None ==> f.ctl_view() == o.ctl_view() && f.events() == o.events()
        &&& (o.ctl_view().mode == Mode::Normal || o.ctl_view().mode == Mode::Visual)
            && !is_escape_key(c) && !is_digit_key(c) && o.pending() is Some && spec_find_object(
            o.objects_view(),
            (CharKeyMod { key: c, mods }),
        ) is Some ==> f.events() == o.events() + verb_object_rounds(
            spec_find_object(o.objects_view(), (CharKeyMod { key: c, mods })).unwrap(),
            o.pending().unwrap().1,
            spec_count(o.digits_view()) as nat,
            o.pending().unwrap().0 as nat,
        )
        &&& (o.ctl_view().mode == Mode::Normal || o.ctl_view().mode == Mode::Visual)
            && !is_escape_key(c) && !is_digit_key(c) && o.pending() is None && spec_find_verb(
            o.verbs_view(),
            (CharKeyMod { key: c, mods }),
        ) is Some && spec_find_verb(o.verbs_view(), (CharKeyMod { key: c, mods })).unwrap().0
            ==> f.pending() == Some(
            (
                (spec_count(o.digits_view()) as usize),
                spec_find_verb(o.verbs_view(), (CharKeyMod { key: c, mods })).unwrap().1,
            ),
        ) && f.ctl_view() == o.ctl_view() && f.events() == o.events()
        &&& (o.ctl_view().mode == Mode::Normal || o.ctl_view().mode == Mode::Visual)
            && !is_escape_key(c) && !is_digit_key(c) && o.pending() is None && spec_find_verb(
            o.verbs_view(),
            (CharKeyMod { key: c, mods }),
        ) is Some && !spec_find_verb(o.verbs_view(), (CharKeyMod { key: c, mods })).unwrap().0
            ==> f.pending() is None && f.events() == o.events() + verb_events(
            spec_find_verb(o.verbs_view(), (CharKeyMod { key: c, mods })).unwrap().1,
            spec_count(o.digits_view()) as nat,
        )
        &&& (o.ctl_view().mode == Mode::Normal || o.ctl_view().mode == Mode::Visual)
            && !is_escape_key(c) && !is_digit_key(c) && o.pending() is None && spec_find_verb(
            o.verbs_view(),
            (CharKeyMod { key: c, mods }),
        ) is None ==> f.pending() is None
        &&& (o.ctl_view().mode == Mode::Normal || o.ctl_view().mode == Mode::Visual)
            && !is_escape_key(c) && !is_digit_key(c) && o.pending() is None && spec_find_verb(
            o.verbs_view(),
            (CharKeyMod { key: c, mods }),
        ) is None && spec_find_object(o.objects_view(), (CharKeyMod { key: c, mods })) is Some
            ==> f.events() == o.events() + object_events(
            spec_find_object(o.objects_view(), (CharKeyMod { key: c, mods })).unwrap(),
            spec_count(o.digits_view()) as nat,
        )
        &&& (o.ctl_view().mode == Mode::Normal || o.ctl_view().mode == Mode::Visual)
            && !is_escape_key(c) && !is_digit_key(c) && o.pending() is None && spec_find_verb(
            o.verbs_view(),
            (CharKeyMod { key: c, mods }),
        ) is None && spec_find_object(o.objects_view(), (CharKeyMod { key: c, mods })) is None
            ==> f.ctl_view() == o.ctl_view() && f.events() == o.events()
    }

    /// Dispatch one translated chord. Escape resets the interpreter before
    /// anything else: the cursor returns to the saved cursor, the mode to
    /// Normal, both buffers and any pending verb are dropped, and a verb
    /// bound to the Escape chord additionally fires. Enter while in
    /// Command mode executes the command line and returns to Normal mode.
    /// In Insertion mode every other chord goes to the character callback.
    /// In Command mode characters extend the command line and Backspace
    /// shortens it. In Normal and Visual mode digits extend the repeat
    /// count and any other chord is resolved against the grammar. Every
    /// delivery made to the application is promised exactly, through the
    /// event log of `spec_dispatched`.
    pub fn perform_char_mod<E: UiHooks>(&mut self, env: &mut E, c: CharKey, mods: ModSet)
        ensures
            final(self).mods_view() == old(self).mods_view(),
            Ui::spec_dispatched(*old(self), *final(self), c, mods),
    {
        let is_esc = match c {
            CharKey::Special(code) => code == crate::keyboard::CODE_ESC,
            _ => false,
        };
        if is_esc {
            self.ctl.cursor = self.ctl.saved_cursor;
            self.ctl.set_mode(Mode::Normal);
            self.buffer = String::new();
            self.digits.clear();
            self.verb = None;
            match self.find_verb(CharKeyMod { key: c, mods }) {
                Some((_, act)) => {
                    env.run_verb(&mut self.ctl, act, None);
                    self.events = Ghost(
                        self.events@.push(
                            HookEvent::Verb { action: act, with_positions: false },
                        ),
                    );
                },
                None => {},
            }
            return ;
        }
        let mode = self.ctl.get_mode();
        let is_cr = match c {
            CharKey::Special(code) => code == crate::keyboard::CODE_CR,
            _ => false,
        };
        if is_cr && mode == Mode::Command {
            let text = self.buffer.clone();
            self.buffer = String::new();
            self.launch_command(env, text);
            self.ctl.set_mode(Mode::Normal);
        } else if mode == Mode::Insertion {
            env.process_char(&mut self.ctl, CharKeyMod { key: c, mods });
            self.events = Ghost(
                self.events@.push(HookEvent::Char { chord: CharKeyMod { key: c, mods } }),
            );
        } else if mode == Mode::Command {
            match c {
                CharKey::Char(ch) => {
                    self.buffer.push(ch);
                },
                CharKey::Special(code) => {
                    if code == crate::keyboard::CODE_BS {
                        let _ = self.buffer.pop();
                    }
                },
            }
        } else {
            match c {
                CharKey::Char(ch) => {
                    if is_ascii_digit(ch) {
                        self.digits.push((ch as u32 - 48) as u8);
                    } else {
                        self.resolve_grammar(env, CharKeyMod { key: c, mods });
                    }
                },
                CharKey::Special(_) => {
                    self.resolve_grammar(env, CharKeyMod { key: c, mods });
                },
            }
        }
    }

    /// Dispatch one translated chord, going through the macro table first:
    /// a sequence bound to the chord in the current mode is replayed chord
    /// by chord in its place, each replayed chord dispatched once without
    /// being looked up again; an unbound chord is dispatched itself.
    pub fn dispatch_chord<E: UiHooks>(&mut self, env: &mut E, chord: CharKeyMod)
        ensures
            final(self).spec_config() == old(self).spec_config(),
            final(self).mods_view() == old(self).mods_view(),
            old(self).events().is_prefix_of(final(self).events()),
            spec_find_binding(
                old(self).bindings_view(),
                chord,
                old(self).ctl_view().mode,
            ) is None ==> Ui::spec_dispatched(*old(self), *final(self), chord.key, chord.mods),
    {
        proof {
            assert(self.events().is_prefix_of(self.events())) by {
                assert(self.events() =~= self.events().subrange(0, self.events().len() as int));
            }
        }
        let mode = self.ctl.get_mode();
        match self.find_binding(chord, mode) {
            Some(seq) => {
                let ghost base = *self;
                let mut k: usize = 0;
                while k < seq.len()
                    invariant
                        self.spec_config() == base.spec_config(),
                        self.mods_view() == base.mods_view(),
                        base.events().is_prefix_of(self.events()),
                    decreases seq@.len() - k,
                {
                    let ghost before = *self;
                    let ck = seq[k];
                    self.perform_char_mod(env, ck.key, ck.mods);
                    proof {
                        assert(base.events().is_prefix_of(self.events())) by {
                            assert(base.events() =~= self.events().subrange(
                                0,
                                base.events().len() as int,
                            ));
                        }
                    }
                    k = k + 1;
                }
            },
            None => {
                self.perform_char_mod(env, chord.key, chord.mods);
            },
        }
    }

    /// Feed one window event to the interpreter: a close request stops it;
    /// a key press updates the held modifiers, translates the physical key
    /// through the layout, and dispatches the resulting chord, replaying a
    /// bound macro sequence in its place when one matches the chord and
    /// the current mode; a key release releases its modifier.
    pub fn process_event<E: UiHooks>(&mut self, env: &mut E, evt: InputEvent)
        ensures
            final(self).spec_config() == old(self).spec_config(),
            old(self).events().is_prefix_of(final(self).events()),
            evt == InputEvent::Close ==> final(self).ctl_view() == (CtlView {
                running: false,
                ..old(self).ctl_view()
            }) && final(self).mods_view() == old(self).mods_view() && final(self).digits_view()
                == old(self).digits_view() && final(self).buffer_view() == old(self).buffer_view()
                && final(self).pending() == old(self).pending() && final(self).events() == old(
                self,
            ).events(),
            evt_action(evt) == Some(KeyAction::Release) ==> final(self).ctl_view() == old(self).ctl_view() && final(self).digits_view() == old(self).digits_view() && final(self).buffer_view() == old(self).buffer_view() && final(self).pending() == old(self).pending() && final(self).events() == old(self).events() && final(self).mods_view() == (match evt_mod(evt) {
                Some(m) => old(self).mods_view().spec_clear(m),
                None => old(self).mods_view(),
            }),
            evt_action(evt) == Some(KeyAction::Press) || evt_action(evt) == Some(
                KeyAction::Repeat,
            ) ==> final(self).mods_view() == (match evt_mod(evt) {
                Some(m) => old(self).mods_view().spec_set(m),
                None => old(self).mods_view(),
            }),
            (evt_action(evt) == Some(KeyAction::Press) || evt_action(evt) == Some(
                KeyAction::Repeat,
            )) && spec_translate(
                old(self).layout_view(),
                evt_key(evt).unwrap(),
                (match evt_mod(evt) {
                    Some(m) => old(self).mods_view().spec_set(m),
                    None => old(self).mods_view(),
                }),
            ) is None ==> final(self).ctl_view() == old(self).ctl_view() && final(self).digits_view() == old(self).digits_view() && final(self).buffer_view() == old(self).buffer_view() && final(self).pending() == old(self).pending() && final(self).events() == old(self).events(),
            (evt_action(evt) == Some(KeyAction::Press) || evt_action(evt) == Some(
                KeyAction::Repeat,
            )) && spec_translate(
                old(self).layout_view(),
                evt_key(evt).unwrap(),
                (match evt_mod(evt) {
                    Some(m) => old(self).mods_view().spec_set(m),
                    None => old(self).mods_view(),
                }),
            ) is Some && spec_find_binding(
                old(self).bindings_view(),
                (CharKeyMod {
                    key: spec_translate(
                        old(self).layout_view(),
                        evt_key(evt).unwrap(),
                        (match evt_mod(evt) {
                            Some(m) => old(self).mods_view().spec_set(m),
                            None => old(self).mods_view(),
                        }),
                    ).unwrap(),
                    mods: (match evt_mod(evt) {
                        Some(m) => old(self).mods_view().spec_set(m),
                        None => old(self).mods_view(),
                    }),
                }),
                old(self).ctl_view().mode,
            ) is None ==> Ui::spec_dispatched(
                *old(self),
                *final(self),
                spec_translate(
                    old(self).layout_view(),
                    evt_key(evt).unwrap(),
                    (match evt_mod(evt) {
                        Some(m) => old(self).mods_view().spec_set(m),
                        None => old(self).mods_view(),
                    }),
                ).unwrap(),
                (match evt_mod(evt) {
                    Some(m) => old(self).mods_view().spec_set(m),
                    None => old(self).mods_view(),
                }),
            ),
    {
        proof {
            assert(self.events().is_prefix_of(self.events())) by {
                assert(self.events() =~= self.events().subrange(0, self.events().len() as int));
            }
        }
        match evt {
            InputEvent::Close => {
                self.ctl.close();
            },
            InputEvent::Key { key, mod_key, action } => {
                if action != KeyAction::Release {
                    if let Some(m) = mod_key {
                        self.modset.set(m);
                    }
                    match self.layout.translate(&(key, self.modset)) {
                        Some(code) => {
                            let chord = CharKeyMod { key: code, mods: self.modset };
                            self.dispatch_chord(env, chord);
                        },
                        None => {},
                    }
                } else {
                    if let Some(m) = mod_key {
                        self.modset.clear(m);
                    }
                }
            },
        }
    }

    /// Drain a batch of window events through the interpreter and report
    /// whether it still runs.
    pub fn input<E: UiHooks>(&mut self, env: &mut E, events: &Vec<InputEvent>) -> (running: bool)
        ensures
            final(self).spec_config() == old(self).spec_config(),
            running == final(self).ctl_view().running,
            old(self).events().is_prefix_of(final(self).events()),
            events@.len() == 0 ==> final(self).ctl_view() == old(self).ctl_view() && final(self).mods_view() == old(self).mods_view() && final(self).digits_view() == old(self).digits_view() && final(self).buffer_view() == old(self).buffer_view() && final(self).pending() == old(self).pending() && final(self).events() == old(self).events(),
    {
        proof {
            assert(self.events().is_prefix_of(self.events())) by {
                assert(self.events() =~= self.events().subrange(0, self.events().len() as int));
            }
        }
        let n = events.len();
        let mut i: usize = 0;
        while i < n
            invariant
                i <= n,
                n == events@.len(),
                self.spec_config() == old(self).spec_config(),
                old(self).events().is_prefix_of(self.events()),
                i == 0 ==> self.ctl_view() == old(self).ctl_view() && self.mods_view() == old(self).mods_view() && self.digits_view() == old(self).digits_view()
                    && self.buffer_view() == old(self).buffer_view() && self.pending() == old(self).pending() && self.events() == old(self).events(),
            decreases n - i,
        {
            self.process_event(env, events[i]);
            proof {
                assert(old(self).events().is_prefix_of(self.events())) by {
                    assert(old(self).events() =~= self.events().subrange(
                        0,
                        old(self).events().len() as int,
                    ));
                }
            }
            i = i + 1;
        }
        self.ctl.is_running()
    }
}


} // verus!
