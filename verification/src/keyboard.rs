//! Modifier keys, modifier sets, logical keys, chord parsing, and the
//! keyboard layout table with its modifier-stripping fallback search.

use vstd::prelude::*;
use vstd::string::StrSliceExecFns;
use vstd::string::StringExecFns;
use crate::strutil::str_eq;
use crate::strutil::is_ascii_uppercase;
use crate::strutil::to_ascii_lowercase;
use crate::strutil::spec_is_ascii_uppercase;
use crate::strutil::spec_to_ascii_lowercase;

verus! {

/// One of the four modifier keys tracked by the interpreter.
#[derive(PartialEq, Eq, Structural, Clone, Copy, Hash, Debug)]
pub enum Mod {
    Shift,
    Control,
    Alt,
    AltGr,
}

impl Mod {
    /// The bit this modifier occupies inside a `ModSet`.
    pub open spec fn spec_mask(self) -> u8 {
        match self {
            Mod::Shift => 0x1,
            Mod::Control => 0x2,
            Mod::Alt => 0x4,
            Mod::AltGr => 0x8,
        }
    }

    /// Bit mask of this modifier, as used by `ModSet`.
    #[verifier::when_used_as_spec(spec_mask)]
    pub fn mask(self) -> (m: u8)
        ensures
            m == self.spec_mask(),
    {
        match self {
            Mod::Shift => 0x1,
            Mod::Control => 0x2,
            Mod::Alt => 0x4,
            Mod::AltGr => 0x8,
        }
    }
}

/// A set of held modifier keys, stored as a 4-bit flag set.
#[derive(PartialEq, Eq, Structural, Clone, Copy, Hash, Debug)]
pub struct ModSet(pub u8);

impl ModSet {
    /// Whether the modifier `m` is a member.
    pub open spec fn spec_is_set(self, m: Mod) -> bool {
        self.0 & m.spec_mask() != 0
    }

    /// The result of adding `m` to the set.
    pub open spec fn spec_set(self, m: Mod) -> ModSet {
        ModSet(self.0 | m.spec_mask())
    }

    /// The result of removing `m` from the set.
    pub open spec fn spec_clear(self, m: Mod) -> ModSet {
        ModSet(self.0 & !m.spec_mask())
    }

    /// The set with no modifier held.
    pub fn empty() -> (s: ModSet)
        ensures
            s == ModSet(0u8),
    {
        ModSet(0)
    }

    /// The set holding exactly Shift.
    pub fn shift() -> (s: ModSet)
        ensures
            s == ModSet(1u8),
    {
        ModSet(1)
    }

    /// The set holding exactly Control.
    pub fn control() -> (s: ModSet)
        ensures
            s == ModSet(2u8),
    {
        ModSet(2)
    }

    /// The set holding exactly Alt.
    pub fn alt() -> (s: ModSet)
        ensures
            s == ModSet(4u8),
    {
        ModSet(4)
    }

    /// The set holding exactly AltGr.
    pub fn altgr() -> (s: ModSet)
        ensures
            s == ModSet(8u8),
    {
        ModSet(8)
    }

    /// Membership test.
    pub fn is_set(&self, m: Mod) -> (b: bool)
        ensures
            b == self.spec_is_set(m),
    {
        let v: u8 = m.mask();
        (self.0 & v) != 0u8
    }

    /// Add the modifier `m`; every other membership is unchanged.
    pub fn set(&mut self, m: Mod)
        ensures
            *final(self) == old(self).spec_set(m),
            final(self).spec_is_set(m),
            forall|o: Mod| o != m ==> final(self).spec_is_set(o) == old(self).spec_is_set(o),
    {
        let v: u8 = m.mask();
        proof {
            let a = self.0;
            assert((a | v) & v != 0) by (bit_vector)
                requires
                    v == 1 || v == 2 || v == 4 || v == 8,
            ;
            assert forall|o: Mod| o != m implies ModSet(a | v).spec_is_set(o) == ModSet(
                a,
            ).spec_is_set(o) by {
                let w = o.spec_mask();
                assert(((a | v) & w != 0) == (a & w != 0)) by (bit_vector)
                    requires
                        v == 1 || v == 2 || v == 4 || v == 8,
                        w == 1 || w == 2 || w == 4 || w == 8,
                        w != v,
                ;
            }
        }
        self.0 = self.0 | v;
    }

    /// Remove the modifier `m`; every other membership is unchanged.
    pub fn clear(&mut self, m: Mod)
        ensures
            *final(self) == old(self).spec_clear(m),
            !final(self).spec_is_set(m),
            forall|o: Mod| o != m ==> final(self).spec_is_set(o) == old(self).spec_is_set(o),
    {
        let v: u8 = m.mask();
        proof {
            let a = self.0;
            assert((a & !v) & v == 0) by (bit_vector);
            assert forall|o: Mod| o != m implies ModSet(a & !v).spec_is_set(o) == ModSet(
                a,
            ).spec_is_set(o) by {
                let w = o.spec_mask();
                assert(((a & !v) & w != 0) == (a & w != 0)) by (bit_vector)
                    requires
                        v == 1 || v == 2 || v == 4 || v == 8,
                        w == 1 || w == 2 || w == 4 || w == 8,
                        w != v,
                ;
            }
        }
        self.0 = self.0 & !v;
    }

    /// Whether every modifier of `set` is also held in `self`,
    /// at the representation level.
    pub fn superset(&self, set: ModSet) -> (b: bool)
        ensures
            b == ((self.0 & set.0) == set.0),
            set.0 < 16 ==> b == (forall|m: Mod| set.spec_is_set(m) ==> self.spec_is_set(m)),
    {
        proof {
            if set.0 < 16 {
                ModSet::lemma_superset_is_member_inclusion(*self, set);
            }
        }
        (self.0 & set.0) == set.0
    }

    /// Whether every modifier of `self` is also held in `set`,
    /// at the representation level.
    pub fn subset(&self, set: ModSet) -> (b: bool)
        ensures
            b == ((self.0 & set.0) == self.0),
    {
        let r = set.superset(*self);
        proof {
            let a = self.0;
            let s = set.0;
            assert((s & a) == (a & s)) by (bit_vector);
        }
        r
    }

    /// For sets that stay within the four modifier bits, the bitwise
    /// `superset` test agrees with membership of every modifier.
    pub proof fn lemma_superset_is_member_inclusion(a: ModSet, b: ModSet)
        requires
            b.0 < 16,
        ensures
            ((a.0 & b.0) == b.0) <==> (forall|m: Mod|
                b.spec_is_set(m) ==> a.spec_is_set(m)),
    {
        let x = a.0;
        let y = b.0;
        if (x & y) == y {
            assert forall|m: Mod| b.spec_is_set(m) implies a.spec_is_set(m) by {
                let w = m.spec_mask();
                assert((x & y) == y && (y & w) != 0 ==> (x & w) != 0) by (bit_vector);
            }
        } else {
            assert((y & 1 != 0 && x & 1 == 0) || (y & 2 != 0 && x & 2 == 0) || (y & 4 != 0 && x & 4
                == 0) || (y & 8 != 0 && x & 8 == 0)) by (bit_vector)
                requires
                    y < 16,
                    (x & y) != y,
            ;
            if y & 1 != 0 && x & 1 == 0 {
                assert(b.spec_is_set(Mod::Shift) && !a.spec_is_set(Mod::Shift));
            } else if y & 2 != 0 && x & 2 == 0 {
                assert(b.spec_is_set(Mod::Control) && !a.spec_is_set(Mod::Control));
            } else if y & 4 != 0 && x & 4 == 0 {
                assert(b.spec_is_set(Mod::Alt) && !a.spec_is_set(Mod::Alt));
            } else {
                assert(b.spec_is_set(Mod::AltGr) && !a.spec_is_set(Mod::AltGr));
            }
        }
    }
}

impl From<Mod> for ModSet {
    fn from(m: Mod) -> (s: ModSet) {
        let mut ret = ModSet::empty();
        ret.set(m);
        ret
    }
}

impl vstd::std_specs::convert::FromSpecImpl<Mod> for ModSet {
    open spec fn obeys_from_spec() -> bool {
        true
    }

    open spec fn from_spec(m: Mod) -> ModSet {
        ModSet(0).spec_set(m)
    }
}

/// A logical key: either a printable character or one of the named special
/// keys, identified by a fixed code.
#[derive(PartialEq, Eq, Structural, Hash, Clone, Copy, Debug)]
pub enum CharKey {
    Char(char),
    Special(u32),
}

/// Code of the Escape special key.
pub const CODE_ESC: u32 = 0;

/// Code of the Enter special key.
pub const CODE_CR: u32 = 24;

/// Code of the Backspace special key.
pub const CODE_BS: u32 = 15;

/// Code reserved for bracketed names that match no known special key.
pub const CODE_UNRECOGNIZED: u32 = 1000;

/// The code a bracketed token names: `"<Esc>"` is 0, the function keys
/// follow, and any unknown name maps to the reserved unrecognized code.
pub open spec fn spec_special_code(s: Seq<char>) -> u32 {
    if s == "<Esc>"@ {
        0
    } else if s == "<F1>"@ {
        1
    } else if s == "<F2>"@ {
        2
    } else if s == "<F3>"@ {
        3
    } else if s == "<F4>"@ {
        4
    } else if s == "<F5>"@ {
        5
    } else if s == "<F6>"@ {
        6
    } else if s == "<F7>"@ {
        7
    } else if s == "<F8>"@ {
        8
    } else if s == "<F9>"@ {
        9
    } else if s == "<F10>"@ {
        10
    } else if s == "<F11>"@ {
        11
    } else if s == "<F12>"@ {
        12
    } else if s == "<Insert>"@ {
        13
    } else if s == "<Del>"@ {
        14
    } else if s == "<BS>"@ {
        15
    } else if s == "<Beg>"@ {
        16
    } else if s == "<End>"@ {
        17
    } else if s == "<PUp>"@ {
        18
    } else if s == "<PDown>"@ {
        19
    } else if s == "<Left>"@ {
        20
    } else if s == "<Down>"@ {
        21
    } else if s == "<Up>"@ {
        22
    } else if s == "<Right>"@ {
        23
    } else if s == "<CR>"@ {
        24
    } else if s == "<Space>"@ {
        25
    } else if s == "<Less>"@ {
        26
    } else if s == "<More>"@ {
        27
    } else if s == "<Tab>"@ {
        28
    } else {
        CODE_UNRECOGNIZED
    }
}

/// What parsing a key token yields: a one-character token is that character,
/// and a longer token is looked up among the bracketed special-key names,
/// where the space, less-than and greater-than names stand for characters.
pub open spec fn spec_char_key(s: Seq<char>) -> CharKey {
    if s.len() == 1 {
        CharKey::Char(s[0])
    } else {
        let code = spec_special_code(s);
        if code == 25 {
            CharKey::Char(' ')
        } else if code == 26 {
            CharKey::Char('<')
        } else if code == 27 {
            CharKey::Char('>')
        } else {
            CharKey::Special(code)
        }
    }
}

impl CharKey {
    /// Parse a key token: a single character stands for itself, anything
    /// longer is matched against the bracketed special-key names.
    pub fn parse(s: &str) -> (k: CharKey)
        ensures
            k == spec_char_key(s@),
    {
        if s.unicode_len() == 1 {
            CharKey::Char(s.get_char(0))
        } else {
            let code: u32 = if str_eq(s, "<Esc>") {
                0
            } else if str_eq(s, "<F1>") {
                1
            } else if str_eq(s, "<F2>") {
                2
            } else if str_eq(s, "<F3>") {
                3
            } else if str_eq(s, "<F4>") {
                4
            } else if str_eq(s, "<F5>") {
                5
            } else if str_eq(s, "<F6>") {
                6
            } else if str_eq(s, "<F7>") {
                7
            } else if str_eq(s, "<F8>") {
                8
            } else if str_eq(s, "<F9>") {
                9
            } else if str_eq(s, "<F10>") {
                10
            } else if str_eq(s, "<F11>") {
                11
            } else if str_eq(s, "<F12>") {
                12
            } else if str_eq(s, "<Insert>") {
                13
            } else if str_eq(s, "<Del>") {
                14
            } else if str_eq(s, "<BS>") {
                15
            } else if str_eq(s, "<Beg>") {
                16
            } else if str_eq(s, "<End>") {
                17
            } else if str_eq(s, "<PUp>") {
                18
            } else if str_eq(s, "<PDown>") {
                19
            } else if str_eq(s, "<Left>") {
                20
            } else if str_eq(s, "<Down>") {
                21
            } else if str_eq(s, "<Up>") {
                22
            } else if str_eq(s, "<Right>") {
                23
            } else if str_eq(s, "<CR>") {
                24
            } else if str_eq(s, "<Space>") {
                25
            } else if str_eq(s, "<Less>") {
                26
            } else if str_eq(s, "<More>") {
                27
            } else if str_eq(s, "<Tab>") {
                28
            } else {
                CODE_UNRECOGNIZED
            };
            if code == 25 {
                CharKey::Char(' ')
            } else if code == 26 {
                CharKey::Char('<')
            } else if code == 27 {
                CharKey::Char('>')
            } else {
                CharKey::Special(code)
            }
        }
    }
}

impl<'a> From<&'a str> for CharKey {
    fn from(s: &'a str) -> (k: CharKey) {
        CharKey::parse(s)
    }
}

impl<'a> vstd::std_specs::convert::FromSpecImpl<&'a str> for CharKey {
    open spec fn obeys_from_spec() -> bool {
        true
    }

    open spec fn from_spec(s: &'a str) -> CharKey {
        spec_char_key(s@)
    }
}

/// A chord: a logical key together with the modifier set held with it.
#[derive(PartialEq, Eq, Structural, Hash, Clone, Copy, Debug)]
pub struct CharKeyMod {
    pub key: CharKey,
    pub mods: ModSet,
}

/// One left-to-right scan over the inside of a bracketed token, starting at
/// index `i`: a letter from `S`, `C`, `A` directly followed by `-` records
/// the matching modifier; a closing `>` ends the name; any other character
/// joins the name. A prefix letter whose follower is not `-` joins the name
/// together with that follower, unseen by the prefix rule.
pub open spec fn spec_scan_token(s: Seq<char>, i: int, mods: ModSet, name: Seq<char>) -> (
    ModSet,
    Seq<char>,
)
    decreases s.len() - i,
{
    if i < 0 || i >= s.len() {
        (mods, name)
    } else {
        let c = s[i];
        if c == 'S' || c == 'C' || c == 'A' {
            if i + 1 < s.len() {
                let nc = s[i + 1];
                if nc == '-' {
                    let m = if c == 'S' {
                        Mod::Shift
                    } else if c == 'C' {
                        Mod::Control
                    } else {
                        Mod::Alt
                    };
                    spec_scan_token(s, i + 2, mods.spec_set(m), name)
                } else if nc == '>' {
                    (mods, name.push(c))
                } else {
                    spec_scan_token(s, i + 2, mods, name.push(c).push(nc))
                }
            } else {
                (mods, name.push(c))
            }
        } else if c == '>' {
            (mods, name)
        } else {
            spec_scan_token(s, i + 1, mods, name.push(c))
        }
    }
}

/// What parsing a chord token yields. A one-character token carries Shift
/// exactly when the character is an uppercase ASCII letter, which is
/// lowered; a longer token is scanned for modifier prefixes, and the
/// remaining name is either a single literal character (uppercase implies
/// Shift only when no prefix was given) or a special-key name looked up with
/// its brackets restored.
pub open spec fn spec_chord(s: Seq<char>) -> CharKeyMod {
    if s.len() == 1 {
        let c = s[0];
        if spec_is_ascii_uppercase(c) {
            CharKeyMod { key: CharKey::Char(spec_to_ascii_lowercase(c)), mods: ModSet(1) }
        } else {
            CharKeyMod { key: CharKey::Char(c), mods: ModSet(0) }
        }
    } else {
        let (mods, name) = spec_scan_token(s, 1, ModSet(0), Seq::empty());
        if name.len() == 1 {
            let c = name[0];
            let mods2 = if spec_is_ascii_uppercase(c) && mods == ModSet(0) {
                ModSet(1)
            } else {
                mods
            };
            CharKeyMod { key: CharKey::Char(c), mods: mods2 }
        } else {
            CharKeyMod { key: spec_char_key(seq!['<'] + name + seq!['>']), mods }
        }
    }
}

impl CharKeyMod {
    /// Parse a chord token such as `"a"`, `"A"`, `"<C-Left>"` or `"<S-C-+>"`.
    pub fn parse(s: &str) -> (ck: CharKeyMod)
        ensures
            ck == spec_chord(s@),
    {
        let n = s.unicode_len();
        if n == 1 {
            let c = s.get_char(0);
            if is_ascii_uppercase(c) {
                CharKeyMod { key: CharKey::Char(to_ascii_lowercase(c)), mods: ModSet::shift() }
            } else {
                CharKeyMod { key: CharKey::Char(c), mods: ModSet::empty() }
            }
        } else {
            let mut mods = ModSet::empty();
            let mut name = String::new();
            let mut i: usize = 1;
            while i < n
                invariant_except_break
                    n == s@.len(),
                    1 <= i,
                    spec_scan_token(s@, 1, ModSet(0), Seq::empty()) == spec_scan_token(
                        s@,
                        i as int,
                        mods,
                        name@,
                    ),
                ensures
                    spec_scan_token(s@, 1, ModSet(0), Seq::empty()) == (mods, name@),
                decreases n - i,
            {
                let c = s.get_char(i);
                if c == 'S' || c == 'C' || c == 'A' {
                    if i + 1 < n {
                        let nc = s.get_char(i + 1);
                        if nc == '-' {
                            let m = if c == 'S' {
                                Mod::Shift
                            } else if c == 'C' {
                                Mod::Control
                            } else {
                                Mod::Alt
                            };
                            mods.set(m);
                            i = i + 2;
                        } else if nc == '>' {
                            name.push(c);
                            break ;
                        } else {
                            name.push(c);
                            name.push(nc);
                            i = i + 2;
                        }
                    } else {
                        name.push(c);
                        break ;
                    }
                } else if c == '>' {
                    break ;
                } else {
                    name.push(c);
                    i = i + 1;
                }
            }
            if name.as_str().unicode_len() == 1 {
                let c = name.as_str().get_char(0);
                let mods2 = if is_ascii_uppercase(c) && mods.0 == 0 {
                    ModSet::shift()
                } else {
                    mods
                };
                CharKeyMod { key: CharKey::Char(c), mods: mods2 }
            } else {
                let mut bracketed = String::new();
                bracketed.push('<');
                bracketed.append(name.as_str());
                bracketed.push('>');
                proof {
                    assert(bracketed@ =~= seq!['<'] + name@ + seq!['>']);
                }
                CharKeyMod { key: CharKey::parse(bracketed.as_str()), mods }
            }
        }
    }
}

impl<'a> From<&'a str> for CharKeyMod {
    fn from(s: &'a str) -> (ck: CharKeyMod) {
        CharKeyMod::parse(s)
    }
}

impl<'a> vstd::std_specs::convert::FromSpecImpl<&'a str> for CharKeyMod {
    open spec fn obeys_from_spec() -> bool {
        true
    }

    open spec fn from_spec(s: &'a str) -> CharKeyMod {
        spec_chord(s@)
    }
}

/// A physical key identity, as delivered by the windowing layer.
pub type PhysKey = i64;

/// One binding of the layout table: a physical key with an exact modifier
/// set, mapped to a logical key.
#[derive(PartialEq, Eq, Structural, Clone, Copy, Debug)]
pub struct LayoutEntry {
    pub key: PhysKey,
    pub mods: ModSet,
    pub out: CharKey,
}

/// The logical key bound to `(k, mods)` among `entries`, the latest binding
/// winning.
pub open spec fn spec_lookup(entries: Seq<LayoutEntry>, k: PhysKey, mods: ModSet) -> Option<
    CharKey,
>
    decreases entries.len(),
{
    if entries.len() == 0 {
        None
    } else {
        let e = entries.last();
        if e.key == k && e.mods == mods {
            Some(e.out)
        } else {
            spec_lookup(entries.drop_last(), k, mods)
        }
    }
}

/// The whole fallback search: the exact modifier set first, then the sets
/// obtained by stripping Alt, Control, AltGr and Shift, in that order and
/// cumulatively; the first hit wins and a full miss is `None`.
pub open spec fn spec_translate(entries: Seq<LayoutEntry>, k: PhysKey, mods: ModSet) -> Option<
    CharKey,
> {
    let m1 = mods.spec_clear(Mod::Alt);
    let m2 = m1.spec_clear(Mod::Control);
    let m3 = m2.spec_clear(Mod::AltGr);
    let m4 = m3.spec_clear(Mod::Shift);
    if spec_lookup(entries, k, mods) is Some {
        spec_lookup(entries, k, mods)
    } else if spec_lookup(entries, k, m1) is Some {
        spec_lookup(entries, k, m1)
    } else if spec_lookup(entries, k, m2) is Some {
        spec_lookup(entries, k, m2)
    } else if spec_lookup(entries, k, m3) is Some {
        spec_lookup(entries, k, m3)
    } else {
        spec_lookup(entries, k, m4)
    }
}

/// A table from physical keys plus modifier sets to logical keys, with a
/// deterministic modifier-stripping fallback search.
pub struct KeyboardLayout {
    entries: Vec<LayoutEntry>,
}

impl KeyboardLayout {
    /// The bindings the table holds, oldest first.
    pub closed spec fn entries(&self) -> Seq<LayoutEntry> {
        self.entries@
    }

    /// An empty table, translating nothing.
    pub fn new() -> (l: KeyboardLayout)
        ensures
            l.entries() == Seq::<LayoutEntry>::empty(),
    {
        KeyboardLayout { entries: Vec::new() }
    }

    /// Bind `(key, mods)` to the logical key `out`, shadowing any earlier
    /// binding of the same pair.
    pub fn bind(&mut self, key: PhysKey, mods: ModSet, out: CharKey)
        ensures
            final(self).entries() == old(self).entries().push(
                LayoutEntry { key, mods, out },
            ),
    {
        self.entries.push(LayoutEntry { key, mods, out });
    }

    /// Find the latest binding of exactly `(k, mods)`.
    fn lookup(&self, k: PhysKey, mods: ModSet) -> (r: Option<CharKey>)
        ensures
            r == spec_lookup(self.entries(), k, mods),
    {
        let n = self.entries.len();
        let mut i: usize = n;
        proof {
            assert(self.entries@.subrange(0, n as int) =~= self.entries@);
        }
        while i > 0
            invariant
                i <= n,
                n == self.entries@.len(),
                spec_lookup(self.entries@, k, mods) == spec_lookup(
                    self.entries@.subrange(0, i as int),
                    k,
                    mods,
                ),
            decreases i,
        {
            i = i - 1;
            let e = &self.entries[i];
            proof {
                assert(self.entries@.subrange(0, i + 1 as int).last() == self.entries@[i as int]);
                assert(self.entries@.subrange(0, i + 1 as int).drop_last() =~= self.entries@
                    .subrange(0, i as int));
            }
            if e.key == k && e.mods == mods {
                return Some(e.out);
            }
        }
        proof {
            assert(self.entries@.subrange(0, 0) =~= Seq::<LayoutEntry>::empty());
        }
        None
    }

    /// Translate a physical key event to a logical key, trying the exact
    /// modifier set first and then stripping Alt, Control, AltGr and Shift
    /// in that order until a binding is found.
    pub fn translate(&self, key: &(PhysKey, ModSet)) -> (r: Option<CharKey>)
        ensures
            r == spec_translate(self.entries(), key.0, key.1),
    {
        let ck = self.lookup(key.0, key.1);
        if ck.is_some() {
            return ck;
        }
        let mut set = key.1;
        set.clear(Mod::Alt);
        let c1 = self.lookup(key.0, set);
        if c1.is_some() {
            return c1;
        }
        set.clear(Mod::Control);
        let c2 = self.lookup(key.0, set);
        if c2.is_some() {
            return c2;
        }
        set.clear(Mod::AltGr);
        let c3 = self.lookup(key.0, set);
        if c3.is_some() {
            return c3;
        }
        set.clear(Mod::Shift);
        self.lookup(key.0, set)
    }
}

/// The translation tries the exact chord first and then the four stripped
/// sets in their fixed order, returning the first table hit; in particular a
/// table that misses on the exact chord and on every stripped set yields
/// nothing.
pub proof fn lemma_translate_priority(entries: Seq<LayoutEntry>, k: PhysKey, mods: ModSet)
    ensures
        spec_lookup(entries, k, mods) is Some ==> spec_translate(entries, k, mods) == spec_lookup(
            entries,
            k,
            mods,
        ),
        (spec_lookup(entries, k, mods) is None && spec_lookup(
            entries,
            k,
            mods.spec_clear(Mod::Alt),
        ) is Some) ==> spec_translate(entries, k, mods) == spec_lookup(
            entries,
            k,
            mods.spec_clear(Mod::Alt),
        ),
        (spec_lookup(entries, k, mods) is None && spec_lookup(
            entries,
            k,
            mods.spec_clear(Mod::Alt),
        ) is None && spec_lookup(
            entries,
            k,
            mods.spec_clear(Mod::Alt).spec_clear(Mod::Control),
        ) is Some) ==> spec_translate(entries, k, mods) == spec_lookup(
            entries,
            k,
            mods.spec_clear(Mod::Alt).spec_clear(Mod::Control),
        ),
        (forall|m: ModSet| spec_lookup(entries, k, m) is None) ==> spec_translate(
            entries,
            k,
            mods,
        ) is None,
{
}

} // verus!
