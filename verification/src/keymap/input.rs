//! Canonical representation of one physical key press, and its compact
//! textual grammar.
//!
//! A key press is a base key plus a set of modifiers. The textual form is
//! `[modifier-prefix]* base-token`, with modifier prefixes `C-` (Ctrl),
//! `A-` (Alt) and `S-` (Shift) in any order without duplication, and a base
//! token that is either a single printable character or one of a fixed set
//! of named key tokens (`space`, `esc`, `f1`..`f12`, arrow keys, ...).
//! Parsing a canonical textual form and re-serializing it yields the same
//! text; the modifiers always serialize in the order `C-`, `A-`, `S-`.

use vstd::prelude::*;
use vstd::string::StrSliceExecFns;
use vstd::string::StringExecFns;

verus! {

/// The set of modifier keys held together with a base key.
#[derive(Clone, Copy, PartialEq, Eq, Structural, Hash, Debug)]
pub struct Modifiers {
    pub ctrl: bool,
    pub alt: bool,
    pub shift: bool,
}

impl Modifiers {
    /// The empty modifier set.
    pub fn none() -> (r: Self)
        ensures
            r == (Modifiers { ctrl: false, alt: false, shift: false }),
    {
        Modifiers { ctrl: false, alt: false, shift: false }
    }
}

/// The base key of a key press: a printable character or a named key.
#[derive(Clone, Copy, PartialEq, Eq, Structural, Hash, Debug)]
pub enum KeyCode {
    /// A single printable character key.
    Char(char),
    Space,
    Esc,
    Enter,
    Tab,
    Backspace,
    Del,
    Up,
    Down,
    Left,
    Right,
    /// A function key `f1`..`f12`.
    F(u8),
}

/// A character that may stand on its own as a base token: printable and not
/// a space (the space key has the named token `space`).
pub open spec fn is_printable(c: char) -> bool {
    0x21 <= c as u32 <= 0x7e
}

/// Which function-key numbers exist.
pub open spec fn is_fkey_number(n: u8) -> bool {
    1 <= n <= 12
}

impl KeyCode {
    /// Validity of a base key: character keys are printable, function keys
    /// are numbered `1..=12`.
    pub open spec fn wf(self) -> bool {
        match self {
            KeyCode::Char(c) => is_printable(c),
            KeyCode::F(n) => is_fkey_number(n),
            _ => true,
        }
    }

    /// The canonical textual token of this base key.
    pub open spec fn spec_token(self) -> Seq<char> {
        match self {
            KeyCode::Char(c) => seq![c],
            KeyCode::Space => "space"@,
            KeyCode::Esc => "esc"@,
            KeyCode::Enter => "enter"@,
            KeyCode::Tab => "tab"@,
            KeyCode::Backspace => "backspace"@,
            KeyCode::Del => "del"@,
            KeyCode::Up => "up"@,
            KeyCode::Down => "down"@,
            KeyCode::Left => "left"@,
            KeyCode::Right => "right"@,
            KeyCode::F(n) => spec_f_token(n),
        }
    }
}

/// The token of a function key.
pub open spec fn spec_f_token(n: u8) -> Seq<char> {
    if n == 1 {
        "f1"@
    } else if n == 2 {
        "f2"@
    } else if n == 3 {
        "f3"@
    } else if n == 4 {
        "f4"@
    } else if n == 5 {
        "f5"@
    } else if n == 6 {
        "f6"@
    } else if n == 7 {
        "f7"@
    } else if n == 8 {
        "f8"@
    } else if n == 9 {
        "f9"@
    } else if n == 10 {
        "f10"@
    } else if n == 11 {
        "f11"@
    } else {
        "f12"@
    }
}

/// What a base token means: the first matching alternative of the grammar.
pub open spec fn spec_base(s: Seq<char>) -> Option<KeyCode> {
    if s == "space"@ {
        Some(KeyCode::Space)
    } else if s == "esc"@ {
        Some(KeyCode::Esc)
    } else if s == "enter"@ {
        Some(KeyCode::Enter)
    } else if s == "tab"@ {
        Some(KeyCode::Tab)
    } else if s == "backspace"@ {
        Some(KeyCode::Backspace)
    } else if s == "del"@ {
        Some(KeyCode::Del)
    } else if s == "up"@ {
        Some(KeyCode::Up)
    } else if s == "down"@ {
        Some(KeyCode::Down)
    } else if s == "left"@ {
        Some(KeyCode::Left)
    } else if s == "right"@ {
        Some(KeyCode::Right)
    } else if s == "f1"@ {
        Some(KeyCode::F(1))
    } else if s == "f2"@ {
        Some(KeyCode::F(2))
    } else if s == "f3"@ {
        Some(KeyCode::F(3))
    } else if s == "f4"@ {
        Some(KeyCode::F(4))
    } else if s == "f5"@ {
        Some(KeyCode::F(5))
    } else if s == "f6"@ {
        Some(KeyCode::F(6))
    } else if s == "f7"@ {
        Some(KeyCode::F(7))
    } else if s == "f8"@ {
        Some(KeyCode::F(8))
    } else if s == "f9"@ {
        Some(KeyCode::F(9))
    } else if s == "f10"@ {
        Some(KeyCode::F(10))
    } else if s == "f11"@ {
        Some(KeyCode::F(11))
    } else if s == "f12"@ {
        Some(KeyCode::F(12))
    } else if s.len() == 1 && is_printable(s[0]) {
        Some(KeyCode::Char(s[0]))
    } else {
        None
    }
}

/// A canonical, hashable representation of one physical key press.
#[derive(Clone, Copy, PartialEq, Eq, Structural, Hash, Debug)]
pub struct KeyInput {
    pub code: KeyCode,
    pub mods: Modifiers,
}

/// Why a textual key token failed to parse.
#[derive(Clone, Copy, PartialEq, Eq, Structural, Debug)]
pub enum ParseError {
    /// The input was empty (or ended right after a modifier prefix).
    Empty,
    /// The same modifier prefix appeared twice.
    DuplicateModifier,
    /// The base token is not a printable character or known key name.
    UnknownToken,
}

/// The characters that introduce a modifier prefix.
pub open spec fn is_mod_char(c: char) -> bool {
    c == 'C' || c == 'A' || c == 'S'
}

/// Whether the modifier named by `c` is already in the set.
pub open spec fn spec_has_mod(m: Modifiers, c: char) -> bool {
    if c == 'C' {
        m.ctrl
    } else if c == 'A' {
        m.alt
    } else {
        m.shift
    }
}

/// The modifier set with the modifier named by `c` added.
pub open spec fn spec_add_mod(m: Modifiers, c: char) -> Modifiers {
    if c == 'C' {
        Modifiers { ctrl: true, ..m }
    } else if c == 'A' {
        Modifiers { alt: true, ..m }
    } else {
        Modifiers { shift: true, ..m }
    }
}

/// What a full textual key token means: modifier prefixes are peeled off
/// one at a time (rejecting duplicates), then the base token is read.
pub open spec fn spec_parse(s: Seq<char>) -> Option<KeyInput>
    decreases s.len(),
{
    if s.len() >= 2 && s[1] == '-' && is_mod_char(s[0]) {
        match spec_parse(s.skip(2)) {
            Some(k) => if spec_has_mod(k.mods, s[0]) {
                None
            } else {
                Some(KeyInput { code: k.code, mods: spec_add_mod(k.mods, s[0]) })
            },
            None => None,
        }
    } else {
        match spec_base(s) {
            Some(code) => Some(
                KeyInput { code, mods: Modifiers { ctrl: false, alt: false, shift: false } },
            ),
            None => None,
        }
    }
}

/// Which error a malformed token is reported with. Unspecified (and never
/// exposed) on tokens that do parse.
pub open spec fn spec_parse_err(s: Seq<char>) -> ParseError
    decreases s.len(),
{
    if s.len() >= 2 && s[1] == '-' && is_mod_char(s[0]) {
        match spec_parse(s.skip(2)) {
            Some(k) => ParseError::DuplicateModifier,
            None => spec_parse_err(s.skip(2)),
        }
    } else if s.len() == 0 {
        ParseError::Empty
    } else {
        ParseError::UnknownToken
    }
}

/// The canonical modifier prefix of a modifier set: `C-`, then `A-`, then
/// `S-`, each only if present.
pub open spec fn spec_mods_prefix(m: Modifiers) -> Seq<char> {
    (if m.ctrl {
        "C-"@
    } else {
        Seq::<char>::empty()
    }) + (if m.alt {
        "A-"@
    } else {
        Seq::<char>::empty()
    }) + (if m.shift {
        "S-"@
    } else {
        Seq::<char>::empty()
    })
}

/// The canonical textual form of a key press.
pub open spec fn spec_serialize(k: KeyInput) -> Seq<char> {
    spec_mods_prefix(k.mods) + k.code.spec_token()
}

impl KeyInput {
    /// Validity of a key press: its base key is valid.
    pub open spec fn wf(self) -> bool {
        self.code.wf()
    }

}

/// Relies on `String::push`: appends exactly the given character to the end
/// of the string.
#[verifier::external_body]
fn push_char(s: &mut String, c: char)
    ensures
        final(s)@ == old(s)@.push(c),
{
    s.push(c);
}

/// Compares the tail of `s` starting at `i` with `lit`, character by
/// character.
fn token_eq(s: &str, i: usize, lit: &str) -> (r: bool)
    requires
        i <= s@.len(),
    ensures
        r == (s@.skip(i as int) == lit@),
{
    let n = s.unicode_len();
    let m = lit.unicode_len();
    if n - i != m {
        proof {
            assert(s@.skip(i as int).len() != lit@.len());
        }
        return false;
    }
    let mut j: usize = 0;
    while j < m
        invariant
            i <= s@.len(),
            s@.len() <= usize::MAX,
            m == lit@.len(),
            s@.len() - i == m,
            j <= m,
            forall|t: int| 0 <= t < j ==> s@.skip(i as int)[t] == lit@[t],
        decreases m - j,
    {
        if s.get_char(i + j) != lit.get_char(j) {
            proof {
                assert(s@.skip(i as int)[j as int] != lit@[j as int]);
            }
            return false;
        }
        j += 1;
    }
    proof {
        assert(s@.skip(i as int) =~= lit@);
    }
    true
}

/// Reads the base token that spans from `i` to the end of `s`.
fn parse_base(s: &str, i: usize) -> (r: Option<KeyCode>)
    requires
        i <= s@.len(),
    ensures
        r == spec_base(s@.skip(i as int)),
{
    if token_eq(s, i, "space") {
        return Some(KeyCode::Space);
    }
    if token_eq(s, i, "esc") {
        return Some(KeyCode::Esc);
    }
    if token_eq(s, i, "enter") {
        return Some(KeyCode::Enter);
    }
    if token_eq(s, i, "tab") {
        return Some(KeyCode::Tab);
    }
    if token_eq(s, i, "backspace") {
        return Some(KeyCode::Backspace);
    }
    if token_eq(s, i, "del") {
        return Some(KeyCode::Del);
    }
    if token_eq(s, i, "up") {
        return Some(KeyCode::Up);
    }
    if token_eq(s, i, "down") {
        return Some(KeyCode::Down);
    }
    if token_eq(s, i, "left") {
        return Some(KeyCode::Left);
    }
    if token_eq(s, i, "right") {
        return Some(KeyCode::Right);
    }
    if token_eq(s, i, "f1") {
        return Some(KeyCode::F(1));
    }
    if token_eq(s, i, "f2") {
        return Some(KeyCode::F(2));
    }
    if token_eq(s, i, "f3") {
        return Some(KeyCode::F(3));
    }
    if token_eq(s, i, "f4") {
        return Some(KeyCode::F(4));
    }
    if token_eq(s, i, "f5") {
        return Some(KeyCode::F(5));
    }
    if token_eq(s, i, "f6") {
        return Some(KeyCode::F(6));
    }
    if token_eq(s, i, "f7") {
        return Some(KeyCode::F(7));
    }
    if token_eq(s, i, "f8") {
        return Some(KeyCode::F(8));
    }
    if token_eq(s, i, "f9") {
        return Some(KeyCode::F(9));
    }
    if token_eq(s, i, "f10") {
        return Some(KeyCode::F(10));
    }
    if token_eq(s, i, "f11") {
        return Some(KeyCode::F(11));
    }
    if token_eq(s, i, "f12") {
        return Some(KeyCode::F(12));
    }
    let n = s.unicode_len();
    if n - i == 1 {
        let c = s.get_char(i);
        let u = c as u32;
        if 0x21 <= u && u <= 0x7e {
            proof {
                assert(s@.skip(i as int) =~= seq![s@[i as int]]);
            }
            return Some(KeyCode::Char(c));
        }
    }
    None
}

/// Whether the modifier named by `c` is in the set.
fn mods_has(m: Modifiers, c: char) -> (r: bool)
    requires
        is_mod_char(c),
    ensures
        r == spec_has_mod(m, c),
{
    if c == 'C' {
        m.ctrl
    } else if c == 'A' {
        m.alt
    } else {
        m.shift
    }
}

/// The set with the modifier named by `c` added.
fn mods_with(m: Modifiers, c: char) -> (r: Modifiers)
    requires
        is_mod_char(c),
    ensures
        r == spec_add_mod(m, c),
{
    if c == 'C' {
        Modifiers { ctrl: true, ..m }
    } else if c == 'A' {
        Modifiers { alt: true, ..m }
    } else {
        Modifiers { shift: true, ..m }
    }
}

/// Parses the token that spans from `i` to the end of `s`.
fn parse_at(s: &str, i: usize) -> (r: Result<KeyInput, ParseError>)
    requires
        i <= s@.len(),
    ensures
        r matches Ok(k) ==> spec_parse(s@.skip(i as int)) == Some(k),
        r matches Err(e) ==> spec_parse(s@.skip(i as int)) is None && e == spec_parse_err(
            s@.skip(i as int),
        ),
    decreases s@.len() - i,
{
    let ghost tail = s@.skip(i as int);
    let n = s.unicode_len();
    if n - i >= 2 {
        let c0 = s.get_char(i);
        let c1 = s.get_char(i + 1);
        if c1 == '-' && (c0 == 'C' || c0 == 'A' || c0 == 'S') {
            proof {
                assert(tail.len() >= 2 && tail[0] == c0 && tail[1] == c1);
                assert(tail.skip(2) =~= s@.skip(i as int + 2));
            }
            return match parse_at(s, i + 2) {
                Ok(k) => {
                    if mods_has(k.mods, c0) {
                        Err(ParseError::DuplicateModifier)
                    } else {
                        Ok(KeyInput { code: k.code, mods: mods_with(k.mods, c0) })
                    }
                },
                Err(e) => Err(e),
            };
        }
    }
    match parse_base(s, i) {
        Some(code) => Ok(KeyInput { code, mods: Modifiers::none() }),
        None => {
            if n == i {
                Err(ParseError::Empty)
            } else {
                Err(ParseError::UnknownToken)
            }
        },
    }
}

/// Every key press a token parses to is valid.
pub proof fn lemma_parse_wf(s: Seq<char>)
    ensures
        spec_parse(s) matches Some(k) ==> k.wf(),
    decreases s.len(),
{
    if s.len() >= 2 && s[1] == '-' && is_mod_char(s[0]) {
        lemma_parse_wf(s.skip(2));
    }
}

/// Every valid base key's canonical token parses back to that base key,
/// with no modifiers.
proof fn lemma_base_token(code: KeyCode)
    requires
        code.wf(),
    ensures
        spec_parse(code.spec_token()) == Some(
            KeyInput { code, mods: Modifiers { ctrl: false, alt: false, shift: false } },
        ),
{
    reveal_strlit("space");
    reveal_strlit("esc");
    reveal_strlit("enter");
    reveal_strlit("tab");
    reveal_strlit("backspace");
    reveal_strlit("del");
    reveal_strlit("up");
    reveal_strlit("down");
    reveal_strlit("left");
    reveal_strlit("right");
    reveal_strlit("f1");
    reveal_strlit("f2");
    reveal_strlit("f3");
    reveal_strlit("f4");
    reveal_strlit("f5");
    reveal_strlit("f6");
    reveal_strlit("f7");
    reveal_strlit("f8");
    reveal_strlit("f9");
    reveal_strlit("f10");
    reveal_strlit("f11");
    reveal_strlit("f12");
    let tok = code.spec_token();
    if tok.len() >= 2 {
        assert(tok[1] != '-');
    }
    match code {
        KeyCode::Char(c) => {
            assert(tok.len() == 1);
            assert(spec_base(tok) == Some(code));
        },
        KeyCode::F(n) => {
            if n == 1 {
                assert(spec_base(tok) == Some(code));
            } else if n == 2 {
                assert(spec_base(tok) == Some(code));
            } else if n == 3 {
                assert(spec_base(tok) == Some(code));
            } else if n == 4 {
                assert(spec_base(tok) == Some(code));
            } else if n == 5 {
                assert(spec_base(tok) == Some(code));
            } else if n == 6 {
                assert(spec_base(tok) == Some(code));
            } else if n == 7 {
                assert(spec_base(tok) == Some(code));
            } else if n == 8 {
                assert(spec_base(tok) == Some(code));
            } else if n == 9 {
                assert(spec_base(tok) == Some(code));
            } else if n == 10 {
                assert(tok == "f10"@);
                assert(tok.len() == 3);
                assert(tok != "esc"@);
                assert(tok != "tab"@);
                assert(tok != "del"@);
                assert(tok != "f1"@);
                assert(tok != "f9"@);
                assert(spec_base(tok) == Some(code));
            } else if n == 11 {
                assert(tok == "f11"@);
                assert(tok.len() == 3);
                assert(tok != "esc"@);
                assert(tok != "tab"@);
                assert(tok != "del"@);
                assert(tok != "f1"@);
                assert(tok != "f9"@);
                assert(tok[2] != "f10"@[2]);
                assert(tok != "f10"@);
                assert(spec_base(tok) == Some(code));
            } else {
                assert(tok == "f12"@);
                assert(tok.len() == 3);
                assert(tok != "esc"@);
                assert(tok != "tab"@);
                assert(tok != "del"@);
                assert(tok != "f1"@);
                assert(tok != "f9"@);
                assert(tok[2] != "f10"@[2]);
                assert(tok != "f10"@);
                assert(tok[2] != "f11"@[2]);
                assert(tok != "f11"@);
                assert(spec_base(tok) == Some(code));
            }
        },
        _ => {
            assert(spec_base(tok) == Some(code));
        },
    }
}

/// Prepending one fresh modifier prefix to a token that parses extends the
/// parsed modifier set by exactly that modifier.
proof fn lemma_mod_step(c: char, rest: Seq<char>, k: KeyInput)
    requires
        is_mod_char(c),
        spec_parse(rest) == Some(k),
        !spec_has_mod(k.mods, c),
    ensures
        spec_parse(seq![c, '-'] + rest) == Some(
            KeyInput { code: k.code, mods: spec_add_mod(k.mods, c) },
        ),
{
    let s = seq![c, '-'] + rest;
    assert(s[0] == c);
    assert(s[1] == '-');
    assert(s.skip(2) =~= rest);
}

/// Distinct modifier prefixes commute: they may come in either order
/// without changing what a token parses to. Two independently parsed
/// tokens naming the same base key and modifier set are therefore equal,
/// regardless of the order of their modifier prefixes.
pub proof fn lemma_mod_prefix_order(c1: char, c2: char, rest: Seq<char>)
    requires
        is_mod_char(c1),
        is_mod_char(c2),
        c1 != c2,
    ensures
        spec_parse(seq![c1, '-'] + (seq![c2, '-'] + rest)) == spec_parse(
            seq![c2, '-'] + (seq![c1, '-'] + rest),
        ),
{
    let s12 = seq![c1, '-'] + (seq![c2, '-'] + rest);
    let s21 = seq![c2, '-'] + (seq![c1, '-'] + rest);
    let i2 = seq![c2, '-'] + rest;
    let i1 = seq![c1, '-'] + rest;
    assert(s12[0] == c1 && s12[1] == '-');
    assert(s21[0] == c2 && s21[1] == '-');
    assert(s12.skip(2) =~= i2);
    assert(s21.skip(2) =~= i1);
    assert(i2[0] == c2 && i2[1] == '-');
    assert(i1[0] == c1 && i1[1] == '-');
    assert(i2.skip(2) =~= rest);
    assert(i1.skip(2) =~= rest);
    match spec_parse(rest) {
        Some(k) => {
            assert(spec_add_mod(spec_add_mod(k.mods, c2), c1) == spec_add_mod(
                spec_add_mod(k.mods, c1),
                c2,
            ));
            assert(spec_has_mod(spec_add_mod(k.mods, c1), c2) == spec_has_mod(k.mods, c2));
            assert(spec_has_mod(spec_add_mod(k.mods, c2), c1) == spec_has_mod(k.mods, c1));
            if spec_has_mod(k.mods, c2) {
                assert(spec_parse(i2) is None);
                assert(spec_parse(s12) is None);
                assert(spec_parse(s21) is None);
            } else if spec_has_mod(k.mods, c1) {
                assert(spec_parse(i1) is None);
                assert(spec_parse(s21) is None);
                assert(spec_parse(s12) is None);
            } else {
                assert(spec_parse(i2) == Some(
                    KeyInput { code: k.code, mods: spec_add_mod(k.mods, c2) },
                ));
                assert(spec_parse(i1) == Some(
                    KeyInput { code: k.code, mods: spec_add_mod(k.mods, c1) },
                ));
                assert(spec_parse(s12) == Some(
                    KeyInput { code: k.code, mods: spec_add_mod(spec_add_mod(k.mods, c2), c1) },
                ));
                assert(spec_parse(s21) == Some(
                    KeyInput { code: k.code, mods: spec_add_mod(spec_add_mod(k.mods, c1), c2) },
                ));
            }
        },
        None => {
            assert(spec_parse(i2) is None);
            assert(spec_parse(i1) is None);
            assert(spec_parse(s12) is None);
            assert(spec_parse(s21) is None);
        },
    }
}

/// Round-trip stability of the textual form: serializing any valid key
/// press and parsing the result yields the key press back. In particular,
/// for every token in the canonical textual form (the image of
/// `spec_serialize`), parsing and re-serializing is the identity.
pub proof fn lemma_round_trip(k: KeyInput)
    requires
        k.wf(),
    ensures
        spec_parse(spec_serialize(k)) == Some(k),
{
    reveal_strlit("C-");
    reveal_strlit("A-");
    reveal_strlit("S-");
    let tok = k.code.spec_token();
    lemma_base_token(k.code);
    let ksh = KeyInput {
        code: k.code,
        mods: Modifiers { ctrl: false, alt: false, shift: k.mods.shift },
    };
    let s2 = if k.mods.shift {
        seq!['S', '-'] + tok
    } else {
        tok
    };
    if k.mods.shift {
        lemma_mod_step('S', tok, KeyInput { code: k.code, mods: Modifiers { ctrl: false, alt: false, shift: false } });
    }
    assert(spec_parse(s2) == Some(ksh));
    let kal = KeyInput {
        code: k.code,
        mods: Modifiers { ctrl: false, alt: k.mods.alt, shift: k.mods.shift },
    };
    let s1 = if k.mods.alt {
        seq!['A', '-'] + s2
    } else {
        s2
    };
    if k.mods.alt {
        lemma_mod_step('A', s2, ksh);
    }
    assert(spec_parse(s1) == Some(kal));
    let s0 = if k.mods.ctrl {
        seq!['C', '-'] + s1
    } else {
        s1
    };
    if k.mods.ctrl {
        lemma_mod_step('C', s1, kal);
    }
    assert(spec_parse(s0) == Some(k));
    assert(spec_serialize(k) =~= s0);
}

impl KeyInput {
    /// Parse the compact textual form of a key press.
    ///
    /// Returns exactly the key press the grammar assigns to `text`, or the
    /// error class of the first fault found: an empty (or prematurely ended)
    /// token, a duplicated modifier prefix, or an unknown base token.
    pub fn parse(text: &str) -> (r: Result<KeyInput, ParseError>)
        ensures
            r matches Ok(k) ==> spec_parse(text@) == Some(k) && k.wf(),
            r matches Err(e) ==> spec_parse(text@) is None && e == spec_parse_err(text@),
    {
        proof {
            assert(text@.skip(0) =~= text@);
            lemma_parse_wf(text@);
        }
        parse_at(text, 0)
    }

    /// The canonical textual form of this key press: `C-`, `A-`, `S-`
    /// prefixes in that order, then the base token.
    pub fn serialize(&self) -> (r: String)
        requires
            self.wf(),
        ensures
            r@ == spec_serialize(*self),
    {
        let mut out = String::new();
        if self.mods.ctrl {
            out.append("C-");
        }
        if self.mods.alt {
            out.append("A-");
        }
        if self.mods.shift {
            out.append("S-");
        }
        let ghost prefix = out@;
        proof {
            assert(prefix =~= spec_mods_prefix(self.mods));
        }
        match self.code {
            KeyCode::Char(c) => {
                push_char(&mut out, c);
                proof {
                    assert(out@ =~= prefix + seq![c]);
                }
            },
            KeyCode::Space => out.append("space"),
            KeyCode::Esc => out.append("esc"),
            KeyCode::Enter => out.append("enter"),
            KeyCode::Tab => out.append("tab"),
            KeyCode::Backspace => out.append("backspace"),
            KeyCode::Del => out.append("del"),
            KeyCode::Up => out.append("up"),
            KeyCode::Down => out.append("down"),
            KeyCode::Left => out.append("left"),
            KeyCode::Right => out.append("right"),
            KeyCode::F(n) => {
                match n {
                    1 => out.append("f1"),
                    2 => out.append("f2"),
                    3 => out.append("f3"),
                    4 => out.append("f4"),
                    5 => out.append("f5"),
                    6 => out.append("f6"),
                    7 => out.append("f7"),
                    8 => out.append("f8"),
                    9 => out.append("f9"),
                    10 => out.append("f10"),
                    11 => out.append("f11"),
                    _ => {
                        proof {
                            assert(n == 12);
                        }
                        out.append("f12");
                    },
                }
            },
        }
        out
    }
}

} // verus!
