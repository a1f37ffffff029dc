//! Keybinding dispatcher.
//!
//! Compiles the key binding configuration into a chord-sequence lookup table
//! and resolves incoming key events against it, including multi-chord
//! sequences (the built-in `C-Space n` "next window" binding, for example)
//! and a locked mode that swallows every key except the unlock sequence.
//!
//! Keys resolve to action names only; callers decide what each action does.
use vstd::prelude::*;

use crate::config::{CopyModeStyle, KeyBindingsConfig};
use crate::keys::{KeyCode, KeyModifiers};
use crate::text::{chars_eq, chars_of, is_whitespace, spec_is_whitespace, str_eq};

verus! {

/// A single key chord: modifiers and key code. Printable characters do not
/// count Shift, which is already part of the character.
#[derive(Debug, Clone, Copy, PartialEq, Eq, Structural, Hash)]
pub struct KeyChord {
    pub modifiers: KeyModifiers,
    pub code: KeyCode,
}

/// The chord a key event stands for: Shift is dropped for characters.
pub open spec fn chord_of(modifiers: KeyModifiers, code: KeyCode) -> KeyChord {
    match code {
        KeyCode::Char(_) => KeyChord { modifiers: KeyModifiers { shift: false, ..modifiers }, code },
        _ => KeyChord { modifiers, code },
    }
}

/// Whether `c` followed by `-` names a modifier in a binding (`C-`, `M-`,
/// `A-`, `S-`).
pub open spec fn is_modifier_letter(c: char) -> bool {
    c == 'C' || c == 'M' || c == 'A' || c == 'S'
}

/// The modifier a prefix letter names.
pub open spec fn modifier_of_letter(c: char) -> KeyModifiers {
    if c == 'C' {
        KeyModifiers { control: true, ..KeyModifiers::spec_none() }
    } else if c == 'S' {
        KeyModifiers { shift: true, ..KeyModifiers::spec_none() }
    } else {
        KeyModifiers { alt: true, ..KeyModifiers::spec_none() }
    }
}

/// Leading modifier prefixes of a chord token, and what follows them.
pub open spec fn split_modifiers(s: Seq<char>) -> (KeyModifiers, Seq<char>)
    decreases s.len(),
{
    if s.len() >= 2 && s[1] == '-' && is_modifier_letter(s[0]) {
        let (m, rest) = split_modifiers(s.skip(2));
        (modifier_of_letter(s[0]).spec_union(m), rest)
    } else {
        (KeyModifiers::spec_none(), s)
    }
}

pub open spec fn is_digit(c: char) -> bool {
    0x30 <= (c as u32) <= 0x39
}

/// Decimal value of a string of digits.
pub open spec fn decimal_value(s: Seq<char>) -> nat
    decreases s.len(),
{
    if s.len() == 0 {
        0
    } else {
        decimal_value(s.drop_last()) * 10 + ((s.last() as u32) - 0x30) as nat
    }
}

/// Value of a non-empty all-digit string that fits in a `u8`.
pub open spec fn u8_of_digits(digits: Seq<char>) -> Option<u8> {
    if digits.len() > 0 && (forall|i: int| 0 <= i < digits.len() ==> is_digit(#[trigger] digits[i]))
        && decimal_value(digits) <= 255 {
        Some(decimal_value(digits) as u8)
    } else {
        None
    }
}

/// `u8` parsing of decimal text: an optional `+`, then at least one digit,
/// with a value of at most 255.
pub open spec fn parse_u8_text(s: Seq<char>) -> Option<u8> {
    if s.len() > 0 && s[0] == '+' {
        u8_of_digits(s.skip(1))
    } else {
        u8_of_digits(s)
    }
}

/// The key a chord token names once its modifier prefixes are removed.
pub open spec fn key_code_of(r: Seq<char>) -> Option<KeyCode> {
    if r == "Space"@ {
        Some(KeyCode::Char(' '))
    } else if r == "Enter"@ || r == "Return"@ {
        Some(KeyCode::Enter)
    } else if r == "Escape"@ || r == "Esc"@ {
        Some(KeyCode::Esc)
    } else if r == "Tab"@ {
        Some(KeyCode::Tab)
    } else if r == "Backspace"@ {
        Some(KeyCode::Backspace)
    } else if r == "Delete"@ || r == "Del"@ {
        Some(KeyCode::Delete)
    } else if r == "Up"@ {
        Some(KeyCode::Up)
    } else if r == "Down"@ {
        Some(KeyCode::Down)
    } else if r == "Left"@ {
        Some(KeyCode::Left)
    } else if r == "Right"@ {
        Some(KeyCode::Right)
    } else if r == "Home"@ {
        Some(KeyCode::Home)
    } else if r == "End"@ {
        Some(KeyCode::End)
    } else if r == "PageUp"@ {
        Some(KeyCode::PageUp)
    } else if r == "PageDown"@ {
        Some(KeyCode::PageDown)
    } else if r.len() == 1 && (r[0] as u32) < 0x80 {
        Some(KeyCode::Char(r[0]))
    } else if r.len() > 0 && r[0] == 'F' {
        match parse_u8_text(r.skip(1)) {
            Some(n) => Some(KeyCode::F(n)),
            None => None,
        }
    } else {
        None
    }
}

/// The chord a single token such as `C-b`, `M-Enter`, `Space` or `q` names.
pub open spec fn parse_chord(token: Seq<char>) -> Option<KeyChord> {
    let (m, rest) = split_modifiers(token);
    match key_code_of(rest) {
        Some(code) => Some(KeyChord { modifiers: m, code }),
        None => None,
    }
}

proof fn lemma_union_assoc(a: KeyModifiers, b: KeyModifiers, c: KeyModifiers)
    ensures
        a.spec_union(b.spec_union(c)) == a.spec_union(b).spec_union(c),
{
}

/// Whitespace-separated words of `s`, scanning from the left with the word
/// in progress `cur` and the finished words `acc`.
pub open spec fn split_words_from(s: Seq<char>, cur: Seq<char>, acc: Seq<Seq<char>>) -> Seq<
    Seq<char>,
>
    decreases s.len(),
{
    if s.len() == 0 {
        if cur.len() > 0 {
            acc.push(cur)
        } else {
            acc
        }
    } else if spec_is_whitespace(s[0]) {
        split_words_from(
            s.skip(1),
            Seq::empty(),
            if cur.len() > 0 {
                acc.push(cur)
            } else {
                acc
            },
        )
    } else {
        split_words_from(s.skip(1), cur.push(s[0]), acc)
    }
}

/// The maximal runs of non-whitespace characters of `s`, in order.
pub open spec fn words(s: Seq<char>) -> Seq<Seq<char>> {
    split_words_from(s, Seq::empty(), Seq::empty())
}

/// The chords of a token list, or `None` if any token fails to parse.
pub open spec fn parse_chords(tokens: Seq<Seq<char>>) -> Option<Seq<KeyChord>>
    decreases tokens.len(),
{
    if tokens.len() == 0 {
        Some(Seq::empty())
    } else {
        match (parse_chords(tokens.drop_last()), parse_chord(tokens.last())) {
            (Some(a), Some(c)) => Some(a.push(c)),
            _ => None,
        }
    }
}

/// The chord sequence a binding key such as `C-Space n` names.
pub open spec fn parse_key_sequence(s: Seq<char>) -> Option<Seq<KeyChord>> {
    parse_chords(words(s))
}

/// Once a prefix of the tokens fails to parse, the whole list does.
pub proof fn lemma_parse_chords_none(tokens: Seq<Seq<char>>, k: int)
    requires
        0 <= k <= tokens.len(),
        parse_chords(tokens.take(k)) is None,
    ensures
        parse_chords(tokens) is None,
    decreases tokens.len() - k,
{
    if k == tokens.len() {
        assert(tokens.take(k) =~= tokens);
    } else {
        assert(tokens.drop_last().take(k) =~= tokens.take(k));
        lemma_parse_chords_none(tokens.drop_last(), k);
    }
}

impl KeyChord {
    /// The chord for a key event.
    pub fn from_event(modifiers: KeyModifiers, code: KeyCode) -> (c: KeyChord)
        ensures
            c == chord_of(modifiers, code),
    {
        match code {
            KeyCode::Char(_) => KeyChord { modifiers: KeyModifiers { shift: false, ..modifiers }, code },
            _ => KeyChord { modifiers, code },
        }
    }

    /// Parse a single chord token, e.g. `"C-b"`, `"M-Enter"`, `"Space"`, `"q"`.
    pub fn parse(token: &Vec<char>) -> (c: Option<KeyChord>)
        ensures
            c == parse_chord(token@),
    {
        let len = token.len();
        let mut i: usize = 0;
        let mut mods = KeyModifiers::none();
        proof {
            assert(token@.skip(0) =~= token@);
            let m = split_modifiers(token@).0;
            assert(mods.spec_union(m) == m);
        }
        while len - i >= 2 && token[i + 1] == '-' && (token[i] == 'C' || token[i] == 'M' || token[i]
            == 'A' || token[i] == 'S')
            invariant
                len == token@.len(),
                i <= len,
                split_modifiers(token@).0 == mods.spec_union(split_modifiers(token@.skip(i as int)).0),
                split_modifiers(token@).1 == split_modifiers(token@.skip(i as int)).1,
            decreases len - i,
        {
            let c = token[i];
            let flag = if c == 'C' {
                KeyModifiers::control()
            } else if c == 'S' {
                KeyModifiers::shift()
            } else {
                KeyModifiers::alt()
            };
            proof {
                let s = token@.skip(i as int);
                assert(s.skip(2) =~= token@.skip(i + 2));
                assert(s[0] == c && s[1] == '-');
                assert(flag == modifier_of_letter(c));
                lemma_union_assoc(mods, flag, split_modifiers(s.skip(2)).0);
            }
            mods = mods.union(flag);
            i = i + 2;
        }
        proof {
            let s = token@.skip(i as int);
            assert(!(s.len() >= 2 && s[1] == '-' && is_modifier_letter(s[0])));
        }
        let mut rest: Vec<char> = Vec::new();
        let mut j: usize = i;
        while j < len
            invariant
                i <= j <= len,
                len == token@.len(),
                rest@ == token@.subrange(i as int, j as int),
            decreases len - j,
        {
            rest.push(token[j]);
            proof {
                assert(token@.subrange(i as int, j + 1) =~= token@.subrange(i as int, j as int).push(
                    token@[j as int],
                ));
            }
            j = j + 1;
        }
        assert(rest@ =~= token@.skip(i as int));
        match key_code_from(&rest) {
            Some(code) => Some(KeyChord { modifiers: mods, code }),
            None => None,
        }
    }

    /// Parse a full binding key string (e.g. `"C-Space n"`) into a chord
    /// sequence, or `None` if any chord token fails to parse.
    pub fn parse_sequence(spec: &str) -> (r: Option<Vec<KeyChord>>)
        ensures
            match r {
                Some(v) => parse_key_sequence(spec@) == Some(v@),
                None => parse_key_sequence(spec@) is None,
            },
    {
        let cs = chars_of(spec);
        let tokens = split_words(&cs);
        let ghost toks = tokens@.map_values(|t: Vec<char>| t@);
        let mut out: Vec<KeyChord> = Vec::new();
        let mut i: usize = 0;
        while i < tokens.len()
            invariant
                i <= tokens@.len(),
                toks == tokens@.map_values(|t: Vec<char>| t@),
                toks == words(spec@),
                parse_chords(toks.take(i as int)) == Some(out@),
            decreases tokens.len() - i,
        {
            proof {
                assert(toks.take(i + 1).drop_last() =~= toks.take(i as int));
                assert(toks.take(i + 1).last() == tokens@[i as int]@);
            }
            match KeyChord::parse(&tokens[i]) {
                Some(c) => {
                    out.push(c);
                },
                None => {
                    proof {
                        lemma_parse_chords_none(toks, i + 1);
                    }
                    return None;
                },
            }
            i = i + 1;
        }
        assert(toks.take(tokens@.len() as int) =~= toks);
        Some(out)
    }
}

/// The whitespace-separated words of `cs`.
pub(crate) fn split_words(cs: &Vec<char>) -> (tokens: Vec<Vec<char>>)
    ensures
        tokens@.map_values(|t: Vec<char>| t@) == words(cs@),
{
    let mut tokens: Vec<Vec<char>> = Vec::new();
    let mut cur: Vec<char> = Vec::new();
    let mut i: usize = 0;
    assert(cs@.skip(0) =~= cs@);
    assert(tokens@.map_values(|t: Vec<char>| t@) =~= Seq::<Seq<char>>::empty());
    while i < cs.len()
        invariant
            i <= cs@.len(),
            split_words_from(cs@.skip(i as int), cur@, tokens@.map_values(|t: Vec<char>| t@))
                == words(cs@),
        decreases cs.len() - i,
    {
        let c = cs[i];
        let ghost s = cs@.skip(i as int);
        let ghost acc = tokens@.map_values(|t: Vec<char>| t@);
        proof {
            assert(s.skip(1) =~= cs@.skip(i + 1));
            assert(s[0] == c);
        }
        if is_whitespace(c) {
            if cur.len() > 0 {
                let ghost old_cur = cur@;
                let done = cur;
                tokens.push(done);
                cur = Vec::new();
                assert(tokens@.map_values(|t: Vec<char>| t@) =~= acc.push(old_cur));
            }
            assert(cur@ =~= Seq::<char>::empty());
        } else {
            cur.push(c);
        }
        i = i + 1;
    }
    if cur.len() > 0 {
        let ghost acc = tokens@.map_values(|t: Vec<char>| t@);
        let ghost old_cur = cur@;
        tokens.push(cur);
        assert(tokens@.map_values(|t: Vec<char>| t@) =~= acc.push(old_cur));
    }
    tokens
}

/// `u8` parsing of `cs[start..]`.
pub(crate) fn parse_u8_from(cs: &Vec<char>, start: usize) -> (r: Option<u8>)
    requires
        start <= cs@.len(),
    ensures
        r == parse_u8_text(cs@.skip(start as int)),
{
    let len = cs.len();
    let ghost s = cs@.skip(start as int);
    let mut i: usize = start;
    if i < len && cs[i] == '+' {
        i = i + 1;
    }
    let ghost digits = cs@.subrange(i as int, len as int);
    proof {
        if s.len() > 0 && s[0] == '+' {
            assert(s.skip(1) =~= digits);
        } else {
            assert(s =~= digits);
        }
    }
    if i == len {
        return None;
    }
    let first = i;
    let mut acc: u32 = 0;
    while i < len
        invariant
            first <= i <= len,
            len == cs@.len(),
            first < len,
            digits == cs@.subrange(first as int, len as int),
            parse_u8_text(cs@.skip(start as int)) == u8_of_digits(digits),
            forall|k: int| first <= k < i ==> is_digit(#[trigger] cs@[k]),
            acc == if decimal_value(cs@.subrange(first as int, i as int)) < 256 {
                decimal_value(cs@.subrange(first as int, i as int))
            } else {
                256
            },
        decreases len - i,
    {
        let c = cs[i];
        let v = c as u32;
        if v < 0x30 || v > 0x39 {
            proof {
                assert(digits[i - first] == c);
                assert(!is_digit(digits[i - first]));
                assert(!(forall|k: int| 0 <= k < digits.len() ==> is_digit(#[trigger] digits[k])));
            }
            return None;
        }
        proof {
            let p = cs@.subrange(first as int, i + 1);
            assert(p.drop_last() =~= cs@.subrange(first as int, i as int));
            assert(p.last() == c);
        }
        let next = acc * 10 + (v - 0x30);
        acc = if next > 256 {
            256
        } else {
            next
        };
        i = i + 1;
    }
    proof {
        assert(cs@.subrange(first as int, len as int) =~= digits);
        assert forall|k: int| 0 <= k < digits.len() implies is_digit(#[trigger] digits[k]) by {
            assert(digits[k] == cs@[first + k]);
        }
    }
    if acc > 255 {
        None
    } else {
        Some(acc as u8)
    }
}

/// Whether two chord sequences are equal.
fn chords_equal(a: &Vec<KeyChord>, b: &Vec<KeyChord>) -> (r: bool)
    ensures
        r == (a@ == b@),
{
    if a.len() != b.len() {
        return false;
    }
    let mut i: usize = 0;
    while i < a.len()
        invariant
            a@.len() == b@.len(),
            i <= a@.len(),
            forall|j: int| 0 <= j < i ==> a@[j] == b@[j],
        decreases a.len() - i,
    {
        if a[i] != b[i] {
            return false;
        }
        i = i + 1;
    }
    assert(a@ =~= b@);
    true
}

/// Whether `a` is a prefix of `b`.
pub open spec fn is_prefix_of(a: Seq<KeyChord>, b: Seq<KeyChord>) -> bool {
    a.len() <= b.len() && b.take(a.len() as int) == a
}

fn starts_with(b: &Vec<KeyChord>, a: &Vec<KeyChord>) -> (r: bool)
    ensures
        r == is_prefix_of(a@, b@),
{
    if a.len() > b.len() {
        return false;
    }
    let mut i: usize = 0;
    while i < a.len()
        invariant
            a@.len() <= b@.len(),
            i <= a@.len(),
            forall|j: int| 0 <= j < i ==> a@[j] == b@[j],
        decreases a.len() - i,
    {
        if a[i] != b[i] {
            proof {
                assert(b@.take(a@.len() as int)[i as int] != a@[i as int]);
            }
            return false;
        }
        i = i + 1;
    }
    assert(b@.take(a@.len() as int) =~= a@);
    true
}

/// Which key a token names once its modifier prefixes are removed.
fn key_code_from(r: &Vec<char>) -> (k: Option<KeyCode>)
    ensures
        k == key_code_of(r@),
{
    if chars_eq(r, &chars_of("Space")) {
        Some(KeyCode::Char(' '))
    } else if chars_eq(r, &chars_of("Enter")) || chars_eq(r, &chars_of("Return")) {
        Some(KeyCode::Enter)
    } else if chars_eq(r, &chars_of("Escape")) || chars_eq(r, &chars_of("Esc")) {
        Some(KeyCode::Esc)
    } else if chars_eq(r, &chars_of("Tab")) {
        Some(KeyCode::Tab)
    } else if chars_eq(r, &chars_of("Backspace")) {
        Some(KeyCode::Backspace)
    } else if chars_eq(r, &chars_of("Delete")) || chars_eq(r, &chars_of("Del")) {
        Some(KeyCode::Delete)
    } else if chars_eq(r, &chars_of("Up")) {
        Some(KeyCode::Up)
    } else if chars_eq(r, &chars_of("Down")) {
        Some(KeyCode::Down)
    } else if chars_eq(r, &chars_of("Left")) {
        Some(KeyCode::Left)
    } else if chars_eq(r, &chars_of("Right")) {
        Some(KeyCode::Right)
    } else if chars_eq(r, &chars_of("Home")) {
        Some(KeyCode::Home)
    } else if chars_eq(r, &chars_of("End")) {
        Some(KeyCode::End)
    } else if chars_eq(r, &chars_of("PageUp")) {
        Some(KeyCode::PageUp)
    } else if chars_eq(r, &chars_of("PageDown")) {
        Some(KeyCode::PageDown)
    } else if r.len() == 1 && (r[0] as u32) < 0x80 {
        Some(KeyCode::Char(r[0]))
    } else if r.len() > 0 && r[0] == 'F' {
        match parse_u8_from(r, 1) {
            Some(n) => Some(KeyCode::F(n)),
            None => None,
        }
    } else {
        None
    }
}

/// Outcome of feeding one key event into the resolver.
#[derive(Debug, Clone, PartialEq, Eq)]
pub enum Resolved {
    /// No binding matches and no sequence is in progress.
    NoMatch,
    /// A prefix of one or more bindings matched; waiting for the next chord.
    Pending,
    /// A full binding matched; the action name is returned for the caller
    /// to interpret.
    Action(String),
}

/// `Resolved` with the action name as characters.
pub enum Outcome {
    NoMatch,
    Pending,
    Action(Seq<char>),
}

impl Resolved {
    pub open spec fn outcome(&self) -> Outcome {
        match self {
            Resolved::NoMatch => Outcome::NoMatch,
            Resolved::Pending => Outcome::Pending,
            Resolved::Action(a) => Outcome::Action(a@),
        }
    }
}

/// What a resolver holds: its binding table, the chords of the sequence in
/// progress, whether it is locked, and the sequence that unlocks it.
#[verifier::ext_equal]
pub struct ResolverView {
    pub bindings: Map<Seq<KeyChord>, Seq<char>>,
    pub pending: Seq<KeyChord>,
    pub locked: bool,
    pub unlock: Seq<KeyChord>,
}

/// Whether some binding strictly extends the chords `cand`.
pub open spec fn has_longer_binding(bindings: Map<Seq<KeyChord>, Seq<char>>, cand: Seq<KeyChord>) -> bool {
    exists|k: Seq<KeyChord>|
        #![trigger bindings.contains_key(k)]
        bindings.contains_key(k) && k.len() > cand.len() && is_prefix_of(cand, k)
}

/// One key chord fed into a resolver: the resolver afterwards and the outcome.
///
/// Locked, only the unlock sequence is followed: completing it unlocks, a
/// prefix of it waits, anything else is swallowed and starts over. Unlocked,
/// a bound sequence yields its action (`lock` also locks), a prefix of a
/// longer binding waits, and anything else is no match and starts over.
pub open spec fn resolve_step(v: ResolverView, chord: KeyChord) -> (ResolverView, Outcome) {
    let cand = v.pending.push(chord);
    if v.locked {
        if cand == v.unlock {
            (ResolverView { locked: false, pending: Seq::empty(), ..v }, Outcome::Action("unlock"@))
        } else if is_prefix_of(cand, v.unlock) {
            (ResolverView { pending: cand, ..v }, Outcome::Pending)
        } else {
            (ResolverView { pending: Seq::empty(), ..v }, Outcome::NoMatch)
        }
    } else if v.bindings.contains_key(cand) {
        let action = v.bindings[cand];
        (
            ResolverView { pending: Seq::empty(), locked: action == "lock"@, ..v },
            Outcome::Action(action),
        )
    } else if has_longer_binding(v.bindings, cand) {
        (ResolverView { pending: cand, ..v }, Outcome::Pending)
    } else {
        (ResolverView { pending: Seq::empty(), ..v }, Outcome::NoMatch)
    }
}

/// Whether no two entries share a key.
pub open spec fn keys_unique(es: Seq<(Seq<KeyChord>, Seq<char>)>) -> bool {
    forall|i: int, j: int| 0 <= i < j < es.len() ==> #[trigger] es[i].0 != #[trigger] es[j].0
}

/// The table that a list of entries with distinct keys describes.
pub open spec fn entries_map(es: Seq<(Seq<KeyChord>, Seq<char>)>) -> Map<Seq<KeyChord>, Seq<char>> {
    Map::new(
        |k: Seq<KeyChord>| exists|i: int| 0 <= i < es.len() && #[trigger] es[i].0 == k,
        |k: Seq<KeyChord>| es[choose|i: int| 0 <= i < es.len() && #[trigger] es[i].0 == k].1,
    )
}

proof fn lemma_entries_map_at(es: Seq<(Seq<KeyChord>, Seq<char>)>, i: int)
    requires
        keys_unique(es),
        0 <= i < es.len(),
    ensures
        entries_map(es).contains_key(es[i].0),
        entries_map(es)[es[i].0] == es[i].1,
{
    let k = es[i].0;
    assert(exists|j: int| 0 <= j < es.len() && #[trigger] es[j].0 == k);
    let j = choose|j: int| 0 <= j < es.len() && #[trigger] es[j].0 == k;
    if j < i {
        assert(es[j].0 != es[i].0);
    } else if i < j {
        assert(es[i].0 != es[j].0);
    }
}

proof fn lemma_entries_map_update(es: Seq<(Seq<KeyChord>, Seq<char>)>, i: int, e: (Seq<KeyChord>, Seq<char>))
    requires
        keys_unique(es),
        0 <= i < es.len(),
        es[i].0 == e.0,
    ensures
        keys_unique(es.update(i, e)),
        entries_map(es.update(i, e)) == entries_map(es).insert(e.0, e.1),
{
    let es2 = es.update(i, e);
    assert forall|a: int, b: int| 0 <= a < b < es2.len() implies #[trigger] es2[a].0 != #[trigger] es2[b].0 by {
        assert(es[a].0 != es[b].0);
    }
    let m1 = entries_map(es2);
    let m2 = entries_map(es).insert(e.0, e.1);
    assert forall|k: Seq<KeyChord>| m1.contains_key(k) == m2.contains_key(k) by {
        if m1.contains_key(k) {
            let j = choose|j: int| 0 <= j < es2.len() && #[trigger] es2[j].0 == k;
            if j != i {
                assert(es[j].0 == k);
            }
        }
        if entries_map(es).contains_key(k) {
            let j = choose|j: int| 0 <= j < es.len() && #[trigger] es[j].0 == k;
            assert(es2[j].0 == k);
        }
        if k == e.0 {
            assert(es2[i].0 == k);
        }
    }
    assert forall|k: Seq<KeyChord>| #[trigger] m1.contains_key(k) implies m1[k] == m2[k] by {
        let j = choose|j: int| 0 <= j < es2.len() && #[trigger] es2[j].0 == k;
        lemma_entries_map_at(es2, j);
        if j != i {
            lemma_entries_map_at(es, j);
        }
    }
    assert(m1 =~= m2);
}

proof fn lemma_entries_map_push(es: Seq<(Seq<KeyChord>, Seq<char>)>, e: (Seq<KeyChord>, Seq<char>))
    requires
        keys_unique(es),
        forall|i: int| 0 <= i < es.len() ==> #[trigger] es[i].0 != e.0,
    ensures
        keys_unique(es.push(e)),
        entries_map(es.push(e)) == entries_map(es).insert(e.0, e.1),
{
    let es2 = es.push(e);
    assert forall|a: int, b: int| 0 <= a < b < es2.len() implies #[trigger] es2[a].0 != #[trigger] es2[b].0 by {
        if b < es.len() {
            assert(es[a].0 != es[b].0);
        } else {
            assert(es[a].0 != e.0);
        }
    }
    let m1 = entries_map(es2);
    let m2 = entries_map(es).insert(e.0, e.1);
    assert forall|k: Seq<KeyChord>| m1.contains_key(k) == m2.contains_key(k) by {
        if m1.contains_key(k) {
            let j = choose|j: int| 0 <= j < es2.len() && #[trigger] es2[j].0 == k;
            if j < es.len() {
                assert(es[j].0 == k);
            }
        }
        if entries_map(es).contains_key(k) {
            let j = choose|j: int| 0 <= j < es.len() && #[trigger] es[j].0 == k;
            assert(es2[j].0 == k);
        }
        if k == e.0 {
            assert(es2[es.len() as int].0 == k);
        }
    }
    assert forall|k: Seq<KeyChord>| #[trigger] m1.contains_key(k) implies m1[k] == m2[k] by {
        let j = choose|j: int| 0 <= j < es2.len() && #[trigger] es2[j].0 == k;
        lemma_entries_map_at(es2, j);
        if j < es.len() {
            lemma_entries_map_at(es, j);
        }
    }
    assert(m1 =~= m2);
}

/// The table a list of (key, action) pairs compiles to: each pair whose key
/// parses binds that chord sequence, later pairs overriding earlier ones.
pub open spec fn compiled_bindings(pairs: Seq<(Seq<char>, Seq<char>)>) -> Map<Seq<KeyChord>, Seq<char>>
    decreases pairs.len(),
{
    if pairs.len() == 0 {
        Map::empty()
    } else {
        let rest = compiled_bindings(pairs.drop_last());
        match parse_key_sequence(pairs.last().0) {
            Some(k) => rest.insert(k, pairs.last().1),
            None => rest,
        }
    }
}

/// Built-in default bindings. `C-Space` is the prefix key; the copy-mode
/// entry chord depends on the vi/emacs style; the file-browser toggle, when
/// configured, is global and needs no prefix.
pub open spec fn default_binding_pairs(style: CopyModeStyle, toggle: Seq<char>) -> Seq<(Seq<char>, Seq<char>)> {
    seq![
        ("C-Space n"@, "next-window"@),
        ("C-Space p"@, "prev-window"@),
        ("C-Space d"@, "detach"@),
        ("C-Space q"@, "quit"@),
        ("C-Space C-Space"@, "send-literal-prefix"@),
        ("C-Space Space"@, "send-literal-prefix"@),
        ("C-Space l"@, "lock"@),
        ("C-Space \""@, "split-horizontal"@),
        ("C-Space %"@, "split-vertical"@),
        ("C-Space x"@, "close-pane"@),
        ("C-Space o"@, "focus-next-pane"@),
    ] + (match style {
        CopyModeStyle::Vi => seq![("C-Space ["@, "copy-mode"@)],
        CopyModeStyle::Emacs => seq![("C-Space Escape"@, "copy-mode"@)],
    }) + (if toggle.len() > 0 {
        seq![(toggle, "toggle-file-browser"@)]
    } else {
        Seq::empty()
    })
}

/// The user's bindings as (key, action) pairs, in configuration order.
pub open spec fn user_binding_pairs(config: KeyBindingsConfig) -> Seq<(Seq<char>, Seq<char>)> {
    config.bindings@.map_values(|b: crate::config::KeyBinding| (b.key@, b.action@))
}

/// The sequence that leaves locked mode.
pub open spec fn unlock_sequence_of() -> Seq<KeyChord> {
    match parse_key_sequence("C-Space u"@) {
        Some(k) => k,
        None => Seq::empty(),
    }
}

fn pair_strings(a: &str, b: &str) -> (p: (String, String))
    ensures
        p.0@ == a@,
        p.1@ == b@,
{
    proof {
        broadcast use vstd::string::group_string_axioms;
    }
    (a.to_string(), b.to_string())
}

/// Append the pair `(a, b)`.
fn push_pair(v: &mut Vec<(String, String)>, a: &str, b: &str)
    ensures
        pairs_view(final(v)@) == pairs_view(old(v)@).push((a@, b@)),
{
    let p = pair_strings(a, b);
    v.push(p);
    proof {
        assert(pairs_view(v@) =~= pairs_view(old(v)@).push((a@, b@)));
    }
}

pub open spec fn pairs_view(v: Seq<(String, String)>) -> Seq<(Seq<char>, Seq<char>)> {
    v.map_values(|p: (String, String)| (p.0@, p.1@))
}

/// Built-in default bindings as (key, action) strings.
fn default_bindings(style: CopyModeStyle, file_browser_toggle: &str) -> (b: Vec<(String, String)>)
    ensures
        pairs_view(b@) == default_binding_pairs(style, file_browser_toggle@),
{
    let mut b: Vec<(String, String)> = Vec::new();
    push_pair(&mut b, "C-Space n", "next-window");
    push_pair(&mut b, "C-Space p", "prev-window");
    push_pair(&mut b, "C-Space d", "detach");
    push_pair(&mut b, "C-Space q", "quit");
    push_pair(&mut b, "C-Space C-Space", "send-literal-prefix");
    push_pair(&mut b, "C-Space Space", "send-literal-prefix");
    push_pair(&mut b, "C-Space l", "lock");
    push_pair(&mut b, "C-Space \"", "split-horizontal");
    push_pair(&mut b, "C-Space %", "split-vertical");
    push_pair(&mut b, "C-Space x", "close-pane");
    push_pair(&mut b, "C-Space o", "focus-next-pane");
    let ghost base = pairs_view(b@);
    match style {
        CopyModeStyle::Vi => push_pair(&mut b, "C-Space [", "copy-mode"),
        CopyModeStyle::Emacs => push_pair(&mut b, "C-Space Escape", "copy-mode"),
    }
    let ghost styled = pairs_view(b@);
    if !file_browser_toggle.is_empty() {
        push_pair(&mut b, file_browser_toggle, "toggle-file-browser");
    }
    proof {
        broadcast use vstd::string::group_string_axioms;
        let d = default_binding_pairs(style, file_browser_toggle@);
        assert(base =~= d.subrange(0, 11));
        assert(styled =~= d.subrange(0, 12));
        if file_browser_toggle@.len() > 0 {
            assert(d.len() == 13);
            assert(pairs_view(b@) =~= d.subrange(0, 12).push(d[12]));
        } else {
            assert(d.len() == 12);
        }
        assert(pairs_view(b@) =~= d);
    }
    b
}

/// Compiles the key binding configuration into a lookup table and tracks
/// in-progress multi-chord sequences.
pub struct KeymapResolver {
    bindings: Vec<(Vec<KeyChord>, String)>,
    pending: Vec<KeyChord>,
    locked: bool,
    unlock_sequence: Vec<KeyChord>,
}

impl KeymapResolver {
    pub closed spec fn entries(&self) -> Seq<(Seq<KeyChord>, Seq<char>)> {
        self.bindings@.map_values(|e: (Vec<KeyChord>, String)| (e.0@, e.1@))
    }

    /// The binding table has one entry per chord sequence.
    pub closed spec fn wf(&self) -> bool {
        keys_unique(self.entries())
    }

    pub closed spec fn view(&self) -> ResolverView {
        ResolverView {
            bindings: entries_map(self.entries()),
            pending: self.pending@,
            locked: self.locked,
            unlock: self.unlock_sequence@,
        }
    }

    /// Index of the entry bound to `key`, if any.
    fn find(&self, key: &Vec<KeyChord>) -> (r: Option<usize>)
        requires
            self.wf(),
        ensures
            r matches Some(i) ==> i < self.entries().len() && self.entries()[i as int].0 == key@
                && self.view().bindings.contains_key(key@) && self.view().bindings[key@]
                == self.entries()[i as int].1,
            r is None ==> !self.view().bindings.contains_key(key@),
    {
        let mut i: usize = 0;
        while i < self.bindings.len()
            invariant
                i <= self.bindings@.len(),
                self.wf(),
                self.entries().len() == self.bindings@.len(),
                forall|j: int| 0 <= j < i ==> #[trigger] self.entries()[j].0 != key@,
            decreases self.bindings.len() - i,
        {
            if chords_equal(&self.bindings[i].0, key) {
                proof {
                    lemma_entries_map_at(self.entries(), i as int);
                }
                return Some(i);
            }
            i = i + 1;
        }
        proof {
            if self.view().bindings.contains_key(key@) {
                let j = choose|j: int| 0 <= j < self.entries().len() && #[trigger] self.entries()[j].0 == key@;
                assert(self.entries()[j].0 != key@);
            }
        }
        None
    }

    /// Bind `key` to `action`, replacing any earlier binding of `key`.
    fn bind(&mut self, key: Vec<KeyChord>, action: String)
        requires
            old(self).wf(),
        ensures
            final(self).wf(),
            final(self).view() == (ResolverView {
                bindings: old(self).view().bindings.insert(key@, action@),
                ..old(self).view()
            }),
    {
        let ghost es = self.entries();
        let ghost e = (key@, action@);
        match self.find(&key) {
            Some(i) => {
                self.bindings.set(i, (key, action));
                proof {
                    lemma_entries_map_update(es, i as int, e);
                    assert(self.entries() =~= es.update(i as int, e));
                }
            },
            None => {
                proof {
                    assert forall|i: int| 0 <= i < es.len() implies #[trigger] es[i].0 != e.0 by {
                        if es[i].0 == e.0 {
                            lemma_entries_map_at(es, i);
                        }
                    }
                    lemma_entries_map_push(es, e);
                }
                self.bindings.push((key, action));
                proof {
                    assert(self.entries() =~= es.push(e));
                }
            },
        }
        proof {
            assert(self.view() =~= (ResolverView {
                bindings: old(self).view().bindings.insert(key@, action@),
                ..old(self).view()
            }));
        }
    }

    /// Bind every (key, action) pair whose key parses, in order.
    fn bind_all(&mut self, pairs: &Vec<(String, String)>)
        requires
            old(self).wf(),
        ensures
            final(self).wf(),
            final(self).view() == (ResolverView {
                bindings: old(self).view().bindings.union_prefer_right(compiled_bindings(pairs_view(pairs@))),
                ..old(self).view()
            }),
    {
        let ghost start = self.view().bindings;
        let ghost pv = pairs_view(pairs@);
        let mut i: usize = 0;
        assert(pv.take(0) =~= Seq::<(Seq<char>, Seq<char>)>::empty());
        assert(start.union_prefer_right(Map::empty()) =~= start);
        while i < pairs.len()
            invariant
                i <= pairs@.len(),
                pv == pairs_view(pairs@),
                self.wf(),
                self.view() == (ResolverView {
                    bindings: start.union_prefer_right(compiled_bindings(pv.take(i as int))),
                    ..old(self).view()
                }),
            decreases pairs.len() - i,
        {
            proof {
                assert(pv.take(i + 1).drop_last() =~= pv.take(i as int));
                assert(pv.take(i + 1).last() == (pairs@[i as int].0@, pairs@[i as int].1@));
            }
            match KeyChord::parse_sequence(pairs[i].0.as_str()) {
                Some(seq) => {
                    let action = pairs[i].1.clone();
                    self.bind(seq, action);
                    proof {
                        let before = compiled_bindings(pv.take(i as int));
                        assert(start.union_prefer_right(before).insert(seq@, action@) =~= start.union_prefer_right(
                            before.insert(seq@, action@),
                        ));
                    }
                },
                None => {},
            }
            i = i + 1;
        }
        assert(pv.take(pairs@.len() as int) =~= pv);
    }

    /// A resolver for `config`, with the built-in defaults first and the
    /// user's bindings overriding and extending them. `file_browser_toggle`
    /// is the chord spec of the "toggle-file-browser" action (none bound
    /// when it is empty).
    pub fn new(config: &KeyBindingsConfig, file_browser_toggle: &str) -> (r: Self)
        ensures
            r.wf(),
            r.view() == (ResolverView {
                bindings: compiled_bindings(
                    default_binding_pairs(config.copy_mode_style, file_browser_toggle@)
                        + user_binding_pairs(*config),
                ),
                pending: Seq::empty(),
                locked: false,
                unlock: unlock_sequence_of(),
            }),
    {
        let unlock_sequence = match KeyChord::parse_sequence("C-Space u") {
            Some(v) => v,
            None => Vec::new(),
        };
        let mut r = KeymapResolver {
            bindings: Vec::new(),
            pending: Vec::new(),
            locked: false,
            unlock_sequence,
        };
        proof {
            assert(r.entries() =~= Seq::<(Seq<KeyChord>, Seq<char>)>::empty());
            assert(entries_map(r.entries()) =~= Map::<Seq<KeyChord>, Seq<char>>::empty());
        }
        let defaults = default_bindings(config.copy_mode_style, file_browser_toggle);
        let mut users: Vec<(String, String)> = Vec::new();
        let mut i: usize = 0;
        while i < config.bindings.len()
            invariant
                i <= config.bindings@.len(),
                pairs_view(users@) == user_binding_pairs(*config).take(i as int),
            decreases config.bindings.len() - i,
        {
            let key = config.bindings[i].key.clone();
            let action = config.bindings[i].action.clone();
            let ghost before = users@;
            users.push((key, action));
            proof {
                let u = user_binding_pairs(*config);
                assert(u[i as int] == (key@, action@));
                assert(u.take(i + 1) =~= u.take(i as int).push(u[i as int]));
                assert(pairs_view(users@) =~= pairs_view(before).push((key@, action@)));
            }
            i = i + 1;
        }
        assert(user_binding_pairs(*config).take(config.bindings@.len() as int) =~= user_binding_pairs(*config));
        r.bind_all(&defaults);
        r.bind_all(&users);
        proof {
            let d = default_binding_pairs(config.copy_mode_style, file_browser_toggle@);
            let u = user_binding_pairs(*config);
            lemma_compiled_append(d, u);
            assert(Map::<Seq<KeyChord>, Seq<char>>::empty().union_prefer_right(compiled_bindings(d)) =~= compiled_bindings(d));
        }
        r
    }

    /// True while a multi-chord sequence is in progress or the resolver is
    /// locked: an unmatched key should then be swallowed rather than sent
    /// through as normal input.
    pub fn awaiting_input(&self) -> (b: bool)
        ensures
            b == (self.view().locked || self.view().pending.len() > 0),
    {
        self.locked || self.pending.len() > 0
    }

    pub fn is_locked(&self) -> (b: bool)
        ensures
            b == self.view().locked,
    {
        self.locked
    }

    /// The action bound to exactly the chord sequence `keys`, if any.
    pub fn binding(&self, keys: &Vec<KeyChord>) -> (a: Option<String>)
        requires
            self.wf(),
        ensures
            match a {
                Some(s) => self.view().bindings.contains_key(keys@) && s@ == self.view().bindings[keys@],
                None => !self.view().bindings.contains_key(keys@),
            },
    {
        match self.find(keys) {
            Some(i) => Some(self.bindings[i].1.clone()),
            None => None,
        }
    }

    /// Whether some binding strictly extends `cand`.
    fn has_longer(&self, cand: &Vec<KeyChord>) -> (b: bool)
        requires
            self.wf(),
        ensures
            b == has_longer_binding(self.view().bindings, cand@),
    {
        let mut i: usize = 0;
        while i < self.bindings.len()
            invariant
                i <= self.bindings@.len(),
                self.wf(),
                self.entries().len() == self.bindings@.len(),
                forall|j: int|
                    0 <= j < i ==> !(#[trigger] self.entries()[j].0.len() > cand@.len() && is_prefix_of(
                        cand@,
                        self.entries()[j].0,
                    )),
            decreases self.bindings.len() - i,
        {
            let key = &self.bindings[i].0;
            if key.len() > cand.len() && starts_with(key, cand) {
                proof {
                    lemma_entries_map_at(self.entries(), i as int);
                    assert(self.view().bindings.contains_key(self.entries()[i as int].0));
                }
                return true;
            }
            i = i + 1;
        }
        proof {
            if has_longer_binding(self.view().bindings, cand@) {
                let k = choose|k: Seq<KeyChord>|
                    #![trigger self.view().bindings.contains_key(k)]
                    self.view().bindings.contains_key(k) && k.len() > cand@.len() && is_prefix_of(cand@, k);
                let j = choose|j: int| 0 <= j < self.entries().len() && #[trigger] self.entries()[j].0 == k;
                assert(self.entries()[j].0 == k);
            }
        }
        false
    }

    /// Feed one key event through the resolver.
    pub fn resolve(&mut self, modifiers: KeyModifiers, code: KeyCode) -> (r: Resolved)
        requires
            old(self).wf(),
        ensures
            final(self).wf(),
            (final(self).view(), r.outcome()) == resolve_step(old(self).view(), chord_of(modifiers, code)),
    {
        proof {
            broadcast use vstd::string::group_string_axioms;
        }
        let chord = KeyChord::from_event(modifiers, code);
        let mut candidate: Vec<KeyChord> = copy_chords(&self.pending);
        candidate.push(chord);
        if self.locked {
            if chords_equal(&candidate, &self.unlock_sequence) {
                self.locked = false;
                self.pending = Vec::new();
                proof {
                    assert(self.view() =~= resolve_step(old(self).view(), chord).0);
                }
                return Resolved::Action("unlock".to_string());
            }
            if starts_with(&self.unlock_sequence, &candidate) {
                self.pending = candidate;
                proof {
                    assert(self.view() =~= resolve_step(old(self).view(), chord).0);
                }
                return Resolved::Pending;
            }
            self.pending = Vec::new();
            proof {
                assert(self.view() =~= resolve_step(old(self).view(), chord).0);
            }
            return Resolved::NoMatch;
        }
        match self.find(&candidate) {
            Some(i) => {
                let action = self.bindings[i].1.clone();
                self.pending = Vec::new();
                if str_eq(action.as_str(), "lock") {
                    self.locked = true;
                }
                proof {
                    assert(self.view() =~= resolve_step(old(self).view(), chord).0);
                }
                return Resolved::Action(action);
            },
            None => {},
        }
        if self.has_longer(&candidate) {
            self.pending = candidate;
            proof {
                assert(self.view() =~= resolve_step(old(self).view(), chord).0);
            }
            return Resolved::Pending;
        }
        self.pending = Vec::new();
        proof {
            assert(self.view() =~= resolve_step(old(self).view(), chord).0);
        }
        Resolved::NoMatch
    }
}

/// Compiling two lists of pairs one after the other is compiling their
/// concatenation.
proof fn lemma_compiled_append(a: Seq<(Seq<char>, Seq<char>)>, b: Seq<(Seq<char>, Seq<char>)>)
    ensures
        compiled_bindings(a).union_prefer_right(compiled_bindings(b)) == compiled_bindings(a + b),
    decreases b.len(),
{
    if b.len() == 0 {
        assert(a + b =~= a);
        assert(compiled_bindings(a).union_prefer_right(Map::empty()) =~= compiled_bindings(a));
    } else {
        lemma_compiled_append(a, b.drop_last());
        assert((a + b).drop_last() =~= a + b.drop_last());
        assert((a + b).last() == b.last());
        let rest = compiled_bindings(b.drop_last());
        match parse_key_sequence(b.last().0) {
            Some(k) => {
                assert(compiled_bindings(a).union_prefer_right(rest.insert(k, b.last().1)) =~= compiled_bindings(
                    a,
                ).union_prefer_right(rest).insert(k, b.last().1));
            },
            None => {},
        }
    }
}

/// A copy of a chord sequence.
fn copy_chords(v: &Vec<KeyChord>) -> (c: Vec<KeyChord>)
    ensures
        c@ == v@,
{
    let mut c: Vec<KeyChord> = Vec::new();
    let mut i: usize = 0;
    while i < v.len()
        invariant
            i <= v@.len(),
            c@ == v@.take(i as int),
        decreases v.len() - i,
    {
        c.push(v[i]);
        proof {
            assert(v@.take(i + 1) =~= v@.take(i as int).push(v@[i as int]));
        }
        i = i + 1;
    }
    assert(v@.take(v@.len() as int) =~= v@);
    c
}

/// A chord sequence fed into a resolver one chord at a time: the resolver
/// afterwards and the last outcome (`NoMatch` for no chord at all).
pub open spec fn feed(v: ResolverView, chords: Seq<KeyChord>) -> (ResolverView, Outcome)
    decreases chords.len(),
{
    if chords.len() == 0 {
        (v, Outcome::NoMatch)
    } else {
        resolve_step(feed(v, chords.drop_last()).0, chords.last())
    }
}

/// User bindings override the defaults: whatever chord sequence the user's
/// bindings bind, the resolver's table (defaults, then user bindings) binds
/// to the user's action; and the table binds a sequence exactly when the
/// defaults or the user's bindings do.
pub proof fn lemma_user_binding_overrides(style: CopyModeStyle, toggle: Seq<char>, config: KeyBindingsConfig)
    ensures
        ({
            let table = compiled_bindings(default_binding_pairs(style, toggle) + user_binding_pairs(config));
            let user = compiled_bindings(user_binding_pairs(config));
            let defaults = compiled_bindings(default_binding_pairs(style, toggle));
            &&& forall|k: Seq<KeyChord>| #[trigger] user.contains_key(k) ==> table.contains_key(k) && table[k] == user[k]
            &&& forall|k: Seq<KeyChord>|
                #[trigger] table.contains_key(k) <==> (defaults.contains_key(k) || user.contains_key(k))
        }),
{
    let d = default_binding_pairs(style, toggle);
    let u = user_binding_pairs(config);
    lemma_compiled_append(d, u);
    let table = compiled_bindings(d + u);
    assert forall|k: Seq<KeyChord>| #[trigger] table.contains_key(k) <==> (compiled_bindings(d).contains_key(k)
        || compiled_bindings(u).contains_key(k)) by {
        assert(table == compiled_bindings(d).union_prefer_right(compiled_bindings(u)));
    }
}

/// Locked mode swallows everything except the unlock sequence: a locked
/// resolver never reports an action other than `unlock`, reports `unlock`
/// exactly when the chords since the last reset complete the unlock
/// sequence, and stays locked otherwise.
pub proof fn lemma_locked_swallows_all_but_unlock(v: ResolverView, chord: KeyChord)
    requires
        v.locked,
    ensures
        ({
            let (w, o) = resolve_step(v, chord);
            &&& o is NoMatch || o is Pending || o == Outcome::Action("unlock"@)
            &&& (o is Action <==> v.pending.push(chord) == v.unlock)
            &&& w.locked == !(o is Action)
            &&& w.bindings == v.bindings
            &&& w.unlock == v.unlock
        }),
{
}

/// A key that does not continue a sequence resets it: after anything but
/// `Pending` no sequence is in progress, and the binding table never changes.
pub proof fn lemma_sequence_resets(v: ResolverView, chord: KeyChord)
    ensures
        ({
            let (w, o) = resolve_step(v, chord);
            &&& !(o is Pending) ==> w.pending.len() == 0
            &&& o is Pending ==> w.pending == v.pending.push(chord)
            &&& w.bindings == v.bindings
            &&& w.unlock == v.unlock
        }),
{
}

/// A bound chord sequence, typed from an idle unlocked resolver, waits after
/// every chord but the last and then yields its action, provided none of
/// its proper prefixes is bound itself.
pub proof fn lemma_bound_sequence_resolves(v: ResolverView, k: Seq<KeyChord>)
    requires
        !v.locked,
        v.pending.len() == 0,
        v.bindings.contains_key(k),
        k.len() > 0,
        forall|j: int| 0 < j < k.len() ==> !v.bindings.contains_key(#[trigger] k.take(j)),
    ensures
        forall|j: int|
            0 < j < k.len() ==> #[trigger] feed(v, k.take(j)) == (ResolverView { pending: k.take(j), ..v }, Outcome::Pending),
        feed(v, k) == (
            ResolverView { pending: Seq::empty(), locked: v.bindings[k] == "lock"@, ..v },
            Outcome::Action(v.bindings[k]),
        ),
{
    assert forall|j: int| 0 <= j < k.len() implies #[trigger] feed(v, k.take(j)).0 == (ResolverView {
        pending: k.take(j),
        ..v
    }) by {
        lemma_feed_prefix_waits(v, k, j);
    }
    assert forall|j: int| 0 < j < k.len() implies #[trigger] feed(v, k.take(j)) == (ResolverView {
        pending: k.take(j),
        ..v
    }, Outcome::Pending) by {
        lemma_feed_prefix_waits(v, k, j);
    }
    lemma_feed_prefix_waits(v, k, k.len() - 1);
    assert(k.take(k.len() as int) =~= k);
    assert(k.drop_last() =~= k.take(k.len() - 1));
    assert(k.take(k.len() - 1).push(k.last()) =~= k);
}

proof fn lemma_feed_prefix_waits(v: ResolverView, k: Seq<KeyChord>, j: int)
    requires
        !v.locked,
        v.pending.len() == 0,
        v.bindings.contains_key(k),
        0 <= j < k.len(),
        forall|i: int| 0 < i < k.len() ==> !v.bindings.contains_key(#[trigger] k.take(i)),
    ensures
        feed(v, k.take(j)).0 == (ResolverView { pending: k.take(j), ..v }),
        j > 0 ==> feed(v, k.take(j)).1 == Outcome::Pending,
    decreases j,
{
    if j == 0 {
        assert(k.take(0) =~= v.pending);
        assert(v == (ResolverView { pending: k.take(0), ..v }));
    } else {
        lemma_feed_prefix_waits(v, k, j - 1);
        let cand = k.take(j - 1).push(k[j - 1]);
        assert(k.take(j).drop_last() =~= k.take(j - 1));
        assert(cand =~= k.take(j));
        assert(!v.bindings.contains_key(k.take(j)));
        assert(is_prefix_of(k.take(j), k)) by {
            assert(k.take(k.take(j).len() as int) =~= k.take(j));
        }
        assert(has_longer_binding(v.bindings, k.take(j)));
    }
}

/// Typing the unlock sequence into an idle locked resolver waits after
/// every chord but the last and then unlocks it with the `unlock` action.
pub proof fn lemma_unlock_sequence_unlocks(v: ResolverView)
    requires
        v.locked,
        v.pending.len() == 0,
        v.unlock.len() > 0,
    ensures
        forall|j: int|
            0 < j < v.unlock.len() ==> #[trigger] feed(v, v.unlock.take(j)) == (ResolverView {
                pending: v.unlock.take(j),
                ..v
            }, Outcome::Pending),
        feed(v, v.unlock) == (
            ResolverView { pending: Seq::empty(), locked: false, ..v },
            Outcome::Action("unlock"@),
        ),
{
    let k = v.unlock;
    assert forall|j: int| 0 < j < k.len() implies #[trigger] feed(v, k.take(j)) == (ResolverView {
        pending: k.take(j),
        ..v
    }, Outcome::Pending) by {
        lemma_feed_unlock_prefix(v, j);
    }
    lemma_feed_unlock_prefix(v, k.len() - 1);
    assert(k.drop_last() =~= k.take(k.len() - 1));
    assert(k.take(k.len() - 1).push(k.last()) =~= k);
}

proof fn lemma_feed_unlock_prefix(v: ResolverView, j: int)
    requires
        v.locked,
        v.pending.len() == 0,
        0 <= j < v.unlock.len(),
    ensures
        feed(v, v.unlock.take(j)).0 == (ResolverView { pending: v.unlock.take(j), ..v }),
        j > 0 ==> feed(v, v.unlock.take(j)).1 == Outcome::Pending,
    decreases j,
{
    let k = v.unlock;
    if j == 0 {
        assert(k.take(0) =~= v.pending);
        assert(v == (ResolverView { pending: k.take(0), ..v }));
    } else {
        lemma_feed_unlock_prefix(v, j - 1);
        assert(k.take(j).drop_last() =~= k.take(j - 1));
        assert(k.take(j - 1).push(k[j - 1]) =~= k.take(j));
        assert(k.take(j).len() != k.len());
        assert(k.take(k.take(j).len() as int) =~= k.take(j));
    }
}


/// `m` with the modifier a prefix letter names added: `C-` Control, `M-`
/// and its alias `A-` Alt, `S-` Shift.
pub open spec fn with_prefix(m: KeyModifiers, letter: char) -> KeyModifiers {
    KeyModifiers {
        control: m.control || letter == 'C',
        alt: m.alt || letter == 'M' || letter == 'A',
        shift: m.shift || letter == 'S',
        ..m
    }
}

/// A modifier prefix adds exactly its modifier to the chord the rest of the
/// token names: `C-` adds Control, `M-` and `A-` add Alt, `S-` adds Shift,
/// and the key is the one the rest names. A token whose rest names no key
/// names no chord.
pub proof fn lemma_modifier_prefix(letter: char, rest: Seq<char>)
    requires
        letter == 'C' || letter == 'M' || letter == 'A' || letter == 'S',
    ensures
        parse_chord(seq![letter, '-'] + rest) == match parse_chord(rest) {
            Some(k) => Some(KeyChord { modifiers: with_prefix(k.modifiers, letter), code: k.code }),
            None => None,
        },
{
    let tok = seq![letter, '-'] + rest;
    assert(tok.skip(2) =~= rest);
    assert(tok[0] == letter && tok[1] == '-');
}

/// `A-` is another name for `M-`: both prefixes give the same chord.
pub proof fn lemma_alt_prefix_alias(rest: Seq<char>)
    ensures
        parse_chord(seq!['A', '-'] + rest) == parse_chord(seq!['M', '-'] + rest),
{
    lemma_modifier_prefix('A', rest);
    lemma_modifier_prefix('M', rest);
}

/// A one-character ASCII token names that character with no modifier held.
pub proof fn lemma_single_character_token(c: char)
    requires
        (c as u32) < 0x80,
    ensures
        parse_chord(seq![c]) == Some(KeyChord { modifiers: KeyModifiers::spec_none(), code: KeyCode::Char(c) }),
{
    reveal_strlit("Space");
    reveal_strlit("Enter");
    reveal_strlit("Return");
    reveal_strlit("Escape");
    reveal_strlit("Esc");
    reveal_strlit("Tab");
    reveal_strlit("Backspace");
    reveal_strlit("Delete");
    reveal_strlit("Del");
    reveal_strlit("Up");
    reveal_strlit("Down");
    reveal_strlit("Left");
    reveal_strlit("Right");
    reveal_strlit("Home");
    reveal_strlit("End");
    reveal_strlit("PageUp");
    reveal_strlit("PageDown");
    assert(seq![c].len() == 1);
}

/// The named keys: `Space` is the space character, `Enter` and `Return`
/// are Enter, `Escape` and `Esc` Escape, `Delete` and `Del` Delete, and
/// `Tab`, `Backspace`, `Up`, `Down`, `Left`, `Right`, `Home`, `End`,
/// `PageUp`, `PageDown` the keys of those names, with no modifier held.
pub proof fn lemma_named_key_tokens()
    ensures
        parse_chord("Space"@) == Some(KeyChord { modifiers: KeyModifiers::spec_none(), code: KeyCode::Char(' ') }),
        parse_chord("Enter"@) == Some(KeyChord { modifiers: KeyModifiers::spec_none(), code: KeyCode::Enter }),
        parse_chord("Return"@) == Some(KeyChord { modifiers: KeyModifiers::spec_none(), code: KeyCode::Enter }),
        parse_chord("Escape"@) == Some(KeyChord { modifiers: KeyModifiers::spec_none(), code: KeyCode::Esc }),
        parse_chord("Esc"@) == Some(KeyChord { modifiers: KeyModifiers::spec_none(), code: KeyCode::Esc }),
        parse_chord("Tab"@) == Some(KeyChord { modifiers: KeyModifiers::spec_none(), code: KeyCode::Tab }),
        parse_chord("Backspace"@) == Some(KeyChord { modifiers: KeyModifiers::spec_none(), code: KeyCode::Backspace }),
        parse_chord("Delete"@) == Some(KeyChord { modifiers: KeyModifiers::spec_none(), code: KeyCode::Delete }),
        parse_chord("Del"@) == Some(KeyChord { modifiers: KeyModifiers::spec_none(), code: KeyCode::Delete }),
        parse_chord("Up"@) == Some(KeyChord { modifiers: KeyModifiers::spec_none(), code: KeyCode::Up }),
        parse_chord("Down"@) == Some(KeyChord { modifiers: KeyModifiers::spec_none(), code: KeyCode::Down }),
        parse_chord("Left"@) == Some(KeyChord { modifiers: KeyModifiers::spec_none(), code: KeyCode::Left }),
        parse_chord("Right"@) == Some(KeyChord { modifiers: KeyModifiers::spec_none(), code: KeyCode::Right }),
        parse_chord("Home"@) == Some(KeyChord { modifiers: KeyModifiers::spec_none(), code: KeyCode::Home }),
        parse_chord("End"@) == Some(KeyChord { modifiers: KeyModifiers::spec_none(), code: KeyCode::End }),
        parse_chord("PageUp"@) == Some(KeyChord { modifiers: KeyModifiers::spec_none(), code: KeyCode::PageUp }),
        parse_chord("PageDown"@) == Some(KeyChord { modifiers: KeyModifiers::spec_none(), code: KeyCode::PageDown }),
{
    reveal_strlit("Space");
    reveal_strlit("Enter");
    reveal_strlit("Return");
    reveal_strlit("Escape");
    reveal_strlit("Esc");
    reveal_strlit("Tab");
    reveal_strlit("Backspace");
    reveal_strlit("Delete");
    reveal_strlit("Del");
    reveal_strlit("Up");
    reveal_strlit("Down");
    reveal_strlit("Left");
    reveal_strlit("Right");
    reveal_strlit("Home");
    reveal_strlit("End");
    reveal_strlit("PageUp");
    reveal_strlit("PageDown");
}

/// A key event is looked up with Shift dropped from characters (Shift is
/// already in the character) and every other modifier kept.
pub proof fn lemma_chord_of_event(m: KeyModifiers, code: KeyCode)
    ensures
        chord_of(m, code).code == code,
        chord_of(m, code).modifiers.control == m.control,
        chord_of(m, code).modifiers.alt == m.alt,
        chord_of(m, code).modifiers.shift == (m.shift && !(code is Char)),
{
}


/// Whether `w` is a word: non-empty, with no whitespace in it.
pub open spec fn is_word(w: Seq<char>) -> bool {
    w.len() > 0 && forall|k: int| 0 <= k < w.len() ==> !spec_is_whitespace(#[trigger] w[k])
}

/// The words joined with one space between each two.
pub open spec fn spaced(ws: Seq<Seq<char>>) -> Seq<char>
    decreases ws.len(),
{
    if ws.len() <= 1 {
        if ws.len() == 1 {
            ws[0]
        } else {
            Seq::empty()
        }
    } else {
        ws[0] + seq![' '] + spaced(ws.skip(1))
    }
}

proof fn lemma_split_through_word(w: Seq<char>, r: Seq<char>, cur: Seq<char>, acc: Seq<Seq<char>>)
    requires
        forall|k: int| 0 <= k < w.len() ==> !spec_is_whitespace(#[trigger] w[k]),
    ensures
        split_words_from(w + r, cur, acc) == split_words_from(r, cur + w, acc),
    decreases w.len(),
{
    if w.len() == 0 {
        assert(w + r =~= r);
        assert(cur + w =~= cur);
    } else {
        let s = w + r;
        assert(s[0] == w[0]);
        assert(!spec_is_whitespace(w[0]));
        assert(s.skip(1) =~= w.skip(1) + r);
        let w1 = w.skip(1);
        assert forall|k: int| 0 <= k < w1.len() implies !spec_is_whitespace(#[trigger] w1[k]) by {
            assert(w1[k] == w[k + 1]);
        }
        lemma_split_through_word(w1, r, cur.push(w[0]), acc);
        assert(cur.push(w[0]) + w1 =~= cur + w);
    }
}

proof fn lemma_split_spaced(ws: Seq<Seq<char>>, acc: Seq<Seq<char>>)
    requires
        ws.len() > 0,
        forall|i: int| 0 <= i < ws.len() ==> is_word(#[trigger] ws[i]),
    ensures
        split_words_from(spaced(ws), Seq::empty(), acc) == acc + ws,
    decreases ws.len(),
{
    let w0 = ws[0];
    assert(is_word(w0));
    if ws.len() == 1 {
        lemma_split_through_word(w0, Seq::empty(), Seq::empty(), acc);
        assert(w0 + Seq::<char>::empty() =~= w0);
        assert(Seq::<char>::empty() + w0 =~= w0);
        assert(acc.push(w0) =~= acc + ws);
    } else {
        let tail = ws.skip(1);
        let rest = seq![' '] + spaced(tail);
        assert(spaced(ws) =~= w0 + rest);
        lemma_split_through_word(w0, rest, Seq::empty(), acc);
        assert(Seq::<char>::empty() + w0 =~= w0);
        assert(rest[0] == ' ');
        assert(spec_is_whitespace(' '));
        assert(rest.skip(1) =~= spaced(tail));
        assert forall|i: int| 0 <= i < tail.len() implies is_word(#[trigger] tail[i]) by {
            assert(tail[i] == ws[i + 1]);
        }
        lemma_split_spaced(tail, acc.push(w0));
        assert(acc.push(w0) + tail =~= acc + ws);
    }
}

/// A binding key written as words separated by single spaces names the
/// chord of each word, in order; it names nothing when any word names no
/// chord.
pub proof fn lemma_key_sequence_of_words(ws: Seq<Seq<char>>)
    requires
        ws.len() > 0,
        forall|i: int| 0 <= i < ws.len() ==> is_word(#[trigger] ws[i]),
    ensures
        parse_key_sequence(spaced(ws)) == parse_chords(ws),
        words(spaced(ws)) == ws,
{
    lemma_split_spaced(ws, Seq::empty());
    assert(Seq::<Seq<char>>::empty() + ws =~= ws);
}

/// The chords of a list of words are the chord of each word, in order.
pub proof fn lemma_parse_chords_each(ws: Seq<Seq<char>>)
    ensures
        parse_chords(ws) is Some <==> forall|i: int| 0 <= i < ws.len() ==> #[trigger] parse_chord(ws[i]) is Some,
        parse_chords(ws) matches Some(cs) ==> cs.len() == ws.len() && forall|i: int|
            0 <= i < ws.len() ==> Some(#[trigger] cs[i]) == parse_chord(ws[i]),
    decreases ws.len(),
{
    if ws.len() > 0 {
        let init = ws.drop_last();
        lemma_parse_chords_each(init);
        assert forall|i: int| 0 <= i < init.len() implies init[i] == ws[i] by {}
        if parse_chords(ws) is Some {
            let cs = parse_chords(ws)->Some_0;
            let ci = parse_chords(init)->Some_0;
            assert(cs == ci.push(parse_chord(ws.last())->Some_0));
            assert forall|i: int| 0 <= i < ws.len() implies Some(#[trigger] cs[i]) == parse_chord(ws[i]) by {
                if i < init.len() {
                    assert(cs[i] == ci[i]);
                    assert(Some(ci[i]) == parse_chord(init[i]));
                }
            }
        } else {
            if forall|i: int| 0 <= i < ws.len() ==> #[trigger] parse_chord(ws[i]) is Some {
                assert forall|i: int| 0 <= i < init.len() implies #[trigger] parse_chord(init[i]) is Some by {
                    assert(parse_chord(ws[i]) is Some);
                }
                assert(parse_chord(ws[ws.len() - 1]) is Some);
            }
        }
    }
}

} // verus!
