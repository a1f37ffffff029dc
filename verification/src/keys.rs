//! Key events as the front ends deliver them, and their encoding into the
//! bytes a terminal application expects on its input.
use vstd::prelude::*;

verus! {

/// Modifier keys held during a key press.
#[derive(Debug, Clone, Copy, PartialEq, Eq, Structural, Hash)]
pub struct KeyModifiers {
    pub shift: bool,
    pub control: bool,
    pub alt: bool,
    pub super_key: bool,
    pub hyper: bool,
    pub meta: bool,
}

impl KeyModifiers {
    pub open spec fn spec_none() -> KeyModifiers {
        KeyModifiers {
            shift: false,
            control: false,
            alt: false,
            super_key: false,
            hyper: false,
            meta: false,
        }
    }

    /// No modifier held.
    pub fn none() -> (m: KeyModifiers)
        ensures
            m == KeyModifiers::spec_none(),
    {
        KeyModifiers {
            shift: false,
            control: false,
            alt: false,
            super_key: false,
            hyper: false,
            meta: false,
        }
    }

    /// Only Shift held.
    pub fn shift() -> (m: KeyModifiers)
        ensures
            m == (KeyModifiers { shift: true, ..KeyModifiers::spec_none() }),
    {
        KeyModifiers { shift: true, ..KeyModifiers::none() }
    }

    /// Only Control held.
    pub fn control() -> (m: KeyModifiers)
        ensures
            m == (KeyModifiers { control: true, ..KeyModifiers::spec_none() }),
    {
        KeyModifiers { control: true, ..KeyModifiers::none() }
    }

    /// Only Alt held.
    pub fn alt() -> (m: KeyModifiers)
        ensures
            m == (KeyModifiers { alt: true, ..KeyModifiers::spec_none() }),
    {
        KeyModifiers { alt: true, ..KeyModifiers::none() }
    }

    pub open spec fn spec_union(self, other: KeyModifiers) -> KeyModifiers {
        KeyModifiers {
            shift: self.shift || other.shift,
            control: self.control || other.control,
            alt: self.alt || other.alt,
            super_key: self.super_key || other.super_key,
            hyper: self.hyper || other.hyper,
            meta: self.meta || other.meta,
        }
    }

    /// Every modifier held in `self` or in `other`.
    pub fn union(self, other: KeyModifiers) -> (m: KeyModifiers)
        ensures
            m == self.spec_union(other),
    {
        KeyModifiers {
            shift: self.shift || other.shift,
            control: self.control || other.control,
            alt: self.alt || other.alt,
            super_key: self.super_key || other.super_key,
            hyper: self.hyper || other.hyper,
            meta: self.meta || other.meta,
        }
    }
}

/// A key, independent of the modifiers held with it.
#[derive(Debug, Clone, Copy, PartialEq, Eq, Structural, Hash)]
pub enum KeyCode {
    Backspace,
    Enter,
    Left,
    Right,
    Up,
    Down,
    Home,
    End,
    PageUp,
    PageDown,
    Tab,
    BackTab,
    Delete,
    Insert,
    /// Function key `F(n)`.
    F(u8),
    /// A character, already shifted (`'A'` rather than Shift + `'a'`).
    Char(char),
    Null,
    Esc,
    CapsLock,
    ScrollLock,
    NumLock,
    PrintScreen,
    Pause,
    Menu,
    KeypadBegin,
    /// A media key or a lone modifier key.
    Other,
}

/// One key press: the key and the modifiers held with it.
#[derive(Debug, Clone, Copy, PartialEq, Eq, Structural, Hash)]
pub struct KeyEvent {
    pub code: KeyCode,
    pub modifiers: KeyModifiers,
}

impl KeyEvent {
    pub fn new(code: KeyCode, modifiers: KeyModifiers) -> (e: KeyEvent)
        ensures
            e.code == code,
            e.modifiers == modifiers,
    {
        KeyEvent { code, modifiers }
    }
}

/// UTF-8 encoding of one character.
pub open spec fn utf8_of(c: char) -> Seq<u8> {
    let v = c as u32;
    if v < 0x80 {
        seq![v as u8]
    } else if v < 0x800 {
        seq![(0xc0 + v / 64) as u8, (0x80 + v % 64) as u8]
    } else if v < 0x10000 {
        seq![(0xe0 + v / 4096) as u8, (0x80 + (v / 64) % 64) as u8, (0x80 + v % 64) as u8]
    } else {
        seq![
            (0xf0 + v / 262144) as u8,
            (0x80 + (v / 4096) % 64) as u8,
            (0x80 + (v / 64) % 64) as u8,
            (0x80 + v % 64) as u8,
        ]
    }
}

/// The low byte of a character's code point, as an ASCII-lowercased byte.
pub open spec fn lowered_low_byte(c: char) -> u8 {
    let b = ((c as u32) % 256) as u8;
    if 0x41 <= b <= 0x5a {
        (b + 32) as u8
    } else {
        b
    }
}

/// Bytes for a Control + character chord: letters give their control code,
/// six punctuation keys give the remaining C0 codes, and any other character
/// is sent as itself.
pub open spec fn control_char_bytes(c: char) -> Seq<u8> {
    let b = lowered_low_byte(c);
    if 0x61 <= b <= 0x7a {
        seq![(b - 0x61 + 1) as u8]
    } else if c == '@' {
        seq![0x00u8]
    } else if c == '[' {
        seq![0x1bu8]
    } else if c == '\\' {
        seq![0x1cu8]
    } else if c == ']' {
        seq![0x1du8]
    } else if c == '^' {
        seq![0x1eu8]
    } else if c == '_' {
        seq![0x1fu8]
    } else {
        utf8_of(c)
    }
}

/// Bytes of a function key, empty past F12.
pub open spec fn function_key_bytes(n: u8) -> Seq<u8> {
    if n == 1 {
        seq![0x1bu8, 0x4fu8, 0x50u8]
    } else if n == 2 {
        seq![0x1bu8, 0x4fu8, 0x51u8]
    } else if n == 3 {
        seq![0x1bu8, 0x4fu8, 0x52u8]
    } else if n == 4 {
        seq![0x1bu8, 0x4fu8, 0x53u8]
    } else if n == 5 {
        seq![0x1bu8, 0x5bu8, 0x31u8, 0x35u8, 0x7eu8]
    } else if n == 6 {
        seq![0x1bu8, 0x5bu8, 0x31u8, 0x37u8, 0x7eu8]
    } else if n == 7 {
        seq![0x1bu8, 0x5bu8, 0x31u8, 0x38u8, 0x7eu8]
    } else if n == 8 {
        seq![0x1bu8, 0x5bu8, 0x31u8, 0x39u8, 0x7eu8]
    } else if n == 9 {
        seq![0x1bu8, 0x5bu8, 0x32u8, 0x30u8, 0x7eu8]
    } else if n == 10 {
        seq![0x1bu8, 0x5bu8, 0x32u8, 0x31u8, 0x7eu8]
    } else if n == 11 {
        seq![0x1bu8, 0x5bu8, 0x32u8, 0x33u8, 0x7eu8]
    } else if n == 12 {
        seq![0x1bu8, 0x5bu8, 0x32u8, 0x34u8, 0x7eu8]
    } else {
        Seq::empty()
    }
}

/// Bytes of a key press before the Alt prefix is applied.
pub open spec fn base_key_bytes(code: KeyCode, mods: KeyModifiers) -> Seq<u8> {
    match code {
        KeyCode::Char(c) => if mods.control {
            control_char_bytes(c)
        } else {
            utf8_of(c)
        },
        KeyCode::Enter => seq![0x0du8],
        KeyCode::Backspace => seq![0x7fu8],
        KeyCode::Delete => seq![0x1bu8, 0x5bu8, 0x33u8, 0x7eu8],
        KeyCode::Esc => seq![0x1bu8],
        KeyCode::Tab => if mods.shift {
            seq![0x1bu8, 0x5bu8, 0x5au8]
        } else {
            seq![0x09u8]
        },
        KeyCode::Up => seq![0x1bu8, 0x5bu8, 0x41u8],
        KeyCode::Down => seq![0x1bu8, 0x5bu8, 0x42u8],
        KeyCode::Right => seq![0x1bu8, 0x5bu8, 0x43u8],
        KeyCode::Left => seq![0x1bu8, 0x5bu8, 0x44u8],
        KeyCode::Home => seq![0x1bu8, 0x5bu8, 0x48u8],
        KeyCode::End => seq![0x1bu8, 0x5bu8, 0x46u8],
        KeyCode::PageUp => seq![0x1bu8, 0x5bu8, 0x35u8, 0x7eu8],
        KeyCode::PageDown => seq![0x1bu8, 0x5bu8, 0x36u8, 0x7eu8],
        KeyCode::F(n) => function_key_bytes(n),
        _ => Seq::empty(),
    }
}

/// Bytes a key press sends: with Alt held, a non-empty encoding is prefixed
/// by ESC.
pub open spec fn key_bytes(key: KeyEvent) -> Seq<u8> {
    let base = base_key_bytes(key.code, key.modifiers);
    if key.modifiers.alt && base.len() > 0 {
        seq![0x1bu8] + base
    } else {
        base
    }
}

/// UTF-8 encoding of `c`.
pub fn encode_utf8(c: char) -> (out: Vec<u8>)
    ensures
        out@ == utf8_of(c),
{
    let v = c as u32;
    if v < 0x80 {
        vec![v as u8]
    } else if v < 0x800 {
        vec![(0xc0 + v / 64) as u8, (0x80 + v % 64) as u8]
    } else if v < 0x10000 {
        vec![(0xe0 + v / 4096) as u8, (0x80 + (v / 64) % 64) as u8, (0x80 + v % 64) as u8]
    } else {
        assert(v <= 0x10ffff);
        vec![
            (0xf0 + v / 262144) as u8,
            (0x80 + (v / 4096) % 64) as u8,
            (0x80 + (v / 64) % 64) as u8,
            (0x80 + v % 64) as u8,
        ]
    }
}

fn control_char_encoding(c: char) -> (out: Vec<u8>)
    ensures
        out@ == control_char_bytes(c),
{
    let low = (c as u32 % 256) as u8;
    let b = if 0x41 <= low && low <= 0x5a {
        low + 32
    } else {
        low
    };
    if 0x61 <= b && b <= 0x7a {
        vec![b - 0x61 + 1]
    } else if c == '@' {
        vec![0x00]
    } else if c == '[' {
        vec![0x1b]
    } else if c == '\\' {
        vec![0x1c]
    } else if c == ']' {
        vec![0x1d]
    } else if c == '^' {
        vec![0x1e]
    } else if c == '_' {
        vec![0x1f]
    } else {
        encode_utf8(c)
    }
}

fn function_key_encoding(n: u8) -> (out: Vec<u8>)
    ensures
        out@ == function_key_bytes(n),
{
    match n {
        1 => vec![0x1b, 0x4f, 0x50],
        2 => vec![0x1b, 0x4f, 0x51],
        3 => vec![0x1b, 0x4f, 0x52],
        4 => vec![0x1b, 0x4f, 0x53],
        5 => vec![0x1b, 0x5b, 0x31, 0x35, 0x7e],
        6 => vec![0x1b, 0x5b, 0x31, 0x37, 0x7e],
        7 => vec![0x1b, 0x5b, 0x31, 0x38, 0x7e],
        8 => vec![0x1b, 0x5b, 0x31, 0x39, 0x7e],
        9 => vec![0x1b, 0x5b, 0x32, 0x30, 0x7e],
        10 => vec![0x1b, 0x5b, 0x32, 0x31, 0x7e],
        11 => vec![0x1b, 0x5b, 0x32, 0x33, 0x7e],
        12 => vec![0x1b, 0x5b, 0x32, 0x34, 0x7e],
        _ => Vec::new(),
    }
}

/// Encode a key press as the byte sequence sent to the program running in a
/// pane. Both front ends translate their own key events into `KeyEvent` and
/// call this, so the two never diverge on how a key press becomes bytes.
pub fn encode_key(key: KeyEvent) -> (out: Vec<u8>)
    ensures
        out@ == key_bytes(key),
{
    let mods = key.modifiers;
    let bytes: Vec<u8> = match key.code {
        KeyCode::Char(c) => if mods.control {
            control_char_encoding(c)
        } else {
            encode_utf8(c)
        },
        KeyCode::Enter => vec![0x0d],
        KeyCode::Backspace => vec![0x7f],
        KeyCode::Delete => vec![0x1b, 0x5b, 0x33, 0x7e],
        KeyCode::Esc => vec![0x1b],
        KeyCode::Tab => if mods.shift {
            vec![0x1b, 0x5b, 0x5a]
        } else {
            vec![0x09]
        },
        KeyCode::Up => vec![0x1b, 0x5b, 0x41],
        KeyCode::Down => vec![0x1b, 0x5b, 0x42],
        KeyCode::Right => vec![0x1b, 0x5b, 0x43],
        KeyCode::Left => vec![0x1b, 0x5b, 0x44],
        KeyCode::Home => vec![0x1b, 0x5b, 0x48],
        KeyCode::End => vec![0x1b, 0x5b, 0x46],
        KeyCode::PageUp => vec![0x1b, 0x5b, 0x35, 0x7e],
        KeyCode::PageDown => vec![0x1b, 0x5b, 0x36, 0x7e],
        KeyCode::F(n) => function_key_encoding(n),
        _ => Vec::new(),
    };
    if mods.alt && bytes.len() > 0 {
        let mut prefixed: Vec<u8> = vec![0x1b];
        let mut i: usize = 0;
        while i < bytes.len()
            invariant
                i <= bytes@.len(),
                prefixed@ == seq![0x1bu8] + bytes@.take(i as int),
            decreases bytes.len() - i,
        {
            prefixed.push(bytes[i]);
            proof {
                assert(bytes@.take(i + 1) =~= bytes@.take(i as int).push(bytes@[i as int]));
            }
            i = i + 1;
        }
        assert(bytes@.take(bytes@.len() as int) =~= bytes@);
        prefixed
    } else {
        bytes
    }
}


/// `m` with Alt held or released.
pub open spec fn with_alt(m: KeyModifiers, alt: bool) -> KeyModifiers {
    KeyModifiers { alt, ..m }
}

/// The editing and cursor keys send the usual xterm sequences whatever else
/// is held (Alt aside): the arrows `ESC [ A` (up), `ESC [ B` (down),
/// `ESC [ C` (right) and `ESC [ D` (left); Home `ESC [ H`, End `ESC [ F`,
/// Delete `ESC [ 3 ~`, Page Up `ESC [ 5 ~`, Page Down `ESC [ 6 ~`; Enter a
/// carriage return, Backspace DEL, Escape ESC, Tab a tab and Shift+Tab
/// `ESC [ Z`.
pub proof fn lemma_special_keys(m: KeyModifiers)
    requires
        !m.alt,
    ensures
        key_bytes(KeyEvent { code: KeyCode::Up, modifiers: m }) == seq![0x1bu8, 0x5bu8, 0x41u8],
        key_bytes(KeyEvent { code: KeyCode::Down, modifiers: m }) == seq![0x1bu8, 0x5bu8, 0x42u8],
        key_bytes(KeyEvent { code: KeyCode::Right, modifiers: m }) == seq![0x1bu8, 0x5bu8, 0x43u8],
        key_bytes(KeyEvent { code: KeyCode::Left, modifiers: m }) == seq![0x1bu8, 0x5bu8, 0x44u8],
        key_bytes(KeyEvent { code: KeyCode::Home, modifiers: m }) == seq![0x1bu8, 0x5bu8, 0x48u8],
        key_bytes(KeyEvent { code: KeyCode::End, modifiers: m }) == seq![0x1bu8, 0x5bu8, 0x46u8],
        key_bytes(KeyEvent { code: KeyCode::Delete, modifiers: m }) == seq![0x1bu8, 0x5bu8, 0x33u8, 0x7eu8],
        key_bytes(KeyEvent { code: KeyCode::PageUp, modifiers: m }) == seq![0x1bu8, 0x5bu8, 0x35u8, 0x7eu8],
        key_bytes(KeyEvent { code: KeyCode::PageDown, modifiers: m }) == seq![0x1bu8, 0x5bu8, 0x36u8, 0x7eu8],
        key_bytes(KeyEvent { code: KeyCode::Enter, modifiers: m }) == seq![0x0du8],
        key_bytes(KeyEvent { code: KeyCode::Backspace, modifiers: m }) == seq![0x7fu8],
        key_bytes(KeyEvent { code: KeyCode::Esc, modifiers: m }) == seq![0x1bu8],
        !m.shift ==> key_bytes(KeyEvent { code: KeyCode::Tab, modifiers: m }) == seq![0x09u8],
        m.shift ==> key_bytes(KeyEvent { code: KeyCode::Tab, modifiers: m }) == seq![0x1bu8, 0x5bu8, 0x5au8],
{
}

/// Function keys: F1-F4 send `ESC O P` to `ESC O S`; F5-F12 send
/// `ESC [ n ~` with n = 15, 17, 18, 19, 20, 21, 23, 24; no other function
/// key sends anything.
pub proof fn lemma_function_keys(m: KeyModifiers, n: u8)
    requires
        !m.alt,
    ensures
        1 <= n <= 4 ==> key_bytes(KeyEvent { code: KeyCode::F(n), modifiers: m }) == seq![
            0x1bu8,
            0x4fu8,
            (0x4f + n) as u8,
        ],
        n == 5 ==> key_bytes(KeyEvent { code: KeyCode::F(n), modifiers: m }) == seq![0x1bu8, 0x5bu8, 0x31u8, 0x35u8, 0x7eu8],
        n == 6 ==> key_bytes(KeyEvent { code: KeyCode::F(n), modifiers: m }) == seq![0x1bu8, 0x5bu8, 0x31u8, 0x37u8, 0x7eu8],
        n == 7 ==> key_bytes(KeyEvent { code: KeyCode::F(n), modifiers: m }) == seq![0x1bu8, 0x5bu8, 0x31u8, 0x38u8, 0x7eu8],
        n == 8 ==> key_bytes(KeyEvent { code: KeyCode::F(n), modifiers: m }) == seq![0x1bu8, 0x5bu8, 0x31u8, 0x39u8, 0x7eu8],
        n == 9 ==> key_bytes(KeyEvent { code: KeyCode::F(n), modifiers: m }) == seq![0x1bu8, 0x5bu8, 0x32u8, 0x30u8, 0x7eu8],
        n == 10 ==> key_bytes(KeyEvent { code: KeyCode::F(n), modifiers: m }) == seq![0x1bu8, 0x5bu8, 0x32u8, 0x31u8, 0x7eu8],
        n == 11 ==> key_bytes(KeyEvent { code: KeyCode::F(n), modifiers: m }) == seq![0x1bu8, 0x5bu8, 0x32u8, 0x33u8, 0x7eu8],
        n == 12 ==> key_bytes(KeyEvent { code: KeyCode::F(n), modifiers: m }) == seq![0x1bu8, 0x5bu8, 0x32u8, 0x34u8, 0x7eu8],
        (n == 0 || n > 12) ==> key_bytes(KeyEvent { code: KeyCode::F(n), modifiers: m }).len() == 0,
{
}

/// Holding Alt sends ESC in front of what the key sends without it; a key
/// that sends nothing still sends nothing.
pub proof fn lemma_alt_prefixes_escape(code: KeyCode, m: KeyModifiers)
    ensures
        ({
            let plain = key_bytes(KeyEvent { code, modifiers: with_alt(m, false) });
            key_bytes(KeyEvent { code, modifiers: with_alt(m, true) }) == if plain.len() > 0 {
                seq![0x1bu8] + plain
            } else {
                plain
            }
        }),
{
}

/// A character typed without Control or Alt is sent as its UTF-8 encoding;
/// an ASCII character is the single byte of its code.
pub proof fn lemma_plain_characters(c: char, m: KeyModifiers)
    requires
        !m.control,
        !m.alt,
    ensures
        key_bytes(KeyEvent { code: KeyCode::Char(c), modifiers: m }) == utf8_of(c),
        (c as u32) < 0x80 ==> key_bytes(KeyEvent { code: KeyCode::Char(c), modifiers: m }) == seq![(c as u32) as u8],
{
}

/// Control with a letter sends that letter's control code, the same for
/// upper and lower case (Control+A and Control+a are both 1, Control+Z 26);
/// Control with `@ [ \ ] ^ _` sends 0 and 27 to 31.
pub proof fn lemma_control_characters(c: char, m: KeyModifiers)
    requires
        m.control,
        !m.alt,
    ensures
        'a' <= c <= 'z' ==> key_bytes(KeyEvent { code: KeyCode::Char(c), modifiers: m }) == seq![((c as u32) - 0x60) as u8],
        'A' <= c <= 'Z' ==> key_bytes(KeyEvent { code: KeyCode::Char(c), modifiers: m }) == seq![((c as u32) - 0x40) as u8],
        c == '@' ==> key_bytes(KeyEvent { code: KeyCode::Char(c), modifiers: m }) == seq![0x00u8],
        c == '[' ==> key_bytes(KeyEvent { code: KeyCode::Char(c), modifiers: m }) == seq![0x1bu8],
        c == '\\' ==> key_bytes(KeyEvent { code: KeyCode::Char(c), modifiers: m }) == seq![0x1cu8],
        c == ']' ==> key_bytes(KeyEvent { code: KeyCode::Char(c), modifiers: m }) == seq![0x1du8],
        c == '^' ==> key_bytes(KeyEvent { code: KeyCode::Char(c), modifiers: m }) == seq![0x1eu8],
        c == '_' ==> key_bytes(KeyEvent { code: KeyCode::Char(c), modifiers: m }) == seq![0x1fu8],
{
    if 'a' <= c <= 'z' || 'A' <= c <= 'Z' {
        assert(((c as u32) % 256) as u8 == (c as u32) as u8);
    }
}


proof fn lemma_utf8_width_2(v: u32)
    requires
        0x80 <= v <= 0x7ff,
    ensures
        (0xc0 + v / 64) as u8 == vstd::utf8::leading_byte_width_2(v),
        (0x80 + v % 64) as u8 == vstd::utf8::last_continuation_byte(v),
{
    assert((0xc0 + v / 64) as u8 == 0xC0 | ((v >> 6) & 0x1F) as u8) by (bit_vector)
        requires
            0x80 <= v <= 0x7ff,
    ;
    assert((0x80 + v % 64) as u8 == 0x80 | (v & 0x3F) as u8) by (bit_vector);
}

proof fn lemma_utf8_width_3(v: u32)
    requires
        0x800 <= v <= 0xffff,
    ensures
        (0xe0 + v / 4096) as u8 == vstd::utf8::leading_byte_width_3(v),
        (0x80 + (v / 64) % 64) as u8 == vstd::utf8::second_last_continuation_byte(v),
        (0x80 + v % 64) as u8 == vstd::utf8::last_continuation_byte(v),
{
    assert((0xe0 + v / 4096) as u8 == 0xE0 | ((v >> 12) & 0x0F) as u8) by (bit_vector)
        requires
            0x800 <= v <= 0xffff,
    ;
    assert((0x80 + (v / 64) % 64) as u8 == 0x80 | ((v >> 6) & 0x3F) as u8) by (bit_vector);
    assert((0x80 + v % 64) as u8 == 0x80 | (v & 0x3F) as u8) by (bit_vector);
}

proof fn lemma_utf8_width_4(v: u32)
    requires
        0x10000 <= v <= 0x10ffff,
    ensures
        (0xf0 + v / 262144) as u8 == vstd::utf8::leading_byte_width_4(v),
        (0x80 + (v / 4096) % 64) as u8 == vstd::utf8::third_last_continuation_byte(v),
        (0x80 + (v / 64) % 64) as u8 == vstd::utf8::second_last_continuation_byte(v),
        (0x80 + v % 64) as u8 == vstd::utf8::last_continuation_byte(v),
{
    assert((0xf0 + v / 262144) as u8 == 0xF0 | ((v >> 18) & 0x7) as u8) by (bit_vector)
        requires
            0x10000 <= v <= 0x10ffff,
    ;
    assert((0x80 + (v / 4096) % 64) as u8 == 0x80 | ((v >> 12) & 0x3F) as u8) by (bit_vector);
    assert((0x80 + (v / 64) % 64) as u8 == 0x80 | ((v >> 6) & 0x3F) as u8) by (bit_vector);
    assert((0x80 + v % 64) as u8 == 0x80 | (v & 0x3F) as u8) by (bit_vector);
}

/// A character is sent as its standard UTF-8 encoding: the bytes are those
/// vstd's encoder gives, and decoding them gives the character back.
pub proof fn lemma_utf8_of_is_standard(c: char)
    ensures
        utf8_of(c) == vstd::utf8::encode_utf8(seq![c]),
        vstd::utf8::valid_utf8(utf8_of(c)),
        vstd::utf8::decode_utf8(utf8_of(c)) == seq![c],
{
    vstd::utf8::char_is_scalar(c);
    let v = c as u32;
    if v < 0x80 {
        assert((v & 0x7F) as u8 == v as u8) by (bit_vector)
            requires
                v < 0x80,
        ;
    } else if v < 0x800 {
        lemma_utf8_width_2(v);
    } else if v < 0x10000 {
        lemma_utf8_width_3(v);
    } else {
        lemma_utf8_width_4(v);
    }
    assert(seq![c].drop_first() =~= Seq::<char>::empty());
    assert(seq![c][0] == c);
    reveal_with_fuel(vstd::utf8::encode_utf8, 2);
    assert(vstd::utf8::encode_utf8(seq![c]) =~= vstd::utf8::encode_scalar(v) + Seq::<u8>::empty());
    assert(utf8_of(c) =~= vstd::utf8::encode_scalar(v));
    vstd::utf8::encode_utf8_valid_utf8(seq![c]);
    vstd::utf8::encode_utf8_decode_utf8(seq![c]);
}

} // verus!
