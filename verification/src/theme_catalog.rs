//! The built-in theme catalog and how a configured theme name resolves.
use vstd::prelude::*;

use crate::text::{push_str_chars, str_eq};
use crate::theme::ThemeMode;

verus! {

/// Built-in theme catalog.
pub struct ThemeCatalog;

/// The characters of each name in `v`.
pub open spec fn names_of(v: Seq<&str>) -> Seq<Seq<char>> {
    v.map_values(|s: &str| s@)
}

/// Themes with both a `_dark` and a `_light` variant.
pub open spec fn dual_mode_names() -> Seq<Seq<char>> {
    seq![
        "ashes"@,
        "ayu"@,
        "enfocado"@,
        "everforest"@,
        "github"@,
        "gruvbox"@,
        "kimbie"@,
        "one"@,
        "papercolor"@,
        "pencil"@,
        "selenized"@,
        "solarized"@,
    ]
}

/// Dark themes with a `_light` variant available.
pub open spec fn light_variant_names() -> Seq<Seq<char>> {
    seq![
        "nord"@,
        "tokyo_night"@,
    ]
}

/// Single-mode dark themes.
pub open spec fn single_dark_names() -> Seq<Seq<char>> {
    seq![
        "afterglow"@,
        "argonaut"@,
        "baitong"@,
        "bluish"@,
        "catppuccin"@,
        "challenger_deep"@,
        "citylights"@,
        "Cobalt2"@,
        "cyber_punk_neon"@,
        "dark_pastels"@,
        "dark_pride"@,
        "deep_space"@,
        "doom_one"@,
        "dracula"@,
        "falcon"@,
        "flat_remix"@,
        "flexoki"@,
        "ganbaru"@,
        "gnome_terminal"@,
        "google"@,
        "gotham"@,
        "gruvbox_material"@,
        "hardhacker"@,
        "hatsunemiku"@,
        "hyper"@,
        "inferno"@,
        "iris"@,
        "iterm"@,
        "kitty"@,
        "konsole_linux"@,
        "linux"@,
        "Mariana"@,
        "material_theme"@,
        "meliora"@,
        "midnight_haze"@,
        "monokai"@,
        "nordic"@,
        "oceanic_next"@,
        "omni"@,
        "oxocarbon"@,
        "palenight"@,
        "panda"@,
        "rainbow"@,
        "rigel"@,
        "rose_pine"@,
        "seashells"@,
        "smoooooth"@,
        "snazzy"@,
        "spacegray"@,
        "taerminal"@,
        "tender"@,
        "terminal_app"@,
        "thelovelace"@,
        "tomorrow_night"@,
        "ubuntu"@,
        "vesper"@,
        "wombat"@,
        "xterm"@,
        "zenburn"@,
    ]
}

/// Single-mode light themes.
pub open spec fn single_light_names() -> Seq<Seq<char>> {
    seq![
        "acme"@,
        "alabaster"@,
        "modus_operandi"@,
        "noctis_lux"@,
        "papertheme"@,
        "tomorrow"@,
    ]
}

/// Every built-in theme name, in catalog order.
pub open spec fn catalog_names() -> Seq<Seq<char>> {
    dual_mode_names() + light_variant_names() + single_dark_names() + single_light_names()
}

impl ThemeCatalog {
    /// Dual-mode themes (both `_dark` and `_light` variants).
    pub fn dual_mode() -> (v: Vec<&'static str>)
        ensures
            names_of(v@) == dual_mode_names(),
    {
        let v = vec![
            "ashes",
            "ayu",
            "enfocado",
            "everforest",
            "github",
            "gruvbox",
            "kimbie",
            "one",
            "papercolor",
            "pencil",
            "selenized",
            "solarized",
        ];
        assert(names_of(v@) =~= dual_mode_names());
        v
    }

    /// Themes with a light variant available.
    pub fn has_light_variant() -> (v: Vec<&'static str>)
        ensures
            names_of(v@) == light_variant_names(),
    {
        let v = vec![
            "nord",
            "tokyo_night",
        ];
        assert(names_of(v@) =~= light_variant_names());
        v
    }

    /// Single-mode dark themes.
    pub fn single_dark() -> (v: Vec<&'static str>)
        ensures
            names_of(v@) == single_dark_names(),
    {
        let v = vec![
            "afterglow",
            "argonaut",
            "baitong",
            "bluish",
            "catppuccin",
            "challenger_deep",
            "citylights",
            "Cobalt2",
            "cyber_punk_neon",
            "dark_pastels",
            "dark_pride",
            "deep_space",
            "doom_one",
            "dracula",
            "falcon",
            "flat_remix",
            "flexoki",
            "ganbaru",
            "gnome_terminal",
            "google",
            "gotham",
            "gruvbox_material",
            "hardhacker",
            "hatsunemiku",
            "hyper",
            "inferno",
            "iris",
            "iterm",
            "kitty",
            "konsole_linux",
            "linux",
            "Mariana",
            "material_theme",
            "meliora",
            "midnight_haze",
            "monokai",
            "nordic",
            "oceanic_next",
            "omni",
            "oxocarbon",
            "palenight",
            "panda",
            "rainbow",
            "rigel",
            "rose_pine",
            "seashells",
            "smoooooth",
            "snazzy",
            "spacegray",
            "taerminal",
            "tender",
            "terminal_app",
            "thelovelace",
            "tomorrow_night",
            "ubuntu",
            "vesper",
            "wombat",
            "xterm",
            "zenburn",
        ];
        assert(names_of(v@) =~= single_dark_names());
        v
    }

    /// Single-mode light themes.
    pub fn single_light() -> (v: Vec<&'static str>)
        ensures
            names_of(v@) == single_light_names(),
    {
        let v = vec![
            "acme",
            "alabaster",
            "modus_operandi",
            "noctis_lux",
            "papertheme",
            "tomorrow",
        ];
        assert(names_of(v@) =~= single_light_names());
        v
    }
}

/// Lexicographic order of character sequences, as `str` compares.
pub open spec fn lex_le(a: Seq<char>, b: Seq<char>) -> bool
    decreases a.len(),
{
    if a.len() == 0 {
        true
    } else if b.len() == 0 {
        false
    } else if a[0] != b[0] {
        (a[0] as int) < (b[0] as int)
    } else {
        lex_le(a.skip(1), b.skip(1))
    }
}

proof fn lemma_lex_total(a: Seq<char>, b: Seq<char>)
    ensures
        lex_le(a, b) || lex_le(b, a),
    decreases a.len(),
{
    if a.len() > 0 && b.len() > 0 {
        if a[0] == b[0] {
            lemma_lex_total(a.skip(1), b.skip(1));
        } else {
            assert((a[0] as int) != (b[0] as int));
        }
    }
}

proof fn lemma_lex_refl(a: Seq<char>)
    ensures
        lex_le(a, a),
    decreases a.len(),
{
    if a.len() > 0 {
        lemma_lex_refl(a.skip(1));
    }
}

proof fn lemma_lex_trans(a: Seq<char>, b: Seq<char>, c: Seq<char>)
    requires
        lex_le(a, b),
        lex_le(b, c),
    ensures
        lex_le(a, c),
    decreases a.len(),
{
    if a.len() > 0 && b.len() > 0 && c.len() > 0 && a[0] == b[0] && b[0] == c[0] {
        lemma_lex_trans(a.skip(1), b.skip(1), c.skip(1));
    }
}

/// Whether `s` is in lexicographic order.
pub open spec fn lex_sorted(s: Seq<Seq<char>>) -> bool {
    forall|i: int, j: int| 0 <= i < j < s.len() ==> lex_le(#[trigger] s[i], #[trigger] s[j])
}

/// Whether `a` comes no later than `b` in lexicographic order.
fn str_le(a: &str, b: &str) -> (r: bool)
    ensures
        r == lex_le(a@, b@),
{
    let av = crate::text::chars_of(a);
    let bv = crate::text::chars_of(b);
    chars_lex_le(&av, &bv)
}

/// Whether `av` comes no later than `bv` in lexicographic order.
pub fn chars_lex_le(av: &Vec<char>, bv: &Vec<char>) -> (r: bool)
    ensures
        r == lex_le(av@, bv@),
{
    let ghost a = av@;
    let ghost b = bv@;
    let mut i: usize = 0;
    assert(a.skip(0) =~= a);
    assert(b.skip(0) =~= b);
    while i < av.len() && i < bv.len() && av[i] == bv[i]
        invariant
            i <= av@.len(),
            i <= bv@.len(),
            av@ == a,
            bv@ == b,
            lex_le(a, b) == lex_le(a.skip(i as int), b.skip(i as int)),
        decreases av.len() - i,
    {
        proof {
            assert(a.skip(i as int).skip(1) =~= a.skip(i + 1));
            assert(b.skip(i as int).skip(1) =~= b.skip(i + 1));
        }
        i = i + 1;
    }
    if i == av.len() {
        true
    } else if i == bv.len() {
        false
    } else {
        av[i] < bv[i]
    }
}

/// `v` in lexicographic order (an insertion sort).
fn sort_names(v: Vec<&'static str>) -> (r: Vec<&'static str>)
    ensures
        names_of(r@).to_multiset() == names_of(v@).to_multiset(),
        lex_sorted(names_of(r@)),
{
    broadcast use vstd::seq_lib::to_multiset_insert;

    let mut out: Vec<&'static str> = Vec::new();
    let mut i: usize = 0;
    assert(v@.take(0) =~= Seq::<&str>::empty());
    while i < v.len()
        invariant
            i <= v@.len(),
            names_of(out@).to_multiset() == names_of(v@.take(i as int)).to_multiset(),
            lex_sorted(names_of(out@)),
        decreases v.len() - i,
    {
        let x = v[i];
        let mut j: usize = 0;
        while j < out.len() && str_le(out[j], x)
            invariant
                j <= out@.len(),
                forall|k: int| 0 <= k < j ==> lex_le(#[trigger] out@[k]@, x@),
            decreases out.len() - j,
        {
            j = j + 1;
        }
        let ghost before = out@;
        out.insert(j, x);
        proof {
            let n = names_of(out@);
            assert(out@ =~= before.insert(j as int, x));
            assert(n =~= names_of(before).insert(j as int, x@));
            assert(names_of(v@.take(i + 1)) =~= names_of(v@.take(i as int)).push(x@));
            vstd::seq_lib::to_multiset_build(names_of(v@.take(i as int)), x@);
            vstd::seq_lib::to_multiset_insert(names_of(before), j as int, x@);
            assert forall|a: int, b: int| 0 <= a < b < n.len() implies lex_le(#[trigger] n[a], #[trigger] n[b]) by {
                let nb = names_of(before);
                if j < before.len() {
                    assert(!lex_le(before[j as int]@, x@));
                    lemma_lex_total(before[j as int]@, x@);
                }
                if a < j && b == j {
                    assert(n[a] == nb[a]);
                } else if a == j && b > j {
                    assert(n[b] == nb[b - 1]);
                    if b - 1 > j {
                        assert(lex_le(nb[j as int], nb[b - 1]));
                    } else {
                        lemma_lex_refl(nb[j as int]);
                    }
                    lemma_lex_trans(x@, before[j as int]@, nb[b - 1]);
                } else if a < j && b > j {
                    assert(n[a] == nb[a] && n[b] == nb[b - 1]);
                } else if a > j {
                    assert(n[a] == nb[a - 1] && n[b] == nb[b - 1]);
                } else {
                    assert(n[a] == nb[a] && n[b] == nb[b]);
                }
            }
        }
        i = i + 1;
    }
    assert(v@.take(v@.len() as int) =~= v@);
    out
}

/// Whether `name` is in `list`.
fn list_contains(list: &Vec<&'static str>, name: &str) -> (b: bool)
    ensures
        b == names_of(list@).contains(name@),
{
    let mut i: usize = 0;
    while i < list.len()
        invariant
            i <= list@.len(),
            forall|k: int| 0 <= k < i ==> #[trigger] names_of(list@)[k] != name@,
        decreases list.len() - i,
    {
        if str_eq(list[i], name) {
            proof {
                assert(names_of(list@)[i as int] == name@);
            }
            return true;
        }
        i = i + 1;
    }
    false
}

/// What the system reports as its preferred theme mode.
pub enum SystemMode {
    Dark,
    Light,
    Unspecified,
    /// The preference could not be read.
    Unknown,
}

/// The system's theme preference from `dark_light::detect`, which queries
/// the platform (the desktop portal on Linux) and so may give any answer or
/// fail; nothing is claimed about which.
#[verifier::external_body]
fn system_mode() -> (m: SystemMode) {
    match dark_light::detect() {
        Ok(dark_light::Mode::Dark) => SystemMode::Dark,
        Ok(dark_light::Mode::Light) => SystemMode::Light,
        Ok(dark_light::Mode::Unspecified) => SystemMode::Unspecified,
        Err(_) => SystemMode::Unknown,
    }
}

/// The theme mode a system preference stands for: light only when the
/// system asks for light, dark otherwise.
pub fn theme_mode_for(m: SystemMode) -> (t: ThemeMode)
    ensures
        t == if m is Light {
            ThemeMode::Light
        } else {
            ThemeMode::Dark
        },
{
    match m {
        SystemMode::Light => ThemeMode::Light,
        _ => ThemeMode::Dark,
    }
}

/// Detect the system theme preference: light or dark, never auto.
pub fn detect_system_theme() -> (t: ThemeMode)
    ensures
        t == ThemeMode::Dark || t == ThemeMode::Light,
{
    theme_mode_for(system_mode())
}

/// The theme a configured name stands for in an effective mode: dual-mode
/// themes get a `_dark` or `_light` suffix (dark unless the mode is light),
/// themes with a light variant get `_light` in light mode, and every other
/// name stands for itself.
pub open spec fn resolved_theme(name: Seq<char>, mode: ThemeMode) -> Seq<char> {
    if dual_mode_names().contains(name) {
        if mode == ThemeMode::Light {
            name + "_light"@
        } else {
            name + "_dark"@
        }
    } else if light_variant_names().contains(name) && mode == ThemeMode::Light {
        name + "_light"@
    } else {
        name
    }
}

impl ThemeCatalog {
    /// The theme `name` stands for once the mode is known.
    pub fn resolve_theme_name_for(name: &str, mode: ThemeMode) -> (r: String)
        ensures
            r@ == resolved_theme(name@, mode),
    {
        proof {
            broadcast use vstd::string::group_string_axioms;
        }
        let mut r = name.to_string();
        if list_contains(&ThemeCatalog::dual_mode(), name) {
            match mode {
                ThemeMode::Light => push_str_chars(&mut r, "_light"),
                _ => push_str_chars(&mut r, "_dark"),
            }
        } else if list_contains(&ThemeCatalog::has_light_variant(), name) && mode == ThemeMode::Light {
            push_str_chars(&mut r, "_light");
        }
        r
    }

    /// Resolve a theme name for `mode`; in auto mode the system preference
    /// decides between dark and light.
    pub fn resolve_theme_name(name: &str, mode: ThemeMode) -> (r: String)
        ensures
            mode != ThemeMode::Auto ==> r@ == resolved_theme(name@, mode),
            mode == ThemeMode::Auto ==> r@ == resolved_theme(name@, ThemeMode::Dark) || r@ == resolved_theme(
                name@,
                ThemeMode::Light,
            ),
    {
        let effective = match mode {
            ThemeMode::Auto => detect_system_theme(),
            m => m,
        };
        ThemeCatalog::resolve_theme_name_for(name, effective)
    }

    /// Whether `name` is a built-in theme.
    pub fn is_valid_theme(name: &str) -> (b: bool)
        ensures
            b == catalog_names().contains(name@),
    {
        let b = list_contains(&ThemeCatalog::dual_mode(), name) || list_contains(
            &ThemeCatalog::has_light_variant(),
            name,
        ) || list_contains(&ThemeCatalog::single_dark(), name) || list_contains(
            &ThemeCatalog::single_light(),
            name,
        );
        proof {
            let d = dual_mode_names();
            let h = light_variant_names();
            let k = single_dark_names();
            let l = single_light_names();
            let all = catalog_names();
            assert(all == d + h + k + l);
            if all.contains(name@) {
                let i = choose|i: int| 0 <= i < all.len() && all[i] == name@;
                if i < d.len() {
                    assert(d[i] == name@);
                } else if i < d.len() + h.len() {
                    assert(h[i - d.len()] == name@);
                } else if i < d.len() + h.len() + k.len() {
                    assert(k[i - d.len() - h.len()] == name@);
                } else {
                    assert(l[i - d.len() - h.len() - k.len()] == name@);
                }
            }
            if d.contains(name@) {
                let i = choose|i: int| 0 <= i < d.len() && d[i] == name@;
                assert(all[i] == name@);
            }
            if h.contains(name@) {
                let i = choose|i: int| 0 <= i < h.len() && h[i] == name@;
                assert(all[d.len() + i] == name@);
            }
            if k.contains(name@) {
                let i = choose|i: int| 0 <= i < k.len() && k[i] == name@;
                assert(all[d.len() + h.len() + i] == name@);
            }
            if l.contains(name@) {
                let i = choose|i: int| 0 <= i < l.len() && l[i] == name@;
                assert(all[d.len() + h.len() + k.len() + i] == name@);
            }
        }
        b
    }

    /// Every built-in theme name, in lexicographic order.
    pub fn all_themes() -> (v: Vec<&'static str>)
        ensures
            names_of(v@).to_multiset() == catalog_names().to_multiset(),
            lex_sorted(names_of(v@)),
    {
        let mut themes: Vec<&'static str> = Vec::new();
        let mut d = ThemeCatalog::dual_mode();
        let mut h = ThemeCatalog::has_light_variant();
        let mut k = ThemeCatalog::single_dark();
        let mut l = ThemeCatalog::single_light();
        let ghost all = d@ + h@ + k@ + l@;
        themes.append(&mut d);
        themes.append(&mut h);
        themes.append(&mut k);
        themes.append(&mut l);
        assert(themes@ =~= all);
        assert(names_of(all) =~= catalog_names());
        sort_names(themes)
    }
}

} // verus!
