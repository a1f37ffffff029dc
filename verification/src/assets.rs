//! Bundled asset files (themes, icons, default configuration) and the
//! theme lookups made over them.
use vstd::prelude::*;

use crate::error::CastermError;
use crate::text::{
    bytes_to_string, chars_of, decode_utf8_bytes, ends_with_chars, push_str_chars, starts_with_chars,
    string_from_chars, str_eq, utf8_is_valid,
};
use crate::theme::ThemePalette;
use crate::theme_catalog::{lex_sorted, names_of, ThemeCatalog};

verus! {

/// The bundled files: each path with its contents, in a fixed order.
pub struct Assets {
    pub files: Vec<(String, Vec<u8>)>,
}

/// The files as paths and byte sequences.
pub open spec fn files_view(files: Seq<(String, Vec<u8>)>) -> Seq<(Seq<char>, Seq<u8>)> {
    files.map_values(|f: (String, Vec<u8>)| (f.0@, f.1@))
}

/// Whether `s` starts with `p`.
pub open spec fn has_prefix(s: Seq<char>, p: Seq<char>) -> bool {
    s.len() >= p.len() && s.take(p.len() as int) == p
}

/// Whether `s` ends with `p`.
pub open spec fn has_suffix(s: Seq<char>, p: Seq<char>) -> bool {
    s.len() >= p.len() && s.skip(s.len() - p.len()) == p
}

/// The contents of the first file called `path`.
pub open spec fn asset_lookup(files: Seq<(Seq<char>, Seq<u8>)>, path: Seq<char>) -> Option<Seq<u8>>
    decreases files.len(),
{
    if files.len() == 0 {
        None
    } else if files[0].0 == path {
        Some(files[0].1)
    } else {
        asset_lookup(files.drop_first(), path)
    }
}

/// The text of the file called `path`, where it is well-formed UTF-8.
pub open spec fn asset_text(files: Seq<(Seq<char>, Seq<u8>)>, path: Seq<char>) -> Option<Seq<char>> {
    match asset_lookup(files, path) {
        Some(b) => if utf8_is_valid(b) {
            Some(decode_utf8_bytes(b))
        } else {
            None
        },
        None => None,
    }
}

/// The paths that start with `prefix`, in order.
pub open spec fn paths_with_prefix(files: Seq<(Seq<char>, Seq<u8>)>, prefix: Seq<char>) -> Seq<Seq<char>>
    decreases files.len(),
{
    if files.len() == 0 {
        Seq::empty()
    } else {
        let rest = paths_with_prefix(files.drop_last(), prefix);
        if has_prefix(files.last().0, prefix) {
            rest.push(files.last().0)
        } else {
            rest
        }
    }
}

/// The theme that a bundled path holds: `themes/<name>.toml` gives `name`.
pub open spec fn theme_name_of(path: Seq<char>) -> Option<Seq<char>> {
    if has_prefix(path, "themes/"@) {
        let rest = path.skip("themes/"@.len() as int);
        if has_suffix(rest, ".toml"@) {
            Some(rest.take(rest.len() - ".toml"@.len()))
        } else {
            None
        }
    } else {
        None
    }
}

/// The theme names that `paths` hold, in order.
pub open spec fn theme_names(paths: Seq<Seq<char>>) -> Seq<Seq<char>>
    decreases paths.len(),
{
    if paths.len() == 0 {
        Seq::empty()
    } else {
        let rest = theme_names(paths.drop_last());
        match theme_name_of(paths.last()) {
            Some(n) => rest.push(n),
            None => rest,
        }
    }
}

/// `names` joined by `", "`.
pub open spec fn comma_joined(names: Seq<Seq<char>>) -> Seq<char>
    decreases names.len(),
{
    if names.len() == 0 {
        Seq::empty()
    } else if names.len() == 1 {
        names[0]
    } else {
        comma_joined(names.drop_last()) + ", "@ + names.last()
    }
}

/// The message for a theme that is not bundled, listing the known themes.
pub open spec fn theme_not_found_message(name: Seq<char>, known: Seq<Seq<char>>) -> Seq<char> {
    "Theme '"@ + name + "' not found (valid themes: "@ + comma_joined(known) + ")"@
}

/// The message for a bundled theme that does not parse.
pub open spec fn theme_parse_message(name: Seq<char>, detail: Seq<char>) -> Seq<char> {
    "Failed to parse theme '"@ + name + "': "@ + detail
}

/// The bundled path of the theme called `name`.
pub open spec fn theme_path(name: Seq<char>) -> Seq<char> {
    "themes/"@ + name + ".toml"@
}

/// The characters of `v` from `from` up to `to`.
fn sub_chars(v: &Vec<char>, from: usize, to: usize) -> (r: Vec<char>)
    requires
        from <= to <= v@.len(),
    ensures
        r@ == v@.subrange(from as int, to as int),
{
    let mut r: Vec<char> = Vec::new();
    let mut i = from;
    while i < to
        invariant
            from <= i <= to,
            to <= v@.len(),
            r@ == v@.subrange(from as int, i as int),
        decreases to - i,
    {
        r.push(v[i]);
        proof {
            assert(r@ =~= v@.subrange(from as int, i + 1));
        }
        i = i + 1;
    }
    r
}

impl Assets {
    pub open spec fn view_files(&self) -> Seq<(Seq<char>, Seq<u8>)> {
        files_view(self.files@)
    }

    /// A set of bundled files.
    pub fn new(files: Vec<(String, Vec<u8>)>) -> (a: Assets)
        ensures
            a.files@ == files@,
    {
        Assets { files }
    }

    /// The contents of the file called `path`, if one is bundled.
    pub fn get_bytes(&self, path: &str) -> (r: Option<Vec<u8>>)
        ensures
            match r {
                Some(b) => asset_lookup(self.view_files(), path@) == Some(b@),
                None => asset_lookup(self.view_files(), path@) is None,
            },
    {
        let ghost fs = self.view_files();
        let mut i: usize = 0;
        assert(fs.skip(0) =~= fs);
        while i < self.files.len()
            invariant
                i <= self.files@.len(),
                fs == self.view_files(),
                fs.len() == self.files@.len(),
                asset_lookup(fs, path@) == asset_lookup(fs.skip(i as int), path@),
            decreases self.files.len() - i,
        {
            assert(fs.skip(i as int)[0] == (self.files@[i as int].0@, self.files@[i as int].1@));
            if str_eq(self.files[i].0.as_str(), path) {
                return Some(self.files[i].1.clone());
            }
            assert(fs.skip(i as int).drop_first() =~= fs.skip(i + 1));
            i = i + 1;
        }
        None
    }

    /// The text of the file called `path`, if one is bundled and is
    /// well-formed UTF-8.
    pub fn get_string(&self, path: &str) -> (r: Option<String>)
        ensures
            r is Some <==> asset_text(self.view_files(), path@) is Some,
            r matches Some(s) ==> asset_text(self.view_files(), path@) == Some(s@),
    {
        match self.get_bytes(path) {
            Some(b) => bytes_to_string(b.as_slice()),
            None => None,
        }
    }

    /// The paths of the bundled files that start with `prefix`, in order.
    pub fn list_prefix(&self, prefix: &str) -> (v: Vec<String>)
        ensures
            v@.map_values(|s: String| s@) == paths_with_prefix(self.view_files(), prefix@),
    {
        let ghost fs = self.view_files();
        let p = chars_of(prefix);
        let mut v: Vec<String> = Vec::new();
        let mut i: usize = 0;
        assert(v@.map_values(|s: String| s@) =~= paths_with_prefix(fs.take(0), prefix@));
        while i < self.files.len()
            invariant
                i <= self.files@.len(),
                fs == self.view_files(),
                fs.len() == self.files@.len(),
                p@ == prefix@,
                v@.map_values(|s: String| s@) == paths_with_prefix(fs.take(i as int), prefix@),
            decreases self.files.len() - i,
        {
            let ghost before = v@;
            proof {
                assert(fs.take(i + 1).drop_last() =~= fs.take(i as int));
                assert(fs.take(i + 1).last() == (self.files@[i as int].0@, self.files@[i as int].1@));
            }
            let c = chars_of(self.files[i].0.as_str());
            if starts_with_chars(&c, &p) {
                v.push(self.files[i].0.clone());
                proof {
                    assert(v@.map_values(|s: String| s@) =~= before.map_values(|s: String| s@).push(
                        self.files@[i as int].0@,
                    ));
                }
            }
            i = i + 1;
        }
        assert(fs.take(fs.len() as int) =~= fs);
        v
    }
}

/// The names of the bundled themes: each `themes/<name>.toml` file gives
/// `name`, in the order the files are bundled.
pub fn list_themes(assets: &Assets) -> (v: Vec<String>)
    ensures
        v@.map_values(|s: String| s@) == theme_names(paths_with_prefix(assets.view_files(), "themes/"@)),
{
    let paths = assets.list_prefix("themes/");
    let ghost ps = paths@.map_values(|s: String| s@);
    let dir = chars_of("themes/");
    let ext = chars_of(".toml");
    let mut v: Vec<String> = Vec::new();
    let mut i: usize = 0;
    assert(v@.map_values(|s: String| s@) =~= theme_names(ps.take(0)));
    while i < paths.len()
        invariant
            i <= paths@.len(),
            ps == paths@.map_values(|s: String| s@),
            dir@ == "themes/"@,
            ext@ == ".toml"@,
            v@.map_values(|s: String| s@) == theme_names(ps.take(i as int)),
        decreases paths.len() - i,
    {
        let ghost before = v@;
        proof {
            assert(ps.take(i + 1).drop_last() =~= ps.take(i as int));
            assert(ps.take(i + 1).last() == paths@[i as int]@);
        }
        let c = chars_of(paths[i].as_str());
        if starts_with_chars(&c, &dir) {
            let rest = sub_chars(&c, dir.len(), c.len());
            assert(rest@ =~= c@.skip(dir@.len() as int));
            if ends_with_chars(&rest, &ext) {
                let name = sub_chars(&rest, 0, rest.len() - ext.len());
                assert(name@ =~= rest@.take(rest@.len() - ext@.len()));
                v.push(string_from_chars(&name));
                proof {
                    assert(v@.map_values(|s: String| s@) =~= before.map_values(|s: String| s@).push(name@));
                }
            }
        }
        i = i + 1;
    }
    assert(ps.take(ps.len() as int) =~= ps);
    v
}

/// `names` joined by `", "`.
fn join_names(names: &Vec<&str>) -> (s: String)
    ensures
        s@ == comma_joined(names_of(names@)),
{
    let mut s = String::new();
    let mut i: usize = 0;
    proof {
        broadcast use vstd::string::group_string_axioms;

        assert(names_of(names@).take(0) =~= Seq::<Seq<char>>::empty());
    }
    while i < names.len()
        invariant
            i <= names@.len(),
            s@ == comma_joined(names_of(names@).take(i as int)),
        decreases names.len() - i,
    {
        let ghost t = names_of(names@).take(i + 1);
        proof {
            assert(t.drop_last() =~= names_of(names@).take(i as int));
            assert(t.last() == names@[i as int]@);
        }
        if i > 0 {
            push_str_chars(&mut s, ", ");
        } else {
            proof {
                assert(s@ =~= Seq::<char>::empty());
            }
        }
        push_str_chars(&mut s, names[i]);
        proof {
            if i == 0 {
                assert(t.len() == 1);
                assert(s@ =~= t[0]);
            }
        }
        i = i + 1;
    }
    assert(names_of(names@).take(names@.len() as int) =~= names_of(names@));
    s
}

/// Load the bundled theme called `name`. A theme that is not bundled is a
/// theme error naming every known theme; the file's text is handed to
/// `parse`, and a parse failure is a theme error carrying its message.
pub fn load_theme<F: FnOnce(&str) -> Result<ThemePalette, String>>(name: &str, assets: &Assets, parse: F) -> (r:
    Result<ThemePalette, CastermError>)
    requires
        forall|t: &str| parse.requires((t,)),
    ensures
        asset_text(assets.view_files(), theme_path(name@)) is None ==> exists|known: Seq<Seq<char>>|
            {
                &&& known.to_multiset() == crate::theme_catalog::catalog_names().to_multiset()
                &&& lex_sorted(known)
                &&& r matches Err(CastermError::Theme(m)) && m@ == theme_not_found_message(name@, known)
            },
        asset_text(assets.view_files(), theme_path(name@)) matches Some(text) ==> exists|
            t: &str,
            p: Result<ThemePalette, String>,
        |
            {
                &&& t@ == text
                &&& #[trigger] parse.ensures((t,), p)
                &&& match p {
                    Ok(pal) => r == Ok::<ThemePalette, CastermError>(pal),
                    Err(e) => r matches Err(CastermError::Theme(m)) && m@ == theme_parse_message(name@, e@),
                }
            },
{
    proof {
        broadcast use vstd::string::group_string_axioms;

    }
    let mut path = "themes/".to_string();
    push_str_chars(&mut path, name);
    push_str_chars(&mut path, ".toml");
    match assets.get_string(path.as_str()) {
        None => {
            let known = ThemeCatalog::all_themes();
            let mut m = "Theme '".to_string();
            push_str_chars(&mut m, name);
            push_str_chars(&mut m, "' not found (valid themes: ");
            let joined = join_names(&known);
            push_str_chars(&mut m, joined.as_str());
            push_str_chars(&mut m, ")");
            Err(CastermError::Theme(m))
        },
        Some(text) => {
            match parse(text.as_str()) {
                Ok(pal) => Ok(pal),
                Err(e) => {
                    let mut m = "Failed to parse theme '".to_string();
                    push_str_chars(&mut m, name);
                    push_str_chars(&mut m, "': ");
                    push_str_chars(&mut m, e.as_str());
                    Err(CastermError::Theme(m))
                },
            }
        },
    }
}

} // verus!
