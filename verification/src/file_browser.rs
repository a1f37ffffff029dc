//! Front-end-independent state of the local file browser (tree panel).
//!
//! Directory contents come in as listings the caller has read; the browser
//! decides what is shown, in which order, and where the selection is.
use vstd::prelude::*;

use crate::editor::{EditorState, FileRead};
use crate::error::CastermError;
use crate::text::{bytes_to_string, chars_of, decode_utf8_bytes, str_eq, utf8_is_valid};
use crate::theme_catalog::{chars_lex_le, lex_le};

verus! {

/// What opening a file should do: directories expand in the tree, text
/// opens the editor, images the viewer, and anything else goes to the
/// system's default application.
#[derive(Debug, Clone, Copy, PartialEq, Eq, Structural)]
pub enum FileKind {
    Directory,
    Text,
    Image,
    Other,
}

/// Number of leading bytes sniffed to tell text from binary.
pub const SNIFF_BYTES: usize = 512;

/// A byte sample looks like text: no NUL byte and valid UTF-8.
pub open spec fn looks_like_text(sample: Seq<u8>) -> bool {
    !sample.contains(0u8) && utf8_is_valid(sample)
}

/// Heuristic: a NUL byte anywhere in the sample means binary; otherwise the
/// sample must be valid UTF-8 to count as text.
pub fn is_probably_text(sample: &[u8]) -> (b: bool)
    ensures
        b == looks_like_text(sample@),
{
    let mut i: usize = 0;
    while i < sample.len()
        invariant
            i <= sample@.len(),
            forall|k: int| 0 <= k < i ==> sample@[k] != 0u8,
        decreases sample.len() - i,
    {
        if sample[i] == 0 {
            proof {
                assert(sample@.contains(0u8));
            }
            return false;
        }
        i = i + 1;
    }
    bytes_to_string(sample).is_some()
}

/// ASCII lower case of a text, other characters unchanged.
pub open spec fn ascii_lower(s: Seq<char>) -> Seq<char> {
    s.map_values(
        |c: char|
            if 'A' <= c <= 'Z' {
                ((c as u32) + 32) as char
            } else {
                c
            },
    )
}

/// Extensions treated as images.
pub open spec fn is_image_extension(e: Seq<char>) -> bool {
    let l = ascii_lower(e);
    l == "png"@ || l == "jpg"@ || l == "jpeg"@ || l == "gif"@
}

/// Whether an extension, if there is one, names an image.
pub open spec fn image_named(extension: Option<Seq<char>>) -> bool {
    match extension {
        Some(e) => is_image_extension(e),
        None => false,
    }
}

pub open spec fn opt_view(s: Option<&str>) -> Option<Seq<char>> {
    match s {
        Some(t) => Some(t@),
        None => None,
    }
}

/// The kind of a file from whether it is a directory, its extension, and
/// (only when those do not decide) the first bytes of its contents, `None`
/// when it could not be read.
pub open spec fn kind_of(is_dir: bool, extension: Option<Seq<char>>, contents: Option<Seq<u8>>) -> FileKind {
    if is_dir {
        FileKind::Directory
    } else if image_named(extension) {
        FileKind::Image
    } else {
        match contents {
            Some(b) => if looks_like_text(b.take(if b.len() < 512 { b.len() as int } else { 512 })) {
                FileKind::Text
            } else {
                FileKind::Other
            },
            None => FileKind::Other,
        }
    }
}

fn ascii_lower_exec(s: &str) -> (r: Vec<char>)
    ensures
        r@ == ascii_lower(s@),
{
    let cs = chars_of(s);
    let mut r: Vec<char> = Vec::new();
    let mut i: usize = 0;
    while i < cs.len()
        invariant
            i <= cs@.len(),
            cs@ == s@,
            r@ == ascii_lower(s@).take(i as int),
        decreases cs.len() - i,
    {
        let c = cs[i];
        let l = if 'A' <= c && c <= 'Z' {
            ((c as u8) + 32) as char
        } else {
            c
        };
        r.push(l);
        proof {
            assert(ascii_lower(s@).take(i + 1) =~= ascii_lower(s@).take(i as int).push(l));
        }
        i = i + 1;
    }
    assert(ascii_lower(s@).take(cs@.len() as int) =~= ascii_lower(s@));
    r
}

/// Classify a file for opening: directories by `is_dir`, images by
/// extension, and other files by sniffing the first bytes `read` gives
/// (`None` when the file cannot be read). `read` is called only when the
/// contents decide.
pub fn classify_path<F: FnOnce() -> Option<Vec<u8>>>(is_dir: bool, extension: Option<&str>, read: F) -> (k: FileKind)
    requires
        read.requires(()),
    ensures
        is_dir ==> k == FileKind::Directory,
        !is_dir && image_named(opt_view(extension)) ==> k == FileKind::Image,
        !is_dir && !image_named(opt_view(extension)) ==> exists|c: Option<Vec<u8>>|
            #[trigger] read.ensures((), c) && k == kind_of(
                false,
                None,
                match c {
                    Some(v) => Some(v@),
                    None => None,
                },
            ),
{
    if is_dir {
        return FileKind::Directory;
    }
    match extension {
        Some(e) => {
            let l = ascii_lower_exec(e);
            let png = chars_of("png");
            let jpg = chars_of("jpg");
            let jpeg = chars_of("jpeg");
            let gif = chars_of("gif");
            if crate::text::chars_eq(&l, &png) || crate::text::chars_eq(&l, &jpg) || crate::text::chars_eq(
                &l,
                &jpeg,
            ) || crate::text::chars_eq(&l, &gif) {
                return FileKind::Image;
            }
        },
        None => {},
    }
    let c = read();
    match c {
        Some(bytes) => {
            let n = if bytes.len() < SNIFF_BYTES {
                bytes.len()
            } else {
                SNIFF_BYTES
            };
            let mut sample: Vec<u8> = Vec::new();
            let mut i: usize = 0;
            while i < n
                invariant
                    i <= n,
                    n <= bytes@.len(),
                    sample@ == bytes@.take(i as int),
                decreases n - i,
            {
                sample.push(bytes[i]);
                proof {
                    assert(bytes@.take(i + 1) =~= bytes@.take(i as int).push(bytes@[i as int]));
                }
                i = i + 1;
            }
            if is_probably_text(sample.as_slice()) {
                FileKind::Text
            } else {
                FileKind::Other
            }
        },
        None => FileKind::Other,
    }
}

/// One row of the flattened, currently visible tree.
#[derive(Debug, Clone)]
pub struct TreeEntry {
    pub path: String,
    pub is_dir: bool,
    pub depth: usize,
}

/// A directory child: its path and whether it is a directory.
pub type ChildView = (Seq<char>, bool);

/// The last component of a path.
pub open spec fn file_name(p: Seq<char>) -> Seq<char> {
    match p.index_of_last('/') {
        Some(i) => p.skip(i + 1),
        None => p,
    }
}

/// Whether a child is hidden: its name starts with `.`.
pub open spec fn is_hidden(p: Seq<char>) -> bool {
    file_name(p).len() > 0 && file_name(p)[0] == '.'
}

/// Display order: directories before files, then by name.
pub open spec fn shown_before(a: ChildView, b: ChildView) -> bool {
    (a.1 && !b.1) || (a.1 == b.1 && lex_le(file_name(a.0), file_name(b.0)) && file_name(a.0) != file_name(b.0))
}

/// `x` inserted into `s` before the first entry it is shown before (a
/// stable insertion).
pub open spec fn insert_in_order(s: Seq<ChildView>, x: ChildView) -> Seq<ChildView> {
    match first_shown_after(s, x, 0) {
        Some(j) => s.insert(j, x),
        None => s.push(x),
    }
}

/// The first index from `from` on whose entry `x` is shown before.
pub open spec fn first_shown_after(s: Seq<ChildView>, x: ChildView, from: int) -> Option<int>
    decreases s.len() - from,
{
    if from >= s.len() || from < 0 {
        None
    } else if shown_before(x, s[from]) {
        Some(from)
    } else {
        first_shown_after(s, x, from + 1)
    }
}

/// `cs` in display order, equal entries keeping their order (a stable sort).
pub open spec fn arranged(cs: Seq<ChildView>) -> Seq<ChildView>
    decreases cs.len(),
{
    if cs.len() == 0 {
        cs
    } else {
        insert_in_order(arranged(cs.drop_last()), cs.last())
    }
}

/// `cs` without hidden entries, unless they are shown.
pub open spec fn unhidden(cs: Seq<ChildView>, show_hidden: bool) -> Seq<ChildView>
    decreases cs.len(),
{
    if cs.len() == 0 || show_hidden {
        cs
    } else {
        unhidden(cs.drop_last(), show_hidden) + if is_hidden(cs.last().0) {
            Seq::empty()
        } else {
            seq![cs.last()]
        }
    }
}

/// What the tree shows of a directory with contents `cs`.
pub open spec fn visible_children(cs: Seq<ChildView>, show_hidden: bool) -> Seq<ChildView> {
    arranged(unhidden(cs, show_hidden))
}

/// Directory listings: for each directory read, its children.
pub type Listings = Seq<(Seq<char>, Seq<ChildView>)>;

/// The children `ls` holds for `dir` (the first listing of it), or none.
pub open spec fn listing_of(ls: Listings, dir: Seq<char>) -> Seq<ChildView>
    decreases ls.len(),
{
    if ls.len() == 0 {
        Seq::empty()
    } else if ls[0].0 == dir {
        ls[0].1
    } else {
        listing_of(ls.skip(1), dir)
    }
}

/// Rows of the tree for `children` at `depth`: each child, followed by the
/// rows of its own children when it is an expanded directory. `fuel` bounds
/// the nesting: a descent passes each expanded directory at most once.
pub open spec fn tree_rows(
    ls: Listings,
    expanded: Seq<Seq<char>>,
    show_hidden: bool,
    children: Seq<ChildView>,
    depth: nat,
    fuel: nat,
) -> Seq<(Seq<char>, bool, nat)>
    decreases fuel, children.len(),
{
    if children.len() == 0 {
        Seq::empty()
    } else {
        let c = children[0];
        let below = if c.1 && expanded.contains(c.0) && fuel > 0 {
            tree_rows(
                ls,
                expanded,
                show_hidden,
                visible_children(listing_of(ls, c.0), show_hidden),
                depth + 1,
                (fuel - 1) as nat,
            )
        } else {
            Seq::empty()
        };
        seq![(c.0, c.1, depth)] + below + tree_rows(ls, expanded, show_hidden, children.skip(1), depth, fuel)
    }
}

/// What the browser shows of a tree rooted at `root`.
pub open spec fn tree_of(ls: Listings, root: Seq<char>, expanded: Seq<Seq<char>>, show_hidden: bool) -> Seq<
    (Seq<char>, bool, nat),
> {
    tree_rows(ls, expanded, show_hidden, visible_children(listing_of(ls, root), show_hidden), 0, expanded.len())
}

/// No listing in `ls` names a child with path `p`.
pub open spec fn never_listed(ls: Listings, p: Seq<char>) -> bool {
    forall|i: int, k: int| 0 <= i < ls.len() && 0 <= k < ls[i].1.len() ==> #[trigger] ls[i].1[k].0 != p
}

/// No entry of `cs` has path `p`.
pub open spec fn avoids(cs: Seq<ChildView>, p: Seq<char>) -> bool {
    forall|k: int| 0 <= k < cs.len() ==> #[trigger] cs[k].0 != p
}

proof fn lemma_listing_avoids(ls: Listings, dir: Seq<char>, p: Seq<char>)
    requires
        never_listed(ls, p),
    ensures
        avoids(listing_of(ls, dir), p),
    decreases ls.len(),
{
    if ls.len() > 0 {
        if ls[0].0 == dir {
            assert forall|k: int| 0 <= k < ls[0].1.len() implies #[trigger] ls[0].1[k].0 != p by {
                assert(ls[0].1[k].0 != p);
            }
        } else {
            let rest = ls.skip(1);
            assert forall|i: int, k: int| 0 <= i < rest.len() && 0 <= k < rest[i].1.len() implies #[trigger] rest[i].1[k].0
                != p by {
                assert(rest[i] == ls[i + 1]);
                assert(ls[i + 1].1[k].0 != p);
            }
            lemma_listing_avoids(rest, dir, p);
        }
    }
}

proof fn lemma_unhidden_avoids(cs: Seq<ChildView>, show_hidden: bool, p: Seq<char>)
    requires
        avoids(cs, p),
    ensures
        avoids(unhidden(cs, show_hidden), p),
    decreases cs.len(),
{
    if cs.len() > 0 && !show_hidden {
        let init = cs.drop_last();
        assert forall|k: int| 0 <= k < init.len() implies #[trigger] init[k].0 != p by {
            assert(init[k] == cs[k]);
        }
        lemma_unhidden_avoids(init, show_hidden, p);
        let u = unhidden(init, show_hidden);
        let tail = if is_hidden(cs.last().0) {
            Seq::<ChildView>::empty()
        } else {
            seq![cs.last()]
        };
        assert(unhidden(cs, show_hidden) == u + tail);
        assert forall|k: int| 0 <= k < (u + tail).len() implies #[trigger] (u + tail)[k].0 != p by {
            if k >= u.len() {
                assert((u + tail)[k] == cs.last());
            }
        }
    }
}

proof fn lemma_first_shown_after_range(s: Seq<ChildView>, x: ChildView, from: int)
    requires
        0 <= from,
    ensures
        first_shown_after(s, x, from) matches Some(j) ==> from <= j < s.len(),
    decreases s.len() - from,
{
    if from < s.len() && !shown_before(x, s[from]) {
        lemma_first_shown_after_range(s, x, from + 1);
    }
}

proof fn lemma_arranged_avoids(cs: Seq<ChildView>, p: Seq<char>)
    requires
        avoids(cs, p),
    ensures
        avoids(arranged(cs), p),
    decreases cs.len(),
{
    if cs.len() > 0 {
        let init = cs.drop_last();
        assert forall|k: int| 0 <= k < init.len() implies #[trigger] init[k].0 != p by {
            assert(init[k] == cs[k]);
        }
        lemma_arranged_avoids(init, p);
        let s = arranged(init);
        let x = cs.last();
        lemma_first_shown_after_range(s, x, 0);
        match first_shown_after(s, x, 0) {
            Some(j) => {
                let t = s.insert(j, x);
                assert forall|k: int| 0 <= k < t.len() implies #[trigger] t[k].0 != p by {
                    if k < j {
                        assert(t[k] == s[k]);
                    } else if k == j {
                        assert(t[k] == x);
                    } else {
                        assert(t[k] == s[k - 1]);
                    }
                }
            },
            None => {
                let t = s.push(x);
                assert forall|k: int| 0 <= k < t.len() implies #[trigger] t[k].0 != p by {
                    if k < s.len() {
                        assert(t[k] == s[k]);
                    }
                }
            },
        }
    }
}

proof fn lemma_rows_avoid(
    ls: Listings,
    expanded: Seq<Seq<char>>,
    show_hidden: bool,
    children: Seq<ChildView>,
    depth: nat,
    fuel: nat,
    p: Seq<char>,
)
    requires
        never_listed(ls, p),
        avoids(children, p),
    ensures
        forall|i: int|
            0 <= i < tree_rows(ls, expanded, show_hidden, children, depth, fuel).len() ==> (#[trigger] tree_rows(
                ls,
                expanded,
                show_hidden,
                children,
                depth,
                fuel,
            )[i]).0 != p,
    decreases fuel, children.len(),
{
    if children.len() > 0 {
        let c = children[0];
        let below = if c.1 && expanded.contains(c.0) && fuel > 0 {
            let inner = visible_children(listing_of(ls, c.0), show_hidden);
            lemma_listing_avoids(ls, c.0, p);
            lemma_unhidden_avoids(listing_of(ls, c.0), show_hidden, p);
            lemma_arranged_avoids(unhidden(listing_of(ls, c.0), show_hidden), p);
            lemma_rows_avoid(ls, expanded, show_hidden, inner, depth + 1, (fuel - 1) as nat, p);
            tree_rows(ls, expanded, show_hidden, inner, depth + 1, (fuel - 1) as nat)
        } else {
            Seq::empty()
        };
        let rest_children = children.skip(1);
        assert forall|k: int| 0 <= k < rest_children.len() implies #[trigger] rest_children[k].0 != p by {
            assert(rest_children[k] == children[k + 1]);
        }
        lemma_rows_avoid(ls, expanded, show_hidden, rest_children, depth, fuel, p);
        let rest = tree_rows(ls, expanded, show_hidden, rest_children, depth, fuel);
        let all = seq![(c.0, c.1, depth)] + below + rest;
        assert(tree_rows(ls, expanded, show_hidden, children, depth, fuel) == all);
        assert(c.0 != p);
        assert forall|i: int| 0 <= i < all.len() implies (#[trigger] all[i]).0 != p by {
            if i >= 1 + below.len() {
                assert(all[i] == rest[i - 1 - below.len()]);
            } else if i >= 1 {
                assert(all[i] == below[i - 1]);
            }
        }
    }
}

/// A path that no listing names as a child never shows up as a row; in
/// particular the root, which no directory on disk lists as its own child
/// or as a child of one of its subdirectories.
pub proof fn lemma_tree_never_shows(ls: Listings, root: Seq<char>, expanded: Seq<Seq<char>>, show_hidden: bool, p: Seq<char>)
    requires
        never_listed(ls, p),
    ensures
        forall|i: int|
            0 <= i < tree_of(ls, root, expanded, show_hidden).len() ==> (#[trigger] tree_of(
                ls,
                root,
                expanded,
                show_hidden,
            )[i]).0 != p,
{
    lemma_listing_avoids(ls, root, p);
    lemma_unhidden_avoids(listing_of(ls, root), show_hidden, p);
    lemma_arranged_avoids(unhidden(listing_of(ls, root), show_hidden), p);
    lemma_rows_avoid(
        ls,
        expanded,
        show_hidden,
        visible_children(listing_of(ls, root), show_hidden),
        0,
        expanded.len(),
        p,
    );
}

/// A directory listing as the caller read it.
pub struct DirListing {
    pub dir: String,
    pub children: Vec<(String, bool)>,
}

pub open spec fn children_view(v: Seq<(String, bool)>) -> Seq<ChildView> {
    v.map_values(|c: (String, bool)| (c.0@, c.1))
}

pub open spec fn listings_view(v: Seq<DirListing>) -> Listings {
    v.map_values(|l: DirListing| (l.dir@, children_view(l.children@)))
}

pub open spec fn entries_view(v: Seq<TreeEntry>) -> Seq<(Seq<char>, bool, nat)> {
    v.map_values(|e: TreeEntry| (e.path@, e.is_dir, e.depth as nat))
}

pub open spec fn strings_view(v: Seq<String>) -> Seq<Seq<char>> {
    v.map_values(|s: String| s@)
}

/// The last component of `p`.
pub(crate) fn file_name_of(p: &str) -> (n: Vec<char>)
    ensures
        n@ == file_name(p@),
{
    let cs = chars_of(p);
    let mut i: usize = cs.len();
    while i > 0 && cs[i - 1] != '/'
        invariant
            i <= cs@.len(),
            cs@ == p@,
            forall|k: int| i <= k < cs@.len() ==> cs@[k] != '/',
        decreases i,
    {
        i = i - 1;
    }
    proof {
        p@.index_of_last_ensures('/');
        match p@.index_of_last('/') {
            Some(k) => {
                assert(i > 0);
                assert(k == i - 1);
            },
            None => {
                if i > 0 {
                    assert(p@.contains('/')) by {
                        assert(p@[i - 1] == '/');
                    }
                }
            },
        }
    }
    let mut n: Vec<char> = Vec::new();
    let mut j: usize = i;
    while j < cs.len()
        invariant
            i <= j <= cs@.len(),
            n@ == cs@.subrange(i as int, j as int),
        decreases cs.len() - j,
    {
        n.push(cs[j]);
        proof {
            assert(cs@.subrange(i as int, j + 1) =~= cs@.subrange(i as int, j as int).push(cs@[j as int]));
        }
        j = j + 1;
    }
    proof {
        assert(n@ =~= cs@.skip(i as int));
        if i == 0 {
            assert(cs@.skip(0) =~= cs@);
        }
    }
    n
}

/// Whether `a` is shown before `b`.
fn shown_before_exec(a: &(String, bool), b: &(String, bool)) -> (r: bool)
    ensures
        r == shown_before((a.0@, a.1), (b.0@, b.1)),
{
    if a.1 && !b.1 {
        return true;
    }
    if a.1 != b.1 {
        return false;
    }
    let an = file_name_of(a.0.as_str());
    let bn = file_name_of(b.0.as_str());
    chars_lex_le(&an, &bn) && !crate::text::chars_eq(&an, &bn)
}

fn clone_child(c: &(String, bool)) -> (r: (String, bool))
    ensures
        r.0@ == c.0@,
        r.1 == c.1,
{
    (c.0.clone(), c.1)
}

/// The children of a directory as the tree shows them: hidden entries
/// dropped unless `show_hidden`, directories first, then by name.
pub fn arrange_children(children: &Vec<(String, bool)>, show_hidden: bool) -> (v: Vec<(String, bool)>)
    ensures
        children_view(v@) == visible_children(children_view(children@), show_hidden),
{
    let ghost cv = children_view(children@);
    let mut kept: Vec<(String, bool)> = Vec::new();
    let mut i: usize = 0;
    assert(cv.take(0) =~= Seq::<ChildView>::empty());
    assert(children_view(kept@) =~= Seq::<ChildView>::empty());
    while i < children.len()
        invariant
            i <= children@.len(),
            cv == children_view(children@),
            children_view(kept@) == unhidden(cv.take(i as int), show_hidden),
        decreases children.len() - i,
    {
        let ghost before = children_view(kept@);
        proof {
            assert(cv.take(i + 1).drop_last() =~= cv.take(i as int));
            assert(cv.take(i + 1).last() == cv[i as int]);
        }
        let name = file_name_of(children[i].0.as_str());
        let hidden = name.len() > 0 && name[0] == '.';
        if show_hidden || !hidden {
            kept.push(clone_child(&children[i]));
            proof {
                assert(children_view(kept@) =~= before.push(cv[i as int]));
                if show_hidden {
                    assert(cv.take(i + 1) =~= cv.take(i as int).push(cv[i as int]));
                }
            }
        } else {
            proof {
                assert(before + Seq::<ChildView>::empty() =~= before);
            }
        }
        i = i + 1;
    }
    assert(cv.take(cv.len() as int) =~= cv);
    let ghost u = children_view(kept@);
    let mut out: Vec<(String, bool)> = Vec::new();
    let mut k: usize = 0;
    assert(u.take(0) =~= Seq::<ChildView>::empty());
    assert(children_view(out@) =~= Seq::<ChildView>::empty());
    while k < kept.len()
        invariant
            k <= kept@.len(),
            u == children_view(kept@),
            children_view(out@) == arranged(u.take(k as int)),
        decreases kept.len() - k,
    {
        let x = clone_child(&kept[k]);
        let ghost xv = (x.0@, x.1);
        let ghost s = children_view(out@);
        let mut j: usize = 0;
        let mut found = false;
        while j < out.len() && !found
            invariant
                j <= out@.len(),
                s == children_view(out@),
                first_shown_after(s, xv, 0) == first_shown_after(s, xv, j as int),
                found ==> j < out@.len() && shown_before(xv, s[j as int]),
                xv == (x.0@, x.1),
            decreases out.len() - j, if found { 0int } else { 1int },
        {
            proof {
                assert(s[j as int] == (out@[j as int].0@, out@[j as int].1));
            }
            if shown_before_exec(&x, &out[j]) {
                found = true;
            } else {
                proof {
                    assert(first_shown_after(s, xv, j as int) == first_shown_after(s, xv, j + 1));
                }
                j = j + 1;
            }
        }
        proof {
            if found {
                assert(first_shown_after(s, xv, j as int) == Some(j as int));
            } else {
                assert(first_shown_after(s, xv, j as int) is None);
            }
        }
        proof {
            assert(u.take(k + 1).drop_last() =~= u.take(k as int));
            assert(u.take(k + 1).last() == xv);
        }
        if found {
            out.insert(j, x);
            proof {
                assert(children_view(out@) =~= s.insert(j as int, xv));
            }
        } else {
            out.push(x);
            proof {
                assert(children_view(out@) =~= s.push(xv));
            }
        }
        k = k + 1;
    }
    assert(u.take(u.len() as int) =~= u);
    out
}

/// Content shown in the file-browser panel: the tree, or the editor on an
/// opened file.
pub enum ViewerContent {
    Tree,
    Editor(EditorState),
}

impl ViewerContent {
    pub fn is_tree(&self) -> (b: bool)
        ensures
            b == (self is Tree),
    {
        match self {
            ViewerContent::Tree => true,
            _ => false,
        }
    }
}

/// Open `path` for editing, from what reading it gave.
pub fn open_for_edit(path: String, read: FileRead) -> (r: Result<EditorState, CastermError>)
    ensures
        match read {
            FileRead::Failed(m) => r == Err::<EditorState, CastermError>(CastermError::Io(m)),
            _ => r matches Ok(e) && e.view().wf() && e.spec_path() == path@,
        },
{
    EditorState::load(path, read)
}

/// State of the tree panel: the root, which directories are expanded, the
/// flattened visible rows, and the selection and scroll position.
pub struct FileBrowserState {
    root: String,
    expanded: Vec<String>,
    show_hidden: bool,
    entries: Vec<TreeEntry>,
    selected: usize,
    scroll_offset: usize,
    /// The listings the rows were last built from.
    listed: Ghost<Listings>,
}


/// Where the selection lands when the rows are rebuilt: it stays, unless it
/// fell off the end, in which case it moves to the last row (row 0 when
/// there are none).
pub open spec fn kept_selection(selected: nat, rows: nat) -> nat {
    if selected < rows {
        selected
    } else if rows == 0 {
        0
    } else {
        (rows - 1) as nat
    }
}

impl FileBrowserState {
    pub closed spec fn spec_root(&self) -> Seq<char> {
        self.root@
    }

    pub closed spec fn spec_expanded(&self) -> Seq<Seq<char>> {
        strings_view(self.expanded@)
    }

    pub closed spec fn spec_show_hidden(&self) -> bool {
        self.show_hidden
    }

    pub closed spec fn rows(&self) -> Seq<(Seq<char>, bool, nat)> {
        entries_view(self.entries@)
    }

    pub closed spec fn spec_entries(&self) -> Seq<TreeEntry> {
        self.entries@
    }

    pub closed spec fn spec_selected(&self) -> nat {
        self.selected as nat
    }

    pub closed spec fn spec_scroll(&self) -> nat {
        self.scroll_offset as nat
    }

    /// The listings the rows were last built from.
    pub closed spec fn spec_listings(&self) -> Listings {
        self.listed@
    }

    /// The rows are the tree that the listings they were built from show
    /// of the root; the selection is a row, or row 0 of an empty tree; no
    /// directory is expanded twice.
    pub open spec fn wf(&self) -> bool {
        &&& self.rows() == tree_of(self.spec_listings(), self.spec_root(), self.spec_expanded(), self.spec_show_hidden())
        &&& (self.rows().len() == 0 ==> self.spec_selected() == 0)
        &&& (self.rows().len() > 0 ==> self.spec_selected() < self.rows().len())
        &&& forall|i: int, j: int|
            0 <= i < j < self.spec_expanded().len() ==> #[trigger] self.spec_expanded()[i]
                != #[trigger] self.spec_expanded()[j]
    }

    /// A browser rooted at `root` with the root expanded, showing the tree
    /// that `listings` describe.
    pub fn new(root: String, show_hidden: bool, listings: &Vec<DirListing>) -> (s: Self)
        ensures
            s.wf(),
            s.spec_root() == root@,
            s.spec_expanded() == seq![root@],
            s.spec_show_hidden() == show_hidden,
            s.rows() == tree_of(listings_view(listings@), root@, seq![root@], show_hidden),
            s.spec_listings() == listings_view(listings@),
            s.spec_selected() == 0,
            s.spec_scroll() == 0,
    {
        let mut expanded: Vec<String> = Vec::new();
        expanded.push(root.clone());
        let mut s = FileBrowserState {
            root,
            expanded,
            show_hidden,
            entries: Vec::new(),
            selected: 0,
            scroll_offset: 0,
            listed: Ghost(Seq::empty()),
        };
        proof {
            assert(s.spec_expanded() =~= seq![s.root@]);
        }
        s.rebuild(listings);
        s
    }

    pub fn root(&self) -> (r: &String)
        ensures
            r@ == self.spec_root(),
    {
        &self.root
    }

    pub fn entries(&self) -> (e: &Vec<TreeEntry>)
        ensures
            e@ == self.spec_entries(),
            entries_view(e@) == self.rows(),
    {
        &self.entries
    }

    pub fn selected_index(&self) -> (i: usize)
        ensures
            i == self.spec_selected(),
    {
        self.selected
    }

    pub fn scroll_offset(&self) -> (o: usize)
        ensures
            o == self.spec_scroll(),
    {
        self.scroll_offset
    }

    /// The selected row, if there is one.
    pub fn selected_entry(&self) -> (e: Option<&TreeEntry>)
        ensures
            match e {
                Some(t) => self.spec_selected() < self.spec_entries().len() && *t == self.spec_entries()[self.spec_selected() as int],
                None => self.spec_selected() >= self.spec_entries().len(),
            },
    {
        if self.selected < self.entries.len() {
            Some(&self.entries[self.selected])
        } else {
            None
        }
    }

    /// Whether the directory `path` is expanded.
    pub fn is_expanded(&self, path: &str) -> (b: bool)
        ensures
            b == self.spec_expanded().contains(path@),
    {
        match self.expanded_index(path) {
            Some(_) => true,
            None => false,
        }
    }

    fn expanded_index(&self, path: &str) -> (r: Option<usize>)
        ensures
            match r {
                Some(i) => i < self.spec_expanded().len() && self.spec_expanded()[i as int] == path@,
                None => !self.spec_expanded().contains(path@),
            },
    {
        let mut i: usize = 0;
        while i < self.expanded.len()
            invariant
                i <= self.expanded@.len(),
                forall|k: int| 0 <= k < i ==> #[trigger] self.spec_expanded()[k] != path@,
            decreases self.expanded.len() - i,
        {
            if str_eq(self.expanded[i].as_str(), path) {
                return Some(i);
            }
            i = i + 1;
        }
        None
    }

    /// The children `listings` hold for `dir`, as the tree shows them.
    fn visible_of(&self, listings: &Vec<DirListing>, dir: &str) -> (v: Vec<(String, bool)>)
        ensures
            children_view(v@) == visible_children(listing_of(listings_view(listings@), dir@), self.show_hidden),
    {
        let ghost lv = listings_view(listings@);
        let mut i: usize = 0;
        assert(lv.skip(0) =~= lv);
        while i < listings.len()
            invariant
                i <= listings@.len(),
                lv == listings_view(listings@),
                listing_of(lv, dir@) == listing_of(lv.skip(i as int), dir@),
            decreases listings.len() - i,
        {
            proof {
                assert(lv.skip(i as int).skip(1) =~= lv.skip(i + 1));
                assert(lv.skip(i as int)[0] == lv[i as int]);
            }
            if str_eq(listings[i].dir.as_str(), dir) {
                return arrange_children(&listings[i].children, self.show_hidden);
            }
            i = i + 1;
        }
        let empty: Vec<(String, bool)> = Vec::new();
        proof {
            assert(children_view(empty@) =~= Seq::<ChildView>::empty());
            assert(lv.skip(i as int).len() == 0);
            assert(unhidden(Seq::<ChildView>::empty(), self.show_hidden) =~= Seq::<ChildView>::empty());
        }
        arrange_children(&empty, self.show_hidden)
    }

    /// Append the rows for `children[i..]` at `depth`.
    fn push_rows(
        &self,
        listings: &Vec<DirListing>,
        children: &Vec<(String, bool)>,
        i: usize,
        depth: usize,
        fuel: usize,
        out: &mut Vec<TreeEntry>,
    )
        requires
            i <= children@.len(),
            depth + fuel <= self.spec_expanded().len(),
        ensures
            entries_view(final(out)@) == entries_view(old(out)@) + tree_rows(
                listings_view(listings@),
                self.spec_expanded(),
                self.show_hidden,
                children_view(children@).skip(i as int),
                depth as nat,
                fuel as nat,
            ),
        decreases fuel, children@.len() - i,
    {
        let ghost lv = listings_view(listings@);
        let ghost cs = children_view(children@).skip(i as int);
        if i == children.len() {
            proof {
                assert(cs.len() == 0);
                assert(entries_view(out@) + Seq::<(Seq<char>, bool, nat)>::empty() =~= entries_view(out@));
            }
            return;
        }
        let path = children[i].0.clone();
        let is_dir = children[i].1;
        let ghost start = entries_view(out@);
        out.push(TreeEntry { path: path.clone(), is_dir, depth });
        let ghost after_self = entries_view(out@);
        proof {
            assert(after_self =~= start.push((path@, is_dir, depth as nat)));
            assert(cs[0] == (path@, is_dir));
        }
        let n = self.expanded.len();
        assert(n == self.spec_expanded().len());
        if is_dir && fuel > 0 && self.is_expanded(path.as_str()) {
            let sub = self.visible_of(listings, path.as_str());
            assert(children_view(sub@).skip(0) =~= children_view(sub@));
            self.push_rows(listings, &sub, 0, depth + 1, fuel - 1, out);
        }
        let ghost after_below = entries_view(out@);
        self.push_rows(listings, children, i + 1, depth, fuel, out);
        proof {
            assert(children_view(children@).skip(i + 1) =~= cs.skip(1));
            let below = if is_dir && self.spec_expanded().contains(path@) && fuel > 0 {
                tree_rows(lv, self.spec_expanded(), self.show_hidden, visible_children(listing_of(lv, path@), self.show_hidden), (depth + 1) as nat, (fuel - 1) as nat)
            } else {
                Seq::<(Seq<char>, bool, nat)>::empty()
            };
            assert(after_below =~= after_self + below);
            assert(entries_view(out@) =~= start + (seq![(path@, is_dir, depth as nat)] + below + tree_rows(
                lv,
                self.spec_expanded(),
                self.show_hidden,
                cs.skip(1),
                depth as nat,
                fuel as nat,
            )));
        }
    }

    /// Rebuild the visible rows from `listings`, keeping the selection on
    /// a row (the last one when it fell off the end).
    fn rebuild(&mut self, listings: &Vec<DirListing>)
        requires
            forall|i: int, j: int|
                0 <= i < j < old(self).spec_expanded().len() ==> #[trigger] old(self).spec_expanded()[i]
                    != #[trigger] old(self).spec_expanded()[j],
        ensures
            final(self).wf(),
            final(self).rows() == tree_of(
                listings_view(listings@),
                old(self).spec_root(),
                old(self).spec_expanded(),
                old(self).spec_show_hidden(),
            ),
            final(self).spec_selected() == kept_selection(old(self).spec_selected(), final(self).rows().len()),
            final(self).spec_listings() == listings_view(listings@),
            final(self).spec_root() == old(self).spec_root(),
            final(self).spec_expanded() == old(self).spec_expanded(),
            final(self).spec_show_hidden() == old(self).spec_show_hidden(),
            final(self).spec_scroll() == old(self).spec_scroll(),
    {
        let top = self.visible_of(listings, self.root.as_str());
        let mut rows: Vec<TreeEntry> = Vec::new();
        assert(children_view(top@).skip(0) =~= children_view(top@));
        self.push_rows(listings, &top, 0, 0, self.expanded.len(), &mut rows);
        assert(entries_view(rows@) =~= Seq::<(Seq<char>, bool, nat)>::empty() + tree_of(
            listings_view(listings@),
            self.root@,
            self.spec_expanded(),
            self.show_hidden,
        ));
        self.entries = rows;
        self.listed = Ghost(listings_view(listings@));
        if self.selected >= self.entries.len() {
            self.selected = if self.entries.len() > 0 {
                self.entries.len() - 1
            } else {
                0
            };
        }
    }

    /// Move the selection by `delta` rows, clamped to the rows.
    pub fn move_selection(&mut self, delta: isize)
        requires
            old(self).wf(),
            old(self).rows().len() <= isize::MAX,
            isize::MIN <= old(self).spec_selected() + delta <= isize::MAX,
        ensures
            final(self).wf(),
            final(self).spec_selected() == if old(self).rows().len() == 0 {
                0
            } else if old(self).spec_selected() + delta < 0 {
                0
            } else if old(self).spec_selected() + delta > old(self).rows().len() - 1 {
                (old(self).rows().len() - 1) as nat
            } else {
                (old(self).spec_selected() + delta) as nat
            },
            final(self).rows() == old(self).rows(),
            final(self).spec_entries() == old(self).spec_entries(),
            final(self).spec_expanded() == old(self).spec_expanded(),
            final(self).spec_root() == old(self).spec_root(),
            final(self).spec_show_hidden() == old(self).spec_show_hidden(),
            final(self).spec_scroll() == old(self).spec_scroll(),
    {
        if self.entries.len() == 0 {
            return;
        }
        let ghost old_expanded = self.spec_expanded();
        assert(self.entries@.len() == self.rows().len());
        let len = self.entries.len() as isize;
        assert(len == self.rows().len());
        assert(self.selected < self.entries@.len());
        let idx = self.selected as isize + delta;
        let clamped: isize = if idx < 0 {
            0
        } else if idx > len - 1 {
            len - 1
        } else {
            idx
        };
        self.selected = clamped as usize;
        assert(self.spec_expanded() == old_expanded);
    }

    /// Expand the selected directory, or collapse it when expanded, and
    /// rebuild the rows from `listings`; nothing happens when no directory
    /// is selected.
    pub fn toggle_selected(&mut self, listings: &Vec<DirListing>)
        requires
            old(self).wf(),
        ensures
            final(self).wf(),
            final(self).spec_root() == old(self).spec_root(),
            final(self).spec_show_hidden() == old(self).spec_show_hidden(),
            final(self).spec_scroll() == old(self).spec_scroll(),
            !(old(self).spec_selected() < old(self).spec_entries().len() && old(self).spec_entries()[old(self).spec_selected() as int].is_dir)
                ==> *final(self) == *old(self),
            old(self).spec_selected() < old(self).spec_entries().len() && old(self).spec_entries()[old(self).spec_selected() as int].is_dir
                ==> {
                let p = old(self).spec_entries()[old(self).spec_selected() as int].path@;
                &&& (old(self).spec_expanded().contains(p) ==> final(self).spec_expanded().to_set() == old(self).spec_expanded().to_set().remove(p))
                &&& (!old(self).spec_expanded().contains(p) ==> final(self).spec_expanded() == old(self).spec_expanded().push(p))
                &&& final(self).rows() == tree_of(
                    listings_view(listings@),
                    old(self).spec_root(),
                    final(self).spec_expanded(),
                    old(self).spec_show_hidden(),
                )
                &&& final(self).spec_selected() == kept_selection(old(self).spec_selected(), final(self).rows().len())
                &&& final(self).spec_listings() == listings_view(listings@)
            },
            never_listed(old(self).spec_listings(), old(self).spec_root()) && old(self).spec_expanded().contains(
                old(self).spec_root(),
            ) ==> final(self).spec_expanded().contains(old(self).spec_root()),
    {
        if self.selected >= self.entries.len() {
            return;
        }
        if !self.entries[self.selected].is_dir {
            return;
        }
        let path = self.entries[self.selected].path.clone();
        let ghost old_exp = self.spec_expanded();
        let ghost root = self.root@;
        let ghost root_safe = never_listed(self.listed@, root) && old_exp.contains(root);
        proof {
            if root_safe {
                lemma_tree_never_shows(self.listed@, root, old_exp, self.show_hidden, root);
                assert(self.rows()[self.selected as int].0 == path@);
            }
        }
        match self.expanded_index(path.as_str()) {
            Some(i) => {
                self.expanded.remove(i);
                proof {
                    let e = self.spec_expanded();
                    assert(e =~= old_exp.remove(i as int));
                    assert forall|a: int, b: int| 0 <= a < b < e.len() implies #[trigger] e[a] != #[trigger] e[b] by {
                        let a2 = if a < i { a } else { a + 1 };
                        let b2 = if b < i { b } else { b + 1 };
                        assert(e[a] == old_exp[a2] && e[b] == old_exp[b2]);
                    }
                    assert(e.to_set() =~= old_exp.to_set().remove(path@)) by {
                        assert forall|x: Seq<char>| e.to_set().contains(x) <==> old_exp.to_set().remove(path@).contains(x) by {
                            if e.contains(x) {
                                let k = choose|k: int| 0 <= k < e.len() && e[k] == x;
                                let k2 = if k < i { k } else { k + 1 };
                                assert(old_exp[k2] == x);
                                assert(k2 != i);
                                assert(x != path@);
                            }
                            if old_exp.contains(x) && x != path@ {
                                let k = choose|k: int| 0 <= k < old_exp.len() && old_exp[k] == x;
                                assert(k != i);
                                if k < i {
                                    assert(e[k] == x);
                                } else {
                                    assert(e[k - 1] == x);
                                }
                            }
                        }
                    }
                }
            },
            None => {
                self.expanded.push(path.clone());
                proof {
                    let e = self.spec_expanded();
                    assert(e =~= old_exp.push(path@));
                    assert forall|a: int, b: int| 0 <= a < b < e.len() implies #[trigger] e[a] != #[trigger] e[b] by {
                        if b == e.len() - 1 {
                            assert(old_exp.contains(e[a]));
                        } else {
                            assert(e[a] == old_exp[a] && e[b] == old_exp[b]);
                        }
                    }
                }
            },
        }
        proof {
            if root_safe {
                let e = self.spec_expanded();
                assert(path@ != root);
                if old_exp.contains(path@) {
                    assert(old_exp.to_set().contains(root));
                    assert(old_exp.to_set().remove(path@).contains(root));
                    assert(e.to_set().contains(root));
                } else {
                    let k = choose|k: int| 0 <= k < old_exp.len() && old_exp[k] == root;
                    assert(e[k] == root);
                }
                assert(e.contains(root));
            }
        }
        self.rebuild(listings);
    }

    /// Reload the tree from `listings`, keeping the expanded directories and
    /// the selection index (moved to the last row when it fell off the end).
    pub fn refresh(&mut self, listings: &Vec<DirListing>)
        requires
            old(self).wf(),
        ensures
            final(self).wf(),
            final(self).spec_selected() == kept_selection(old(self).spec_selected(), final(self).rows().len()),
            final(self).rows() == tree_of(
                listings_view(listings@),
                old(self).spec_root(),
                old(self).spec_expanded(),
                old(self).spec_show_hidden(),
            ),
            final(self).spec_listings() == listings_view(listings@),
            final(self).spec_root() == old(self).spec_root(),
            final(self).spec_expanded() == old(self).spec_expanded(),
            final(self).spec_scroll() == old(self).spec_scroll(),
    {
        self.rebuild(listings);
    }

    pub fn set_scroll_offset(&mut self, offset: usize)
        ensures
            final(self).spec_scroll() == offset,
            final(self).rows() == old(self).rows(),
            final(self).spec_entries() == old(self).spec_entries(),
            final(self).spec_selected() == old(self).spec_selected(),
            final(self).spec_expanded() == old(self).spec_expanded(),
            final(self).spec_root() == old(self).spec_root(),
            final(self).spec_show_hidden() == old(self).spec_show_hidden(),
            old(self).wf() ==> final(self).wf(),
    {
        let ghost old_expanded = self.spec_expanded();
        self.scroll_offset = offset;
        assert(self.spec_expanded() == old_expanded);
    }

    /// Scroll so that the selected row is among the `visible` rows shown:
    /// up to it when it is above the view, down just far enough when it is
    /// below, otherwise not at all.
    pub fn scroll_into_view(&mut self, visible: usize)
        ensures
            final(self).spec_scroll() == (if old(self).spec_selected() < old(self).spec_scroll() {
                old(self).spec_selected()
            } else if visible > 0 && old(self).spec_selected() >= old(self).spec_scroll() + visible {
                (old(self).spec_selected() + 1 - visible) as nat
            } else {
                old(self).spec_scroll()
            }),
            final(self).rows() == old(self).rows(),
            final(self).spec_entries() == old(self).spec_entries(),
            final(self).spec_selected() == old(self).spec_selected(),
            final(self).spec_expanded() == old(self).spec_expanded(),
            final(self).spec_root() == old(self).spec_root(),
            final(self).spec_show_hidden() == old(self).spec_show_hidden(),
            old(self).wf() ==> final(self).wf(),
    {
        let selected = self.selected;
        let offset = self.scroll_offset;
        let new_offset = if selected < offset {
            selected
        } else if visible > 0 && selected - offset >= visible {
            selected - visible + 1
        } else {
            offset
        };
        self.set_scroll_offset(new_offset);
    }

    /// The directories whose listings the tree needs: the root and every
    /// expanded directory.
    pub fn directories_to_list(&self) -> (v: Vec<String>)
        ensures
            strings_view(v@) == seq![self.spec_root()] + self.spec_expanded(),
    {
        let mut v: Vec<String> = Vec::new();
        v.push(self.root.clone());
        let mut i: usize = 0;
        while i < self.expanded.len()
            invariant
                i <= self.expanded@.len(),
                strings_view(v@) == seq![self.spec_root()] + self.spec_expanded().take(i as int),
            decreases self.expanded.len() - i,
        {
            let ghost before = strings_view(v@);
            v.push(self.expanded[i].clone());
            proof {
                assert(self.spec_expanded()[i as int] == self.expanded@[i as int]@);
                assert(strings_view(v@) =~= before.push(self.spec_expanded()[i as int]));
                assert(self.spec_expanded().take(i + 1) =~= self.spec_expanded().take(i as int).push(self.spec_expanded()[i as int]));
                assert(strings_view(v@) =~= seq![self.spec_root()] + self.spec_expanded().take(i + 1));
            }
            i = i + 1;
        }
        assert(self.spec_expanded().take(self.spec_expanded().len() as int) =~= self.spec_expanded());
        v
    }
}

} // verus!
