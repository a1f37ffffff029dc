//! Installing the terminal's own terminfo entry into the cache directory,
//! so that child processes can find `TERM=casterm`.
use vstd::prelude::*;

use crate::config::{cache_dir, join_path, joined_path};

verus! {

/// The directory handed to child processes as `TERMINFO`.
pub open spec fn terminfo_root(cache: Seq<char>) -> Seq<char> {
    joined_path(cache, "terminfo"@)
}

/// The directory the entry is written into.
pub open spec fn terminfo_entry_dir(root: Seq<char>) -> Seq<char> {
    joined_path(root, "c"@)
}

/// The entry's file.
pub open spec fn terminfo_entry_file(root: Seq<char>) -> Seq<char> {
    joined_path(terminfo_entry_dir(root), "casterm"@)
}

/// Install `compiled_entry` under `cache`: `write` creates the entry's
/// directory and writes the bytes to its file, and says whether both
/// succeeded. The result is the terminfo root on success; nothing is
/// written, and the result is none, when there is no compiled entry.
pub fn install_into<F: FnOnce(&str, &str, &[u8]) -> bool>(cache: &str, compiled_entry: &[u8], write: F) -> (r:
    Option<String>)
    requires
        forall|d: &str, p: &str, b: &[u8]| write.requires((d, p, b)),
    ensures
        compiled_entry@.len() == 0 ==> r is None,
        compiled_entry@.len() > 0 ==> exists|d: &str, p: &str, b: &[u8], ok: bool|
            {
                &&& d@ == terminfo_entry_dir(terminfo_root(cache@))
                &&& p@ == terminfo_entry_file(terminfo_root(cache@))
                &&& b@ == compiled_entry@
                &&& #[trigger] write.ensures((d, p, b), ok)
                &&& if ok {
                    r matches Some(s) && s@ == terminfo_root(cache@)
                } else {
                    r is None
                }
            },
{
    if compiled_entry.len() == 0 {
        return None;
    }
    let root = join_path(cache, "terminfo");
    let dir = join_path(root.as_str(), "c");
    let file = join_path(dir.as_str(), "casterm");
    if write(dir.as_str(), file.as_str(), compiled_entry) {
        Some(root)
    } else {
        None
    }
}

/// Install `compiled_entry` under the application's cache directory, as
/// `install_into` does.
pub fn install<F: FnOnce(&str, &str, &[u8]) -> bool>(compiled_entry: &[u8], write: F) -> (r: Option<String>)
    requires
        forall|d: &str, p: &str, b: &[u8]| write.requires((d, p, b)),
    ensures
        compiled_entry@.len() == 0 ==> r is None,
        r matches Some(s) ==> exists|c: Seq<char>| s@ == #[trigger] terminfo_root(joined_path(c, "casapps/casterm"@)),
        compiled_entry@.len() > 0 ==> exists|c: Seq<char>, d: &str, p: &str, b: &[u8], ok: bool|
            #![trigger write.ensures((d, p, b), ok), joined_path(c, "casapps/casterm"@)]
            {
                let root = terminfo_root(joined_path(c, "casapps/casterm"@));
                &&& d@ == terminfo_entry_dir(root)
                &&& p@ == terminfo_entry_file(root)
                &&& b@ == compiled_entry@
                &&& write.ensures((d, p, b), ok)
                &&& if ok {
                    r matches Some(s) && s@ == root
                } else {
                    r is None
                }
            },
{
    let cache = cache_dir();
    let r = install_into(cache.as_str(), compiled_entry, write);
    proof {
        if compiled_entry@.len() > 0 {
            let c = choose|c: Seq<char>| cache@ == #[trigger] joined_path(c, "casapps/casterm"@);
            assert(cache@ == joined_path(c, "casapps/casterm"@));
        }
    }
    r
}

} // verus!
