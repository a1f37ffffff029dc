//! Status bar text: what each width shows, the clock, and the git branch.
use vstd::prelude::*;

use crate::text::{
    chars_of, decimal, push_char, push_decimal, push_str_chars, spec_trim, string_from_chars, trim_chars,
};
use crate::theme::{byte_len, char_width};

verus! {

/// The first `max` characters of `s` (all of it when shorter).
pub open spec fn truncated(s: Seq<char>, max: nat) -> Seq<char> {
    if s.len() <= max {
        s
    } else {
        s.take(max as int)
    }
}

/// The first `max_chars` characters of `s`.
pub fn truncate(s: &str, max_chars: usize) -> (t: String)
    ensures
        t@ == truncated(s@, max_chars as nat),
{
    let cs = chars_of(s);
    if cs.len() <= max_chars {
        return string_from_chars(&cs);
    }
    let mut out: Vec<char> = Vec::new();
    let mut i: usize = 0;
    while i < max_chars
        invariant
            i <= max_chars < cs@.len(),
            out@ == cs@.take(i as int),
        decreases max_chars - i,
    {
        out.push(cs[i]);
        proof {
            assert(cs@.take(i + 1) =~= cs@.take(i as int).push(cs@[i as int]));
        }
        i = i + 1;
    }
    string_from_chars(&out)
}

/// A number below 100 as two digits.
pub open spec fn two_digits(n: nat) -> Seq<char> {
    decimal(n / 10) + decimal(n % 10)
}

/// The time of day `secs` seconds after the epoch, as `HH:MM`.
pub open spec fn clock_hhmm_text(secs: nat) -> Seq<char> {
    let tod = secs % 86400;
    two_digits(tod / 3600) + seq![':'] + two_digits((tod % 3600) / 60)
}

/// The time of day `secs` seconds after the epoch, as `HH:MM:SS`.
pub open spec fn clock_hhmmss_text(secs: nat) -> Seq<char> {
    let tod = secs % 86400;
    two_digits(tod / 3600) + seq![':'] + two_digits((tod % 3600) / 60) + seq![':'] + two_digits(tod % 60)
}

fn push_two_digits(s: &mut String, n: u64)
    requires
        n < 100,
    ensures
        final(s)@ == old(s)@ + two_digits(n as nat),
{
    push_decimal(s, n / 10);
    push_decimal(s, n % 10);
    proof {
        assert(old(s)@ + decimal((n / 10) as nat) + decimal((n % 10) as nat) =~= old(s)@ + two_digits(n as nat));
    }
}

/// The clock as `HH:MM`, `secs` seconds after the epoch (UTC).
pub fn clock_hhmm(secs: u64) -> (s: String)
    ensures
        s@ == clock_hhmm_text(secs as nat),
{
    let tod = secs % 86400;
    let mut s = String::new();
    push_two_digits(&mut s, tod / 3600);
    push_char(&mut s, ':');
    push_two_digits(&mut s, (tod % 3600) / 60);
    assert(s@ =~= clock_hhmm_text(secs as nat));
    s
}

/// The clock as `HH:MM:SS`, `secs` seconds after the epoch (UTC).
pub fn clock_hhmmss(secs: u64) -> (s: String)
    ensures
        s@ == clock_hhmmss_text(secs as nat),
{
    let tod = secs % 86400;
    let mut s = String::new();
    push_two_digits(&mut s, tod / 3600);
    push_char(&mut s, ':');
    push_two_digits(&mut s, (tod % 3600) / 60);
    push_char(&mut s, ':');
    push_two_digits(&mut s, tod % 60);
    assert(s@ =~= clock_hhmmss_text(secs as nat));
    s
}

/// What the status bar shows besides the mode badge.
#[derive(Debug, Clone)]
pub struct StatusInfo {
    pub session_name: String,
    pub window_index: usize,
    pub pane_index: usize,
    pub hostname: String,
    pub pane_title: String,
    pub git_branch: Option<String>,
}

/// `session  window:pane`.
pub open spec fn place_text(i: StatusInfo) -> Seq<char> {
    i.session_name@ + "  "@ + decimal(i.window_index as nat) + seq![':'] + decimal(i.pane_index as nat)
}

/// The place, then the pane title when there is one.
pub open spec fn titled_text(i: StatusInfo) -> Seq<char> {
    place_text(i) + if i.pane_title@.len() > 0 {
        "  "@ + i.pane_title@
    } else {
        Seq::empty()
    }
}

/// The left and right status text for a bar `width` cells wide, with the
/// clock read as `hhmm` and `hhmmss`: nothing below 60 cells; the session
/// name (cut to leave 10 cells) below 80; `session:window` and the time
/// below 120; the pane index too below 160; the pane title and seconds
/// below 200; the host name on the right below 240; and the git branch
/// from 240 cells on.
pub open spec fn status_text(i: StatusInfo, width: nat, hhmm: Seq<char>, hhmmss: Seq<char>) -> (Seq<char>, Seq<char>) {
    if width < 60 {
        (Seq::empty(), Seq::empty())
    } else if width < 80 {
        (truncated(i.session_name@, (width - 10) as nat), Seq::empty())
    } else if width < 120 {
        (i.session_name@ + seq![':'] + decimal(i.window_index as nat), hhmm)
    } else if width < 160 {
        (place_text(i), hhmm)
    } else if width < 200 {
        (titled_text(i), hhmmss)
    } else if width < 240 {
        (titled_text(i), i.hostname@ + "  "@ + hhmmss)
    } else {
        (
            titled_text(i) + match i.git_branch {
                Some(b) => "   "@ + b@,
                None => Seq::empty(),
            },
            i.hostname@ + "  "@ + hhmmss,
        )
    }
}

impl StatusInfo {
    fn place(&self) -> (s: String)
        ensures
            s@ == place_text(*self),
    {
        let mut s = self.session_name.clone();
        push_str_chars(&mut s, "  ");
        push_decimal(&mut s, self.window_index as u64);
        push_char(&mut s, ':');
        push_decimal(&mut s, self.pane_index as u64);
        proof {
            reveal_strlit("  ");
            assert(s@ =~= place_text(*self));
        }
        s
    }

    fn titled(&self) -> (s: String)
        ensures
            s@ == titled_text(*self),
    {
        let mut s = self.place();
        if !self.pane_title.as_str().is_empty() {
            push_str_chars(&mut s, "  ");
            push_str_chars(&mut s, self.pane_title.as_str());
        } else {
            assert(s@ + Seq::<char>::empty() =~= s@);
        }
        s
    }

    /// The left and right status text for a bar `width` cells wide.
    pub fn segments(&self, width: usize, hhmm: &str, hhmmss: &str) -> (r: (String, String))
        ensures
            (r.0@, r.1@) == status_text(*self, width as nat, hhmm@, hhmmss@),
    {
        proof {
            broadcast use vstd::string::group_string_axioms;
        }
        if width < 60 {
            (String::new(), String::new())
        } else if width < 80 {
            (truncate(self.session_name.as_str(), width - 10), String::new())
        } else if width < 120 {
            let mut left = self.session_name.clone();
            push_char(&mut left, ':');
            push_decimal(&mut left, self.window_index as u64);
            assert(left@ =~= self.session_name@ + seq![':'] + decimal(self.window_index as nat));
            (left, hhmm.to_string())
        } else if width < 160 {
            (self.place(), hhmm.to_string())
        } else if width < 200 {
            (self.titled(), hhmmss.to_string())
        } else {
            let mut left = self.titled();
            if width >= 240 {
                match &self.git_branch {
                    Some(b) => {
                        push_str_chars(&mut left, "   ");
                        push_str_chars(&mut left, b.as_str());
                    },
                    None => {
                        assert(left@ + Seq::<char>::empty() =~= left@);
                    },
                }
            }
            let mut right = self.hostname.clone();
            push_str_chars(&mut right, "  ");
            push_str_chars(&mut right, hhmmss);
            (left, right)
        }
    }
}

/// The characters of `t` that fill its first `n` UTF-8 bytes, if `n`
/// falls on a character boundary.
pub open spec fn byte_prefix(t: Seq<char>, n: nat) -> Option<Seq<char>> {
    if exists|k: int| 0 <= k <= t.len() && byte_len(#[trigger] t.take(k)) == n {
        Some(t.take(choose|k: int| 0 <= k <= t.len() && byte_len(#[trigger] t.take(k)) == n))
    } else {
        None
    }
}

/// The branch shown for the contents of `.git/HEAD`: the branch name after
/// `ref: refs/heads/`, else the first seven bytes of a detached commit
/// hash, each after a space; `None` for anything shorter.
pub open spec fn branch_text(content: Seq<char>) -> Option<Seq<char>> {
    let t = spec_trim(content);
    let prefix = "ref: refs/heads/"@;
    if t.len() >= prefix.len() && t.take(prefix.len() as int) == prefix {
        Some(seq![' '] + spec_trim(t.skip(prefix.len() as int)))
    } else if byte_len(t) >= 7 {
        match byte_prefix(t, 7) {
            Some(p) => Some(seq![' '] + p),
            None => None,
        }
    } else {
        None
    }
}

/// Whether showing a detached hash from `content` would cut a character.
pub open spec fn head_cuts_char(content: Seq<char>) -> bool {
    let t = spec_trim(content);
    let prefix = "ref: refs/heads/"@;
    !(t.len() >= prefix.len() && t.take(prefix.len() as int) == prefix) && byte_len(t) >= 7 && byte_prefix(
        t,
        7,
    ) is None
}

proof fn lemma_byte_len_take_step(t: Seq<char>, k: int)
    requires
        0 <= k < t.len(),
    ensures
        byte_len(t.take(k + 1)) == byte_len(t.take(k)) + char_width(t[k]),
{
    crate::theme::lemma_byte_len_front(t.take(k + 1));
    assert(t.take(k + 1).drop_last() =~= t.take(k));
    lemma_byte_len_last(t.take(k + 1));
}

proof fn lemma_byte_len_last(s: Seq<char>)
    requires
        s.len() > 0,
    ensures
        byte_len(s) == byte_len(s.drop_last()) + char_width(s.last()),
    decreases s.len(),
{
    if s.len() == 1 {
        assert(s.drop_last() =~= Seq::<char>::empty());
        assert(s.skip(1) =~= Seq::<char>::empty());
    } else {
        lemma_byte_len_last(s.skip(1));
        assert(s.skip(1).drop_last() =~= s.drop_last().skip(1));
        assert(s.skip(1).last() == s.last());
    }
}

proof fn lemma_byte_len_take_mono(t: Seq<char>, a: int, b: int)
    requires
        0 <= a <= b <= t.len(),
    ensures
        byte_len(t.take(a)) <= byte_len(t.take(b)),
    decreases b - a,
{
    if a < b {
        lemma_byte_len_take_mono(t, a, b - 1);
        lemma_byte_len_take_step(t, b - 1);
    }
}

/// The git branch shown for the contents of `.git/HEAD`.
pub fn branch_from_head(content: &str) -> (b: Option<String>)
    requires
        !head_cuts_char(content@),
    ensures
        match b {
            Some(s) => branch_text(content@) == Some(s@),
            None => branch_text(content@) is None,
        },
{
    proof {
        reveal_strlit("ref: refs/heads/");
    }
    let t = trim_chars(&chars_of(content));
    let prefix = chars_of("ref: refs/heads/");
    let plen = prefix.len();
    let mut same = t.len() >= plen;
    let mut i: usize = 0;
    while same && i < plen
        invariant
            plen == prefix@.len(),
            i <= plen,
            same ==> t@.len() >= plen && t@.take(i as int) == prefix@.take(i as int),
            !same ==> !(t@.len() >= plen && t@.take(plen as int) == prefix@),
        decreases plen - i, if same { 1int } else { 0int },
    {
        if t[i] != prefix[i] {
            proof {
                assert(t@.take(plen as int)[i as int] != prefix@[i as int]);
            }
            same = false;
        } else {
            proof {
                assert(t@.take(i + 1) =~= t@.take(i as int).push(t@[i as int]));
                assert(prefix@.take(i + 1) =~= prefix@.take(i as int).push(prefix@[i as int]));
            }
            i = i + 1;
        }
    }
    proof {
        if same {
            assert(prefix@.take(plen as int) =~= prefix@);
        }
    }
    if same {
        let mut rest: Vec<char> = Vec::new();
        let mut j: usize = plen;
        while j < t.len()
            invariant
                plen <= j <= t@.len(),
                rest@ == t@.subrange(plen as int, j as int),
            decreases t.len() - j,
        {
            rest.push(t[j]);
            proof {
                assert(t@.subrange(plen as int, j + 1) =~= t@.subrange(plen as int, j as int).push(t@[j as int]));
            }
            j = j + 1;
        }
        assert(rest@ =~= t@.skip(plen as int));
        let name = trim_chars(&rest);
        let mut s = String::new();
        push_char(&mut s, ' ');
        let n = string_from_chars(&name);
        push_str_chars(&mut s, n.as_str());
        return Some(s);
    }
    let mut k: usize = 0;
    let mut bytes: usize = 0;
    while k < t.len() && bytes < 7
        invariant
            k <= t@.len(),
            bytes == byte_len(t@.take(k as int)),
            bytes <= 10,
            k > 0 ==> byte_len(t@.take(k - 1)) < 7,
        decreases t.len() - k,
    {
        proof {
            lemma_byte_len_take_step(t@, k as int);
        }
        let c = t[k];
        let w: usize = if (c as u32) < 0x80 {
            1
        } else if (c as u32) < 0x800 {
            2
        } else if (c as u32) < 0x10000 {
            3
        } else {
            4
        };
        assert(w == char_width(c));
        bytes = bytes + w;
        k = k + 1;
    }
    if bytes != 7 {
        proof {
            if bytes < 7 {
                assert(t@.take(k as int) =~= t@);
                assert(byte_len(t@) < 7);
            } else {
                assert(byte_len(t@) >= 7) by {
                    lemma_byte_len_take_mono(t@, k as int, t@.len() as int);
                    assert(t@.take(t@.len() as int) =~= t@);
                }
                assert(byte_prefix(t@, 7) is None) by {
                    if exists|m: int| 0 <= m <= t@.len() && byte_len(#[trigger] t@.take(m)) == 7 {
                        let m = choose|m: int| 0 <= m <= t@.len() && byte_len(#[trigger] t@.take(m)) == 7;
                        if m >= k {
                            lemma_byte_len_take_mono(t@, k as int, m);
                        } else {
                            lemma_byte_len_take_mono(t@, m, k - 1);
                        }
                    }
                }
            }
        }
        return None;
    }
    let mut p: Vec<char> = Vec::new();
    let mut j: usize = 0;
    while j < k
        invariant
            j <= k <= t@.len(),
            p@ == t@.take(j as int),
        decreases k - j,
    {
        p.push(t[j]);
        proof {
            assert(t@.take(j + 1) =~= t@.take(j as int).push(t@[j as int]));
        }
        j = j + 1;
    }
    proof {
        assert(byte_len(t@) >= 7) by {
            lemma_byte_len_take_mono(t@, k as int, t@.len() as int);
            assert(t@.take(t@.len() as int) =~= t@);
        }
        assert(byte_len(t@.take(k as int)) == 7);
        let m = choose|m: int| 0 <= m <= t@.len() && byte_len(#[trigger] t@.take(m)) == 7;
        if m < k {
            lemma_byte_len_take_step(t@, m);
            lemma_byte_len_take_mono(t@, m + 1, k as int);
            crate::theme::lemma_byte_len_front(seq![t@[m]]);
        } else if m > k {
            lemma_byte_len_take_step(t@, k as int);
            lemma_byte_len_take_mono(t@, k + 1, m);
        }
    }
    let mut s = String::new();
    push_char(&mut s, ' ');
    let h = string_from_chars(&p);
    push_str_chars(&mut s, h.as_str());
    Some(s)
}

} // verus!
