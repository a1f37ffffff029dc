//! Host key checking against an OpenSSH `known_hosts` file, trusting a
//! host's key the first time it is seen.
use vstd::prelude::*;

use crate::editor::{lines_of, split_lines};
use crate::keybindings::{split_words, words};
use crate::editor::{lemma_split_lines_nonempty, split_lines_from};
use crate::keybindings::split_words_from;
use crate::text::{chars_eq, chars_of, push_str_chars, spec_is_whitespace, string_from_chars};

verus! {

/// `sep`-separated pieces of `s`, scanning from the left with the piece in
/// progress `cur` and the finished pieces `acc`.
pub open spec fn pieces_from(s: Seq<char>, sep: char, cur: Seq<char>, acc: Seq<Seq<char>>) -> Seq<Seq<char>>
    decreases s.len(),
{
    if s.len() == 0 {
        acc.push(cur)
    } else if s[0] == sep {
        pieces_from(s.skip(1), sep, Seq::empty(), acc.push(cur))
    } else {
        pieces_from(s.skip(1), sep, cur.push(s[0]), acc)
    }
}

/// The `sep`-separated pieces of `s`, empty ones included.
pub open spec fn pieces(s: Seq<char>, sep: char) -> Seq<Seq<char>> {
    pieces_from(s, sep, Seq::empty(), Seq::empty())
}

/// Whether a line's host field (comma-separated names) names `host`.
pub open spec fn names_host(field: Seq<char>, host: Seq<char>) -> bool {
    pieces(field, ',').contains(host)
}

/// What the known-hosts `lines` say of `host` presenting a key of type
/// `key_type` with data `key_data`: the first line with a host field naming
/// the host and a type and key after it decides (the key is accepted when
/// both match); `None` when no line speaks of the host.
pub open spec fn known_host_verdict(lines: Seq<Seq<char>>, host: Seq<char>, key_type: Seq<char>, key_data: Seq<
    char,
>) -> Option<bool>
    decreases lines.len(),
{
    if lines.len() == 0 {
        None
    } else {
        let f = words(lines[0]);
        if f.len() >= 3 && names_host(f[0], host) {
            Some(f[1] == key_type && f[2] == key_data)
        } else {
            known_host_verdict(lines.drop_first(), host, key_type, key_data)
        }
    }
}

/// The key type and key data of a public key in OpenSSH form: the text up
/// to the first space, and the rest after it (empty when there is no space).
pub open spec fn openssh_parts(key: Seq<char>) -> (Seq<char>, Seq<char>) {
    match key.index_of_first(' ') {
        Some(i) => (key.take(i), key.skip(i + 1)),
        None => (key, Seq::empty()),
    }
}

/// The line recorded for a newly trusted host key.
pub open spec fn known_hosts_line(host: Seq<char>, key_type: Seq<char>, key_data: Seq<char>) -> Seq<char> {
    host + " "@ + key_type + " "@ + key_data
}

/// The `sep`-separated pieces of `cs`.
fn split_pieces(cs: &Vec<char>, sep: char) -> (out: Vec<Vec<char>>)
    ensures
        out@.map_values(|p: Vec<char>| p@) == pieces(cs@, sep),
{
    let mut out: Vec<Vec<char>> = Vec::new();
    let mut cur: Vec<char> = Vec::new();
    let mut i: usize = 0;
    assert(cs@.skip(0) =~= cs@);
    assert(out@.map_values(|p: Vec<char>| p@) =~= Seq::<Seq<char>>::empty());
    while i < cs.len()
        invariant
            i <= cs@.len(),
            pieces_from(cs@.skip(i as int), sep, cur@, out@.map_values(|p: Vec<char>| p@)) == pieces(cs@, sep),
        decreases cs.len() - i,
    {
        let c = cs[i];
        let ghost s = cs@.skip(i as int);
        let ghost acc = out@.map_values(|p: Vec<char>| p@);
        proof {
            assert(s.skip(1) =~= cs@.skip(i + 1));
            assert(s[0] == c);
        }
        if c == sep {
            let ghost old_cur = cur@;
            let done = cur;
            out.push(done);
            cur = Vec::new();
            assert(out@.map_values(|p: Vec<char>| p@) =~= acc.push(old_cur));
            assert(cur@ =~= Seq::<char>::empty());
        } else {
            cur.push(c);
        }
        i = i + 1;
    }
    let ghost acc = out@.map_values(|p: Vec<char>| p@);
    let ghost old_cur = cur@;
    out.push(cur);
    assert(out@.map_values(|p: Vec<char>| p@) =~= acc.push(old_cur));
    out
}

/// Whether the host field `field` names `host`.
fn field_names_host(field: &Vec<char>, host: &Vec<char>) -> (b: bool)
    ensures
        b == names_host(field@, host@),
{
    let parts = split_pieces(field, ',');
    let ghost ps = parts@.map_values(|p: Vec<char>| p@);
    let mut i: usize = 0;
    while i < parts.len()
        invariant
            i <= parts@.len(),
            ps == parts@.map_values(|p: Vec<char>| p@),
            ps == pieces(field@, ','),
            forall|j: int| 0 <= j < i ==> ps[j] != host@,
        decreases parts.len() - i,
    {
        if chars_eq(&parts[i], host) {
            assert(ps[i as int] == host@);
            return true;
        }
        i = i + 1;
    }
    proof {
        if ps.contains(host@) {
            let j = choose|j: int| 0 <= j < ps.len() && ps[j] == host@;
            assert(ps[j] != host@);
        }
    }
    false
}

/// What the known-hosts file `contents` says of `host` presenting the key
/// `key_type key_data`: accepted, refused, or not known.
pub fn check_known_host(contents: &str, host: &str, key_type: &str, key_data: &str) -> (r: Option<bool>)
    ensures
        r == known_host_verdict(lines_of(contents@), host@, key_type@, key_data@),
{
    let lines = split_lines(contents);
    let ghost ls = lines@.map_values(|l: Vec<char>| l@);
    let h = chars_of(host);
    let kt = chars_of(key_type);
    let kd = chars_of(key_data);
    let mut i: usize = 0;
    assert(ls.skip(0) =~= ls);
    while i < lines.len()
        invariant
            i <= lines@.len(),
            ls == lines@.map_values(|l: Vec<char>| l@),
            ls == lines_of(contents@),
            h@ == host@,
            kt@ == key_type@,
            kd@ == key_data@,
            known_host_verdict(ls, host@, key_type@, key_data@) == known_host_verdict(
                ls.skip(i as int),
                host@,
                key_type@,
                key_data@,
            ),
        decreases lines.len() - i,
    {
        let f = split_words(&lines[i]);
        let ghost fs = f@.map_values(|t: Vec<char>| t@);
        proof {
            assert(ls.skip(i as int)[0] == lines@[i as int]@);
            assert(ls.skip(i as int).drop_first() =~= ls.skip(i + 1));
        }
        if f.len() >= 3 && field_names_host(&f[0], &h) {
            proof {
                assert(fs[0] == f@[0]@ && fs[1] == f@[1]@ && fs[2] == f@[2]@);
            }
            let same = chars_eq(&f[1], &kt) && chars_eq(&f[2], &kd);
            return Some(same);
        }
        proof {
            if fs.len() >= 3 {
                assert(fs[0] == f@[0]@);
            }
        }
        i = i + 1;
    }
    None
}

/// The key type and key data of a public key in OpenSSH form.
pub fn openssh_fields(key: &str) -> (r: (String, String))
    ensures
        (r.0@, r.1@) == openssh_parts(key@),
{
    let cs = chars_of(key);
    let mut i: usize = 0;
    while i < cs.len() && cs[i] != ' '
        invariant
            i <= cs@.len(),
            cs@ == key@,
            forall|j: int| 0 <= j < i ==> cs@[j] != ' ',
        decreases cs.len() - i,
    {
        i = i + 1;
    }
    let mut t: Vec<char> = Vec::new();
    let mut j: usize = 0;
    while j < i
        invariant
            j <= i <= cs@.len(),
            t@ == cs@.take(j as int),
        decreases i - j,
    {
        t.push(cs[j]);
        assert(t@ =~= cs@.take(j + 1));
        j = j + 1;
    }
    let mut d: Vec<char> = Vec::new();
    if i < cs.len() {
        let mut k: usize = i + 1;
        while k < cs.len()
            invariant
                i + 1 <= k <= cs@.len(),
                d@ == cs@.subrange(i + 1, k as int),
            decreases cs.len() - k,
        {
            d.push(cs[k]);
            assert(d@ =~= cs@.subrange(i + 1, k + 1));
            k = k + 1;
        }
        assert(d@ =~= cs@.skip(i + 1));
    }
    proof {
        key@.index_of_first_ensures(' ');
        match key@.index_of_first(' ') {
            Some(x) => {
                assert(i < cs@.len());
                assert(x == i);
            },
            None => {
                if i < cs@.len() {
                    assert(key@.contains(' ')) by {
                        assert(key@[i as int] == ' ');
                    }
                }
                assert(cs@.take(i as int) =~= key@);
                assert(d@ =~= Seq::<char>::empty());
            },
        }
    }
    (string_from_chars(&t), string_from_chars(&d))
}

/// Check the key that `host` presents, given in OpenSSH form, against the
/// known-hosts file. `contents` is the file's text when it could be read.
/// A line for the host decides; a host with no line is trusted and its key
/// handed to `record` to be appended, whose failure is returned.
pub fn verify_known_host<F: FnOnce(&str) -> Result<(), String>>(
    host: &str,
    key: &str,
    contents: Option<String>,
    record: F,
) -> (r: Result<bool, String>)
    requires
        forall|l: &str| record.requires((l,)),
    ensures
        ({
            let (kt, kd) = openssh_parts(key@);
            let verdict = match contents {
                Some(c) => known_host_verdict(lines_of(c@), host@, kt, kd),
                None => None,
            };
            match verdict {
                Some(ok) => r == Ok::<bool, String>(ok),
                None => exists|l: &str, w: Result<(), String>|
                    {
                        &&& l@ == known_hosts_line(host@, kt, kd)
                        &&& #[trigger] record.ensures((l,), w)
                        &&& match w {
                            Ok(()) => r == Ok::<bool, String>(true),
                            Err(e) => r == Err::<bool, String>(e),
                        }
                    },
            }
        }),
{
    let (kt, kd) = openssh_fields(key);
    let verdict = match &contents {
        Some(c) => check_known_host(c.as_str(), host, kt.as_str(), kd.as_str()),
        None => None,
    };
    match verdict {
        Some(ok) => Ok(ok),
        None => {
            proof {
                broadcast use vstd::string::group_string_axioms;
            }
            let mut line = string_from_chars(&chars_of(host));
            push_str_chars(&mut line, " ");
            push_str_chars(&mut line, kt.as_str());
            push_str_chars(&mut line, " ");
            push_str_chars(&mut line, kd.as_str());
            match record(line.as_str()) {
                Ok(()) => Ok(true),
                Err(e) => Err(e),
            }
        },
    }
}


/// Whether `w` holds no whitespace.
pub open spec fn no_whitespace(w: Seq<char>) -> bool {
    forall|i: int| 0 <= i < w.len() ==> !spec_is_whitespace(#[trigger] w[i])
}

/// Splitting a concatenation into lines continues from where the first
/// part left off.
proof fn lemma_split_lines_append(s: Seq<char>, t: Seq<char>, cur: Seq<char>, acc: Seq<Seq<char>>)
    ensures
        split_lines_from(s + t, cur, acc) == split_lines_from(
            t,
            split_lines_from(s, cur, acc).last(),
            split_lines_from(s, cur, acc).drop_last(),
        ),
    decreases s.len(),
{
    if s.len() == 0 {
        assert(s + t =~= t);
        assert(acc.push(cur).drop_last() =~= acc);
    } else {
        assert((s + t).skip(1) =~= s.skip(1) + t);
        assert((s + t)[0] == s[0]);
        if s[0] == '\n' {
            lemma_split_lines_append(s.skip(1), t, Seq::empty(), acc.push(cur));
        } else {
            lemma_split_lines_append(s.skip(1), t, cur.push(s[0]), acc);
        }
    }
}

/// A text that ends in a newline splits with an empty last line.
proof fn lemma_split_lines_last_empty(s: Seq<char>, cur: Seq<char>, acc: Seq<Seq<char>>)
    requires
        s.len() > 0,
        s.last() == '\n',
    ensures
        split_lines_from(s, cur, acc).last() == Seq::<char>::empty(),
    decreases s.len(),
{
    if s.len() == 1 {
        assert(s[0] == '\n');
        assert(s.skip(1) =~= Seq::<char>::empty());
        assert(split_lines_from(s.skip(1), Seq::empty(), acc.push(cur)) == acc.push(cur).push(Seq::empty()));
    } else {
        assert(s.skip(1).last() == s.last());
        if s[0] == '\n' {
            lemma_split_lines_last_empty(s.skip(1), Seq::empty(), acc.push(cur));
        } else {
            lemma_split_lines_last_empty(s.skip(1), cur.push(s[0]), acc);
        }
    }
}

/// A line without a newline, then a newline, adds that line and an empty
/// one.
proof fn lemma_split_one_line(x: Seq<char>, cur: Seq<char>, acc: Seq<Seq<char>>)
    requires
        !x.contains('\n'),
    ensures
        split_lines_from(x + seq!['\n'], cur, acc) == acc.push(cur + x).push(Seq::<char>::empty()),
    decreases x.len(),
{
    if x.len() == 0 {
        let nl = seq!['\n'];
        assert(x + nl =~= nl);
        assert(nl.skip(1) =~= Seq::<char>::empty());
        assert(nl[0] == '\n');
        assert(split_lines_from(nl.skip(1), Seq::empty(), acc.push(cur)) == acc.push(cur).push(Seq::empty()));
        assert(split_lines_from(nl, cur, acc) == split_lines_from(nl.skip(1), Seq::empty(), acc.push(cur)));
        assert(cur + x =~= cur);
    } else {
        assert((x + seq!['\n'])[0] == x[0]);
        assert((x + seq!['\n']).skip(1) =~= x.skip(1) + seq!['\n']);
        assert(!x.skip(1).contains('\n')) by {
            if x.skip(1).contains('\n') {
                let j = choose|j: int| 0 <= j < x.skip(1).len() && x.skip(1)[j] == '\n';
                assert(x[j + 1] == '\n');
            }
        }
        assert(x[0] != '\n') by {
            if x[0] == '\n' {
                assert(x.contains('\n'));
            }
        }
        lemma_split_one_line(x.skip(1), cur.push(x[0]), acc);
        assert(cur.push(x[0]) + x.skip(1) =~= cur + x);
    }
}

/// A run of non-whitespace extends the word in progress.
proof fn lemma_words_run(w: Seq<char>, rest: Seq<char>, cur: Seq<char>, acc: Seq<Seq<char>>)
    requires
        no_whitespace(w),
    ensures
        split_words_from(w + rest, cur, acc) == split_words_from(rest, cur + w, acc),
    decreases w.len(),
{
    if w.len() == 0 {
        assert(w + rest =~= rest);
        assert(cur + w =~= cur);
    } else {
        assert((w + rest)[0] == w[0]);
        assert(!spec_is_whitespace(w[0]));
        assert((w + rest).skip(1) =~= w.skip(1) + rest);
        assert(no_whitespace(w.skip(1))) by {
            assert forall|i: int| 0 <= i < w.skip(1).len() implies !spec_is_whitespace(#[trigger] w.skip(1)[i]) by {
                assert(w.skip(1)[i] == w[i + 1]);
            }
        }
        lemma_words_run(w.skip(1), rest, cur.push(w[0]), acc);
        assert(cur.push(w[0]) + w.skip(1) =~= cur + w);
    }
}

/// The words of `a b c` for three words without whitespace.
proof fn lemma_three_words(a: Seq<char>, b: Seq<char>, c: Seq<char>)
    requires
        a.len() > 0,
        b.len() > 0,
        c.len() > 0,
        no_whitespace(a),
        no_whitespace(b),
        no_whitespace(c),
    ensures
        words(a + seq![' '] + b + seq![' '] + c) == seq![a, b, c],
{
    let e = Seq::<char>::empty();
    let es = Seq::<Seq<char>>::empty();
    let t3 = seq![' '] + c;
    let t2 = b + t3;
    let t1 = seq![' '] + t2;
    assert(spec_is_whitespace(' '));
    assert(a + seq![' '] + b + seq![' '] + c =~= a + t1);
    lemma_words_run(a, t1, e, es);
    assert(e + a =~= a);
    assert(t1[0] == ' ');
    assert(t1.skip(1) =~= t2);
    assert(split_words_from(t1, a, es) == split_words_from(t2, e, es.push(a)));
    lemma_words_run(b, t3, e, es.push(a));
    assert(e + b =~= b);
    assert(t3[0] == ' ');
    assert(t3.skip(1) =~= c);
    assert(split_words_from(t3, b, es.push(a)) == split_words_from(c, e, es.push(a).push(b)));
    assert(c + e =~= c);
    lemma_words_run(c, e, e, es.push(a).push(b));
    assert(e + c =~= c);
    assert(split_words_from(e, c, es.push(a).push(b)) == es.push(a).push(b).push(c));
    assert(es.push(a).push(b).push(c) =~= seq![a, b, c]);
}

/// A name without commas is its own only piece.
proof fn lemma_pieces_plain(w: Seq<char>, sep: char, cur: Seq<char>, acc: Seq<Seq<char>>)
    requires
        !w.contains(sep),
    ensures
        pieces_from(w, sep, cur, acc) == acc.push(cur + w),
    decreases w.len(),
{
    if w.len() == 0 {
        assert(cur + w =~= cur);
    } else {
        assert(w[0] != sep) by {
            if w[0] == sep {
                assert(w.contains(sep));
            }
        }
        assert(!w.skip(1).contains(sep)) by {
            if w.skip(1).contains(sep) {
                let j = choose|j: int| 0 <= j < w.skip(1).len() && w.skip(1)[j] == sep;
                assert(w[j + 1] == sep);
            }
        }
        lemma_pieces_plain(w.skip(1), sep, cur.push(w[0]), acc);
        assert(cur.push(w[0]) + w.skip(1) =~= cur + w);
    }
}

/// The verdict over two runs of lines: the first run decides if it can.
proof fn lemma_verdict_append(a: Seq<Seq<char>>, b: Seq<Seq<char>>, h: Seq<char>, kt: Seq<char>, kd: Seq<char>)
    ensures
        known_host_verdict(a + b, h, kt, kd) == match known_host_verdict(a, h, kt, kd) {
            Some(v) => Some(v),
            None => known_host_verdict(b, h, kt, kd),
        },
    decreases a.len(),
{
    if a.len() == 0 {
        assert(a + b =~= b);
    } else {
        assert((a + b)[0] == a[0]);
        assert((a + b).drop_first() =~= a.drop_first() + b);
        lemma_verdict_append(a.drop_first(), b, h, kt, kd);
    }
}

/// Trust on first use: once the line for a host that no earlier line
/// speaks of is appended to a known-hosts text (one that is empty or ends
/// in a newline), that host is accepted exactly when it presents the
/// recorded key type and data.
pub proof fn lemma_recorded_key_decides(
    contents: Seq<char>,
    host: Seq<char>,
    key_type: Seq<char>,
    key_data: Seq<char>,
    shown_type: Seq<char>,
    shown_data: Seq<char>,
)
    requires
        contents.len() == 0 || contents.last() == '\n',
        known_host_verdict(lines_of(contents), host, key_type, key_data) is None,
        host.len() > 0 && key_type.len() > 0 && key_data.len() > 0,
        no_whitespace(host) && no_whitespace(key_type) && no_whitespace(key_data),
        !host.contains(','),
    ensures
        known_host_verdict(
            lines_of(contents + known_hosts_line(host, key_type, key_data) + seq!['\n']),
            host,
            shown_type,
            shown_data,
        ) == Some(shown_type == key_type && shown_data == key_data),
{
    reveal_strlit(" ");
    let x = known_hosts_line(host, key_type, key_data);
    assert(x =~= host + seq![' '] + key_type + seq![' '] + key_data);
    let r = lines_of(contents);
    assert(!x.contains('\n')) by {
        if x.contains('\n') {
            let j = choose|j: int| 0 <= j < x.len() && x[j] == '\n';
            assert(spec_is_whitespace('\n'));
            if j < host.len() {
                assert(host[j] == '\n');
            } else if j == host.len() {
            } else if j < host.len() + 1 + key_type.len() {
                assert(key_type[j - host.len() - 1] == '\n');
            } else if j == host.len() + 1 + key_type.len() {
            } else {
                assert(key_data[j - host.len() - 2 - key_type.len()] == '\n');
            }
        }
    }
    assert(contents + x + seq!['\n'] =~= contents + (x + seq!['\n']));
    lemma_split_lines_append(contents, x + seq!['\n'], Seq::empty(), Seq::empty());
    lemma_split_lines_nonempty(contents, Seq::empty(), Seq::empty());
    if contents.len() == 0 {
        assert(r == seq![Seq::<char>::empty()]);
    } else {
        lemma_split_lines_last_empty(contents, Seq::empty(), Seq::empty());
    }
    assert(r.last() == Seq::<char>::empty());
    lemma_split_one_line(x, Seq::empty(), r.drop_last());
    let all = r.drop_last().push(x).push(Seq::<char>::empty());
    assert(Seq::<char>::empty() + x =~= x);
    assert(lines_of(contents + x + seq!['\n']) == all);
    // The earlier lines say nothing of the host.
    assert(r =~= r.drop_last() + seq![Seq::<char>::empty()]);
    lemma_verdict_append(r.drop_last(), seq![Seq::<char>::empty()], host, key_type, key_data);
    assert(words(Seq::<char>::empty()) == Seq::<Seq<char>>::empty());
    assert(seq![Seq::<char>::empty()].drop_first() =~= Seq::<Seq<char>>::empty());
    assert(known_host_verdict(r.drop_last(), host, key_type, key_data) is None);
    // Whether they say nothing does not depend on the key shown.
    assert(known_host_verdict(r.drop_last(), host, shown_type, shown_data) is None) by {
        lemma_verdict_key_free(r.drop_last(), host, key_type, key_data, shown_type, shown_data);
    }
    assert(all =~= r.drop_last() + seq![x, Seq::<char>::empty()]);
    lemma_verdict_append(r.drop_last(), seq![x, Seq::<char>::empty()], host, shown_type, shown_data);
    lemma_three_words(host, key_type, key_data);
    lemma_pieces_plain(host, ',', Seq::empty(), Seq::empty());
    assert(Seq::<char>::empty() + host =~= host);
    assert(pieces(host, ',') =~= seq![host]);
    assert(pieces(host, ',')[0] == host);
    assert(names_host(host, host));
}

/// Whether the lines speak of a host at all does not depend on the key.
proof fn lemma_verdict_key_free(
    lines: Seq<Seq<char>>,
    h: Seq<char>,
    kt: Seq<char>,
    kd: Seq<char>,
    kt2: Seq<char>,
    kd2: Seq<char>,
)
    ensures
        known_host_verdict(lines, h, kt, kd) is None <==> known_host_verdict(lines, h, kt2, kd2) is None,
    decreases lines.len(),
{
    if lines.len() > 0 {
        lemma_verdict_key_free(lines.drop_first(), h, kt, kd, kt2, kd2);
    }
}

} // verus!
