//! What the cargo tab reads from `Cargo.toml` files: the workspace members
//! of the root manifest (with `*` and `?` patterns expanded over the
//! workspace's directories) and the package name of each member's manifest.

use vstd::prelude::*;
use crate::listing::{contains_string, first_appearances};
use crate::text::{
    chars_of, find_char, find_char_in, lemma_find_char_range, find_str, find_str_in, lines, next_line, split, starts_with_at,
    strip, strip_range, strip_start, substring, trim, CharClass,
};

verus! {

/// The text of the `members = [...]` array: after the first `[workspace]`,
/// after the first `members` that follows it, between the first `[` and the
/// first `]` that follow that. There is none when that `]` comes before
/// that `[`.
pub open spec fn members_array(content: Seq<char>) -> Option<Seq<char>> {
    match find_str(content, "[workspace]"@) {
        None => None,
        Some(a) => {
            let s1 = content.skip(a);
            match find_str(s1, "members"@) {
                None => None,
                Some(b) => {
                    let s2 = s1.skip(b);
                    match (find_char(s2, '['), find_char(s2, ']')) {
                        (Some(p), Some(q)) => if p < q {
                            Some(s2.subrange(p + 1, q))
                        } else {
                            None
                        },
                        _ => None,
                    }
                },
            }
        },
    }
}

/// A member entry without surrounding whitespace and quotes:
/// `trim().trim_matches('"').trim_matches('\'').trim()`.
pub open spec fn member_name(entry: Seq<char>) -> Seq<char> {
    trim(strip(strip(trim(entry), CharClass::Exactly('"')), CharClass::Exactly('\'')))
}

/// The non-empty member names among the comma-separated pieces.
pub open spec fn member_names(pieces: Seq<Seq<char>>) -> Seq<Seq<char>>
    decreases pieces.len(),
{
    if pieces.len() == 0 {
        seq![]
    } else {
        let n = member_name(pieces[0]);
        if n.len() > 0 {
            seq![n] + member_names(pieces.drop_first())
        } else {
            member_names(pieces.drop_first())
        }
    }
}

/// The member paths that a root manifest lists.
pub open spec fn workspace_member_paths(content: Seq<char>) -> Seq<Seq<char>> {
    match members_array(content) {
        None => seq![],
        Some(arr) => member_names(split(arr, ',')),
    }
}

enum Located {
    Missing,
    Found(usize, usize),
}

/// Where the members array lies in `content`.
fn locate_members_array(content: &str) -> (r: Located)
    ensures
        r is Missing ==> members_array(content@) is None,
        r matches Located::Found(x, y) ==> x <= y <= content@.len() && members_array(content@)
            == Some(content@.subrange(x as int, y as int)),
{
    let v = chars_of(content);
    let n = v.len();
    let ws = chars_of("[workspace]");
    let members = chars_of("members");
    assert(content@.subrange(0, n as int) =~= content@);
    let a = match find_str_in(&v, 0, n, &ws) {
        Some(a) => a,
        None => return Located::Missing,
    };
    let ghost s1 = content@.skip(a as int);
    assert(s1 =~= v@.subrange(a as int, n as int));
    let b = match find_str_in(&v, a, n, &members) {
        Some(b) => b,
        None => return Located::Missing,
    };
    let ghost s2 = s1.skip(b - a);
    assert(s2 =~= v@.subrange(b as int, n as int));
    let p = find_char_in(&v, b, n, '[');
    let q = find_char_in(&v, b, n, ']');
    match (p, q) {
        (Some(p), Some(q)) => {
            if q < p {
                Located::Missing
            } else {
                assert(s2.subrange(p - b + 1, q - b) =~= v@.subrange(p + 1, q as int));
                Located::Found(p + 1, q)
            }
        },
        _ => Located::Missing,
    }
}

/// The workspace members that the root manifest `content` lists, as
/// written there, without whitespace or quotes; empty entries are skipped.
/// A manifest without a members array, or whose array cannot be cut out,
/// lists none.
pub fn workspace_members(content: &str) -> (r: Vec<String>)
    ensures
        r.deep_view() == workspace_member_paths(content@),
{
    let (lo, hi) = match locate_members_array(content) {
        Located::Found(x, y) => (x, y),
        _ => return Vec::new(),
    };
    let v = chars_of(content);
    let ghost total = member_names(split(v@.subrange(lo as int, hi as int), ','));
    let mut out: Vec<String> = Vec::new();
    let mut start = lo;
    let mut more = true;
    while more
        invariant
            v@ == content@,
            lo <= start <= hi <= v@.len(),
            total == member_names(split(v@.subrange(lo as int, hi as int), ',')),
            more ==> total == out.deep_view() + member_names(
                split(v@.subrange(start as int, hi as int), ','),
            ),
            !more ==> total == out.deep_view(),
        decreases hi - start + if more {
            1int
        } else {
            0int
        },
    {
        let ghost rest = v@.subrange(start as int, hi as int);
        let ghost before = out.deep_view();
        let (end, next, last) = match find_char_in(&v, start, hi, ',') {
            Some(k) => (k, k + 1, false),
            None => (hi, hi, true),
        };
        let ghost piece = v@.subrange(start as int, end as int);
        proof {
            if !last {
                assert(rest.take(end - start) =~= piece);
                assert(rest.skip(end - start + 1) =~= v@.subrange(next as int, hi as int));
            } else {
                assert(rest =~= piece);
            }
            let ps = split(rest, ',');
            assert(ps[0] == piece);
            if !last {
                assert(ps.drop_first() =~= split(v@.subrange(next as int, hi as int), ','));
            } else {
                assert(ps.drop_first() =~= Seq::<Seq<char>>::empty());
            }
        }
        let (a0, a1) = strip_range(&v, start, end, CharClass::Whitespace);
        let (b0, b1) = strip_range(&v, a0, a1, CharClass::Exactly('"'));
        let (c0, c1) = strip_range(&v, b0, b1, CharClass::Exactly('\''));
        let (d0, d1) = strip_range(&v, c0, c1, CharClass::Whitespace);
        if d0 < d1 {
            out.push(substring(content, d0, d1));
            assert(out.deep_view() =~= before + seq![member_name(piece)]);
        }
        proof {
            let ps = split(rest, ',');
            if d0 < d1 {
                assert(member_names(ps) == seq![member_name(piece)] + member_names(
                    ps.drop_first(),
                ));
            }
            if last {
                assert(member_names(Seq::<Seq<char>>::empty()) == Seq::<Seq<char>>::empty());
                assert(out.deep_view() + Seq::<Seq<char>>::empty() =~= out.deep_view());
            }
        }
        start = next;
        if last {
            more = false;
        }
    }
    out
}

/// A member path is a pattern when it holds `*` or `?`.
pub open spec fn is_pattern(m: Seq<char>) -> bool {
    m.contains('*') || m.contains('?')
}

/// Whether `path` matches the member pattern `pat`: `*` stands for any run
/// of characters and `?` for one character, neither of them `/`; every
/// other character stands for itself.
pub open spec fn glob_match(pat: Seq<char>, path: Seq<char>) -> bool
    decreases pat.len(), path.len(),
{
    if pat.len() == 0 {
        path.len() == 0
    } else if pat[0] == '*' {
        glob_match(pat.drop_first(), path) || (path.len() > 0 && path[0] != '/' && glob_match(
            pat,
            path.drop_first(),
        ))
    } else if pat[0] == '?' {
        path.len() > 0 && path[0] != '/' && glob_match(pat.drop_first(), path.drop_first())
    } else {
        path.len() > 0 && path[0] == pat[0] && glob_match(pat.drop_first(), path.drop_first())
    }
}

/// The directories among `dirs` that match `pat`, in order.
pub open spec fn matching_dirs(pat: Seq<char>, dirs: Seq<Seq<char>>) -> Seq<Seq<char>>
    decreases dirs.len(),
{
    if dirs.len() == 0 {
        seq![]
    } else {
        let r = matching_dirs(pat, dirs.drop_last());
        if glob_match(pat, dirs.last()) {
            r.push(dirs.last())
        } else {
            r
        }
    }
}

/// Each member in turn: a plain path as it is, a pattern as the directories
/// that it matches.
pub open spec fn member_dirs(members: Seq<Seq<char>>, dirs: Seq<Seq<char>>) -> Seq<Seq<char>>
    decreases members.len(),
{
    if members.len() == 0 {
        seq![]
    } else {
        let r = member_dirs(members.drop_last(), dirs);
        let m = members.last();
        if is_pattern(m) {
            r + matching_dirs(m, dirs)
        } else {
            r.push(m)
        }
    }
}

/// The member directories of a workspace: the members with their patterns
/// expanded over `dirs`, each directory once, where it first appears.
pub open spec fn expanded_members(members: Seq<Seq<char>>, dirs: Seq<Seq<char>>) -> Seq<Seq<char>> {
    first_appearances(member_dirs(members, dirs))
}

/// Whether `s[j..]` matches `p[i..]`.
fn glob_match_from(p: &Vec<char>, i: usize, s: &Vec<char>, j: usize) -> (b: bool)
    requires
        i <= p@.len(),
        j <= s@.len(),
    ensures
        b == glob_match(p@.skip(i as int), s@.skip(j as int)),
    decreases p@.len() - i, s@.len() - j,
{
    let ghost ps = p@.skip(i as int);
    let ghost ss = s@.skip(j as int);
    if i == p.len() {
        assert(ps.len() == 0);
        return j == s.len();
    }
    assert(ps[0] == p@[i as int]);
    assert(ps.drop_first() =~= p@.skip(i + 1));
    if j < s.len() {
        assert(ss[0] == s@[j as int]);
        assert(ss.drop_first() =~= s@.skip(j + 1));
    }
    if p[i] == '*' {
        if glob_match_from(p, i + 1, s, j) {
            return true;
        }
        j < s.len() && s[j] != '/' && glob_match_from(p, i, s, j + 1)
    } else if p[i] == '?' {
        j < s.len() && s[j] != '/' && glob_match_from(p, i + 1, s, j + 1)
    } else {
        j < s.len() && s[j] == p[i] && glob_match_from(p, i + 1, s, j + 1)
    }
}

/// Whether `path` matches the member pattern `pat`.
pub fn glob_matches(pat: &str, path: &str) -> (b: bool)
    ensures
        b == glob_match(pat@, path@),
{
    let p = chars_of(pat);
    let s = chars_of(path);
    assert(p@.skip(0) =~= p@);
    assert(s@.skip(0) =~= s@);
    glob_match_from(&p, 0, &s, 0)
}

/// Whether the member path is a pattern.
fn pattern_member(m: &str) -> (b: bool)
    ensures
        b == is_pattern(m@),
{
    let v = chars_of(m);
    let n = v.len();
    assert(v@.subrange(0, n as int) =~= m@);
    let star = find_char_in(&v, 0, n, '*');
    let question = find_char_in(&v, 0, n, '?');
    proof {
        lemma_find_char_range(m@, '*');
        lemma_find_char_range(m@, '?');
        if let Some(k) = find_char(m@, '*') {
            assert(m@[k] == '*');
        }
        if let Some(k) = find_char(m@, '?') {
            assert(m@[k] == '?');
        }
    }
    star.is_some() || question.is_some()
}

/// The member directories of a workspace: each member that is a plain path
/// as it is, and for a member with `*` or `?` the directories among `dirs`
/// (paths relative to the workspace root, `/`-separated) that it matches,
/// in their order; a directory that comes up twice is kept once.
pub fn expand_members(members: &Vec<String>, dirs: &Vec<String>) -> (r: Vec<String>)
    ensures
        r.deep_view() == expanded_members(members.deep_view(), dirs.deep_view()),
{
    let ghost ms = members.deep_view();
    let ghost ds = dirs.deep_view();
    let mut out: Vec<String> = Vec::new();
    let mut i: usize = 0;
    while i < members.len()
        invariant
            i <= members@.len(),
            ms == members.deep_view(),
            ds == dirs.deep_view(),
            out.deep_view() == first_appearances(member_dirs(ms.take(i as int), ds)),
        decreases members@.len() - i,
    {
        assert(ms.take(i + 1).drop_last() =~= ms.take(i as int));
        assert(ms.take(i + 1).last() == ms[i as int]);
        let ghost done = member_dirs(ms.take(i as int), ds);
        let m = &members[i];
        if pattern_member(m.as_str()) {
            let mut j: usize = 0;
            while j < dirs.len()
                invariant
                    j <= dirs@.len(),
                    ds == dirs.deep_view(),
                    m@ == ms[i as int],
                    out.deep_view() == first_appearances(
                        done + matching_dirs(ms[i as int], ds.take(j as int)),
                    ),
                decreases dirs@.len() - j,
            {
                assert(ds.take(j + 1).drop_last() =~= ds.take(j as int));
                assert(ds.take(j + 1).last() == ds[j as int]);
                let ghost before = done + matching_dirs(ms[i as int], ds.take(j as int));
                if glob_matches(m.as_str(), dirs[j].as_str()) {
                    assert(done + matching_dirs(ms[i as int], ds.take(j + 1)) =~= before.push(
                        ds[j as int],
                    ));
                    assert(before.push(ds[j as int]).drop_last() =~= before);
                    if !contains_string(&out, &dirs[j]) {
                        let ghost o = out.deep_view();
                        out.push(dirs[j].clone());
                        assert(out.deep_view() =~= o.push(ds[j as int]));
                    }
                } else {
                    assert(done + matching_dirs(ms[i as int], ds.take(j + 1)) =~= before);
                }
                j = j + 1;
            }
            assert(ds.take(j as int) =~= ds);
        } else {
            let ghost whole = done.push(ms[i as int]);
            assert(whole.drop_last() =~= done);
            if !contains_string(&out, m) {
                let ghost o = out.deep_view();
                out.push(m.clone());
                assert(out.deep_view() =~= o.push(ms[i as int]));
            }
        }
        i = i + 1;
    }
    assert(ms.take(i as int) =~= ms);
    out
}

/// The number of `/` in `m`.
pub open spec fn slash_count(m: Seq<char>) -> nat
    decreases m.len(),
{
    if m.len() == 0 {
        0
    } else {
        (if m[0] == '/' {
            1nat
        } else {
            0nat
        }) + slash_count(m.drop_first())
    }
}

/// The most `/` that a pattern among `members` holds, or `None` when no
/// member is a pattern.
pub open spec fn deepest_pattern(members: Seq<Seq<char>>) -> Option<nat>
    decreases members.len(),
{
    if members.len() == 0 {
        None
    } else {
        let r = deepest_pattern(members.drop_last());
        let m = members.last();
        if is_pattern(m) {
            match r {
                Some(d) => Some(
                    if d >= slash_count(m) {
                        d
                    } else {
                        slash_count(m)
                    },
                ),
                None => Some(slash_count(m)),
            }
        } else {
            r
        }
    }
}

/// A path that a pattern matches holds as many `/` as the pattern: a
/// pattern with `k` of them matches only directories `k + 1` levels below
/// the workspace root, so listing that deep finds every match.
pub proof fn lemma_match_depth(pat: Seq<char>, path: Seq<char>)
    requires
        glob_match(pat, path),
    ensures
        slash_count(path) == slash_count(pat),
    decreases pat.len(), path.len(),
{
    if pat.len() == 0 {
    } else if pat[0] == '*' {
        if glob_match(pat.drop_first(), path) {
            lemma_match_depth(pat.drop_first(), path);
        } else {
            lemma_match_depth(pat, path.drop_first());
        }
    } else {
        lemma_match_depth(pat.drop_first(), path.drop_first());
    }
}

/// The number of `/` in `m`.
fn slashes(m: &str) -> (n: usize)
    ensures
        n == slash_count(m@),
{
    let v = chars_of(m);
    let n = v.len();
    let mut i = n;
    let mut count: usize = 0;
    assert(v@.skip(i as int) =~= Seq::<char>::empty());
    while i > 0
        invariant
            i <= n,
            n == v@.len(),
            v@ == m@,
            count == slash_count(v@.skip(i as int)),
            count <= v@.len() - i,
        decreases i,
    {
        let ghost rest = v@.skip(i - 1);
        assert(rest[0] == v@[i - 1]);
        assert(rest.drop_first() =~= v@.skip(i as int));
        if v[i - 1] == '/' {
            count = count + 1;
        }
        i = i - 1;
    }
    assert(v@.skip(0) =~= v@);
    count
}

/// How deep the workspace's directories must be listed for the member
/// patterns: the most `/` that a pattern member holds (its matches lie one
/// level deeper than that), or `None` when no member is a pattern.
pub fn pattern_depth(members: &Vec<String>) -> (r: Option<usize>)
    ensures
        match r {
            Some(d) => deepest_pattern(members.deep_view()) == Some(d as nat),
            None => deepest_pattern(members.deep_view()) is None,
        },
{
    let ghost ms = members.deep_view();
    let mut deepest: Option<usize> = None;
    let mut i: usize = 0;
    while i < members.len()
        invariant
            i <= members@.len(),
            ms == members.deep_view(),
            match deepest {
                Some(d) => deepest_pattern(ms.take(i as int)) == Some(d as nat),
                None => deepest_pattern(ms.take(i as int)) is None,
            },
        decreases members@.len() - i,
    {
        assert(ms.take(i + 1).drop_last() =~= ms.take(i as int));
        assert(ms.take(i + 1).last() == ms[i as int]);
        if pattern_member(members[i].as_str()) {
            let k = slashes(members[i].as_str());
            deepest = match deepest {
                Some(d) => Some(
                    if d >= k {
                        d
                    } else {
                        k
                    },
                ),
                None => Some(k),
            };
        }
        i = i + 1;
    }
    assert(ms.take(i as int) =~= ms);
    deepest
}

/// The line declares the package name: after leading whitespace it starts
/// with `name`, and it holds a `=`.
pub open spec fn is_name_line(l: Seq<char>) -> bool {
    &&& "name"@.is_prefix_of(strip_start(l, CharClass::Whitespace))
    &&& l.contains('=')
}

/// The first name line among `ls`.
pub open spec fn first_name_line(ls: Seq<Seq<char>>) -> Option<Seq<char>>
    decreases ls.len(),
{
    if ls.len() == 0 {
        None
    } else if is_name_line(ls[0]) {
        Some(ls[0])
    } else {
        first_name_line(ls.drop_first())
    }
}

/// What follows the first `=` of the first name line, without whitespace
/// and double quotes, if that is not empty.
pub open spec fn package_name_of(content: Seq<char>) -> Option<Seq<char>> {
    match first_name_line(lines(content)) {
        None => None,
        Some(l) => match find_char(l, '=') {
            None => None,
            Some(e) => {
                let name = strip(trim(l.skip(e + 1)), CharClass::Exactly('"'));
                if name.len() > 0 {
                    Some(name)
                } else {
                    None
                }
            },
        },
    }
}

/// The package name that a member's manifest declares.
pub fn package_name(manifest: &str) -> (r: Option<String>)
    ensures
        r.deep_view() == package_name_of(manifest@),
{
    let v = chars_of(manifest);
    let n = v.len();
    let name_chars = chars_of("name");
    let mut start: usize = 0;
    assert(manifest@.skip(0) =~= manifest@);
    while start < n
        invariant
            v@ == manifest@,
            n == v@.len(),
            start <= n,
            name_chars@ == "name"@,
            first_name_line(lines(manifest@)) == first_name_line(
                lines(manifest@.skip(start as int)),
            ),
        decreases n - start,
    {
        let (end, next) = next_line(&v, start);
        let ghost l = v@.subrange(start as int, end as int);
        let ghost ls = lines(manifest@.skip(start as int));
        assert(ls[0] == l);
        assert(ls.drop_first() =~= lines(manifest@.skip(next as int)));
        let (a, _) = strip_range(&v, start, end, CharClass::Whitespace);
        let starts = starts_with_at(&v, a, end, &name_chars);
        let eq = find_char_in(&v, start, end, '=');
        proof {
            lemma_find_char_range(l, '=');
            if eq is None {
                if l.contains('=') {
                    let i = choose|i: int| 0 <= i < l.len() && l[i] == '=';
                    assert(l[i] == '=');
                }
            } else {
                let e = eq->0;
                assert(l[e - start] == '=');
            }
        }
        if starts && eq.is_some() {
            let e = eq.unwrap();
            let (b0, b1) = strip_range(&v, e + 1, end, CharClass::Whitespace);
            let (c0, c1) = strip_range(&v, b0, b1, CharClass::Exactly('"'));
            assert(l.skip(e - start + 1) =~= v@.subrange(e + 1, end as int));
            if c0 < c1 {
                return Some(substring(manifest, c0, c1));
            } else {
                return None;
            }
        }
        start = next;
    }
    assert(manifest@.skip(n as int) =~= Seq::<char>::empty());
    assert(lines(Seq::<char>::empty()) == Seq::<Seq<char>>::empty());
    None
}

} // verus!
