//! The task listing printed by `cargo xtask --list`: one task per line, in
//! the form `target|task_id|description`.

use vstd::prelude::*;
use crate::text::{
    chars_of, find_char, find_char_in, is_first, is_ws, lemma_find_char_some, lines, strip_cr, next_line, strip_range, substring, trim, CharClass,
};

use crate::state::is_first_index;

verus! {

/// One entry of the listing.
#[derive(Clone)]
pub struct TaskEntry {
    pub target: String,
    pub id: String,
    pub desc: String,
}

/// The mathematical value of a [`TaskEntry`].
pub struct TaskEntryView {
    pub target: Seq<char>,
    pub id: Seq<char>,
    pub desc: Seq<char>,
}

impl DeepView for TaskEntry {
    type V = TaskEntryView;

    open spec fn deep_view(&self) -> TaskEntryView {
        TaskEntryView { target: self.target@, id: self.id@, desc: self.desc@ }
    }
}

/// A listing line split as `splitn(3, '|')` splits it, each part trimmed;
/// `None` when the line has fewer than two `'|'`.
pub open spec fn parse_line(l: Seq<char>) -> Option<TaskEntryView> {
    match find_char(l, '|') {
        None => None,
        Some(p) => {
            let rest = l.skip(p + 1);
            match find_char(rest, '|') {
                None => None,
                Some(q) => Some(
                    TaskEntryView {
                        target: trim(l.take(p)),
                        id: trim(rest.take(q)),
                        desc: trim(rest.skip(q + 1)),
                    },
                ),
            }
        },
    }
}

/// The entries of the well-formed lines among `ls`, in order.
pub open spec fn entries_of_lines(ls: Seq<Seq<char>>) -> Seq<TaskEntryView>
    decreases ls.len(),
{
    if ls.len() == 0 {
        seq![]
    } else {
        match parse_line(ls[0]) {
            Some(e) => seq![e] + entries_of_lines(ls.drop_first()),
            None => entries_of_lines(ls.drop_first()),
        }
    }
}

/// The entries that a listing text describes.
pub open spec fn listing_entries(text: Seq<char>) -> Seq<TaskEntryView> {
    entries_of_lines(lines(text))
}

/// The distinct elements of `s`, each where it first appears.
pub open spec fn first_appearances(s: Seq<Seq<char>>) -> Seq<Seq<char>>
    decreases s.len(),
{
    if s.len() == 0 {
        seq![]
    } else {
        let d = first_appearances(s.drop_last());
        if d.contains(s.last()) {
            d
        } else {
            d.push(s.last())
        }
    }
}

pub open spec fn targets_of(es: Seq<TaskEntryView>) -> Seq<Seq<char>> {
    es.map_values(|e: TaskEntryView| e.target)
}

/// The target list has no repetition and holds exactly the targets of the
/// entries.
pub proof fn lemma_first_appearances(s: Seq<Seq<char>>)
    ensures
        first_appearances(s).no_duplicates(),
        forall|x: Seq<char>| first_appearances(s).contains(x) <==> s.contains(x),
    decreases s.len(),
{
    if s.len() > 0 {
        let rest = s.drop_last();
        lemma_first_appearances(rest);
        let d = first_appearances(rest);
        assert forall|x: Seq<char>| first_appearances(s).contains(x) <==> s.contains(x) by {
            if s.contains(x) && x != s.last() {
                let k = choose|k: int| 0 <= k < s.len() && s[k] == x;
                assert(rest[k] == x);
            }
            if rest.contains(x) {
                let k = choose|k: int| 0 <= k < rest.len() && rest[k] == x;
                assert(s[k] == x);
            }
            if !d.contains(s.last()) && first_appearances(s).contains(x) {
                let k = choose|k: int| 0 <= k < d.len() + 1 && d.push(s.last())[k] == x;
                if k < d.len() {
                    assert(d[k] == x);
                }
            }
            if !d.contains(s.last()) && d.contains(x) {
                let k = choose|k: int| 0 <= k < d.len() && d[k] == x;
                assert(d.push(s.last())[k] == x);
            }
            if x == s.last() {
                assert(s[s.len() - 1] == x);
                if !d.contains(x) {
                    assert(d.push(x)[d.len() as int] == x);
                }
            }
        }
    }
}

/// `x` has a first position in `s`.
pub open spec fn occurs_first(s: Seq<Seq<char>>, x: Seq<char>) -> bool {
    exists|k: int| is_first_index(s, x, k)
}

/// The target list keeps the order of first appearance: each name has a
/// first position among the targets, and an earlier name has an earlier
/// first position.
pub proof fn lemma_first_appearances_order(s: Seq<Seq<char>>)
    ensures
        forall|i: int|
            0 <= i < first_appearances(s).len() ==> occurs_first(s, #[trigger] first_appearances(s)[i]),
        forall|i: int, j: int, ki: int, kj: int|
            0 <= i < j < first_appearances(s).len() && #[trigger] is_first_index(
                s,
                first_appearances(s)[i],
                ki,
            ) && #[trigger] is_first_index(s, first_appearances(s)[j], kj) ==> ki < kj,
    decreases s.len(),
{
    if s.len() > 0 {
        let rest = s.drop_last();
        let d = first_appearances(rest);
        let f = first_appearances(s);
        lemma_first_appearances_order(rest);
        lemma_first_appearances(rest);
        // a first position in the prefix is a first position in `s`, and
        // back
        assert forall|x: Seq<char>, k: int| k < rest.len() implies (is_first_index(rest, x, k)
            <==> is_first_index(s, x, k)) by {
            if is_first_index(s, x, k) {
                assert forall|m: int| 0 <= m < k implies rest[m] != x by {
                    assert(s[m] != x);
                }
            }
            if is_first_index(rest, x, k) {
                assert forall|m: int| 0 <= m < k implies s[m] != x by {
                    assert(rest[m] != x);
                }
            }
        }
        assert forall|i: int| 0 <= i < d.len() implies occurs_first(s, #[trigger] d[i]) by {
            assert(occurs_first(rest, d[i]));
            let k = choose|k: int| is_first_index(rest, d[i], k);
            assert(is_first_index(s, d[i], k));
        }
        assert forall|i: int, k: int| 0 <= i < d.len() && #[trigger] is_first_index(s, d[i], k)
            implies k < rest.len() && is_first_index(rest, d[i], k) by {
            let k0 = choose|k0: int| is_first_index(rest, d[i], k0);
            assert(is_first_index(s, d[i], k0));
            if k0 < k {
                assert(s[k0] != d[i]);
            }
            if k < k0 {
                assert(s[k] != d[i]);
            }
        }
        if !d.contains(s.last()) {
            let x = s.last();
            assert(is_first_index(s, x, s.len() - 1)) by {
                assert forall|m: int| 0 <= m < s.len() - 1 implies s[m] != x by {
                    if s[m] == x {
                        assert(rest[m] == x);
                        assert(rest.contains(x));
                    }
                }
            }
            assert forall|k: int| is_first_index(s, x, k) implies k == s.len() - 1 by {
                if k < s.len() - 1 {
                    assert(rest[k] == x);
                    assert(rest.contains(x));
                }
            }
            assert(f == d.push(x));
            assert forall|i: int| 0 <= i < f.len() implies occurs_first(s, #[trigger] f[i]) by {
                if i < d.len() {
                    assert(f[i] == d[i]);
                } else {
                    assert(is_first_index(s, f[i], s.len() - 1));
                }
            }
        } else {
            assert(f == d);
            assert forall|i: int| 0 <= i < f.len() implies occurs_first(s, #[trigger] f[i]) by {
                assert(f[i] == d[i]);
                let k = choose|k: int| is_first_index(s, d[i], k);
                assert(is_first_index(s, f[i], k));
            }
        }
    }
}

/// A listing line in the documented form `target|task_id|description`
/// gives back its three fields, provided the target and the id hold no
/// `'|'` and no field has surrounding whitespace.
pub proof fn lemma_listing_line_roundtrip(target: Seq<char>, id: Seq<char>, desc: Seq<char>)
    requires
        !target.contains('|'),
        !id.contains('|'),
        trim(target) == target,
        trim(id) == id,
        trim(desc) == desc,
    ensures
        parse_line(target + "|"@ + id + "|"@ + desc) == Some(
            TaskEntryView { target, id, desc },
        ),
{
    reveal_strlit("|");
    let l = target + "|"@ + id + "|"@ + desc;
    let p = target.len() as int;
    assert(l[p] == '|');
    assert forall|j: int| 0 <= j < p implies l[j] != '|' by {
        assert(l[j] == target[j]);
    }
    assert(is_first(l, '|', p));
    lemma_find_char_some(l, '|', p);
    let rest = l.skip(p + 1);
    assert(rest =~= id + "|"@ + desc);
    let q = id.len() as int;
    assert(rest[q] == '|');
    assert forall|j: int| 0 <= j < q implies rest[j] != '|' by {
        assert(rest[j] == id[j]);
    }
    assert(is_first(rest, '|', q));
    lemma_find_char_some(rest, '|', q);
    assert(l.take(p) =~= target);
    assert(rest.take(q) =~= id);
    assert(rest.skip(q + 1) =~= desc);
}

/// The listing line of an entry, as the xtask helper prints it.
pub open spec fn listing_line(e: TaskEntryView) -> Seq<char> {
    e.target + "|"@ + e.id + "|"@ + e.desc
}

/// A listing text: each entry's line followed by a newline.
pub open spec fn render_listing(es: Seq<TaskEntryView>) -> Seq<char>
    decreases es.len(),
{
    if es.len() == 0 {
        seq![]
    } else {
        listing_line(es[0]) + "\n"@ + render_listing(es.drop_first())
    }
}

/// The entry can be written as a listing line and read back.
pub open spec fn listable(e: TaskEntryView) -> bool {
    &&& !e.target.contains('|')
    &&& !e.id.contains('|')
    &&& !e.target.contains('\n')
    &&& !e.id.contains('\n')
    &&& !e.desc.contains('\n')
    &&& trim(e.target) == e.target
    &&& trim(e.id) == e.id
    &&& trim(e.desc) == e.desc
}

/// A trimmed text does not end with whitespace.
proof fn lemma_trimmed_end(s: Seq<char>)
    requires
        trim(s) == s,
        s.len() > 0,
    ensures
        !is_ws(s.last()),
{
    crate::text::lemma_strip_end_last(crate::text::strip_start(s, CharClass::Whitespace), CharClass::Whitespace);
}

/// A line without `'\n'` that does not end with `'\r'`, followed by a
/// newline, is one line of the text.
proof fn lemma_lines_cons(l: Seq<char>, rest: Seq<char>)
    requires
        !l.contains('\n'),
        l.len() > 0 ==> l.last() != '\r',
    ensures
        lines(l + "\n"@ + rest) == seq![l] + lines(rest),
{
    reveal_strlit("\n");
    let s = l + "\n"@ + rest;
    let k = l.len() as int;
    assert(s[k] == '\n');
    assert forall|j: int| 0 <= j < k implies s[j] != '\n' by {
        assert(s[j] == l[j]);
    }
    assert(is_first(s, '\n', k));
    lemma_find_char_some(s, '\n', k);
    assert(s.take(k) =~= l);
    assert(s.skip(k + 1) =~= rest);
    assert(strip_cr(l) == l);
}

/// What the xtask helper prints for a list of entries is parsed back into
/// the same entries, in order.
pub proof fn lemma_listing_roundtrip(es: Seq<TaskEntryView>)
    requires
        forall|i: int| 0 <= i < es.len() ==> listable(#[trigger] es[i]),
    ensures
        listing_entries(render_listing(es)) == es,
    decreases es.len(),
{
    reveal_strlit("|");
    reveal_strlit("\n");
    if es.len() > 0 {
        let e = es[0];
        assert(listable(e));
        let l = listing_line(e);
        assert forall|i: int| 0 <= i < es.len() - 1 implies listable(#[trigger] es.drop_first()[i]) by {
            assert(listable(es[i + 1]));
        }
        lemma_listing_roundtrip(es.drop_first());
        assert(!l.contains('\n')) by {
            if l.contains('\n') {
                let j = choose|j: int| 0 <= j < l.len() && l[j] == '\n';
                let a = e.target.len() as int;
                let b = a + 1 + e.id.len();
                if j < a {
                    assert(e.target[j] == '\n');
                } else if j == a || j == b {
                } else if j < b {
                    assert(e.id[j - a - 1] == '\n');
                } else {
                    assert(e.desc[j - b - 1] == '\n');
                }
            }
        }
        if e.desc.len() > 0 {
            lemma_trimmed_end(e.desc);
            assert(l.last() == e.desc.last());
        } else {
            assert(l.last() == '|');
        }
        lemma_lines_cons(l, render_listing(es.drop_first()));
        lemma_listing_line_roundtrip(e.target, e.id, e.desc);
        let ls = lines(render_listing(es));
        assert(ls[0] == l);
        assert(ls.drop_first() =~= lines(render_listing(es.drop_first())));
        assert(seq![e] + es.drop_first() =~= es);
    } else {
        assert(lines(Seq::<char>::empty()) == Seq::<Seq<char>>::empty());
    }
}

/// The entry that the characters `v[a..b]` of `text` describe.
fn parse_line_in(text: &str, v: &Vec<char>, a: usize, b: usize) -> (r: Option<TaskEntry>)
    requires
        v@ == text@,
        a <= b <= v@.len(),
    ensures
        r.deep_view() == parse_line(v@.subrange(a as int, b as int)),
{
    let ghost l = v@.subrange(a as int, b as int);
    let p = match find_char_in(v, a, b, '|') {
        Some(p) => p,
        None => return None,
    };
    let ghost rest = l.skip(p - a + 1);
    assert(rest =~= v@.subrange(p + 1, b as int));
    let q = match find_char_in(v, p + 1, b, '|') {
        Some(q) => q,
        None => return None,
    };
    assert(l.take(p - a) =~= v@.subrange(a as int, p as int));
    assert(rest.take(q - (p + 1)) =~= v@.subrange(p + 1, q as int));
    assert(rest.skip(q - (p + 1) + 1) =~= v@.subrange(q + 1, b as int));
    let (t0, t1) = strip_range(v, a, p, CharClass::Whitespace);
    let (i0, i1) = strip_range(v, p + 1, q, CharClass::Whitespace);
    let (d0, d1) = strip_range(v, q + 1, b, CharClass::Whitespace);
    Some(
        TaskEntry {
            target: substring(text, t0, t1),
            id: substring(text, i0, i1),
            desc: substring(text, d0, d1),
        },
    )
}

/// Parses the output of `cargo xtask --list`: every line with at least two
/// `'|'` gives one entry, in order; other lines are skipped.
pub fn parse_listing(text: &str) -> (r: Vec<TaskEntry>)
    ensures
        r.deep_view() == listing_entries(text@),
{
    let v = chars_of(text);
    let n = v.len();
    let mut out: Vec<TaskEntry> = Vec::new();
    let mut start: usize = 0;
    assert(text@.skip(0) =~= text@);
    while start < n
        invariant
            v@ == text@,
            n == v@.len(),
            start <= n,
            listing_entries(text@) == out.deep_view() + entries_of_lines(
                lines(text@.skip(start as int)),
            ),
        decreases n - start,
    {
        let ghost old_out = out.deep_view();
        let (end, next) = next_line(&v, start);
        proof {
            let ls = lines(text@.skip(start as int));
            assert(ls[0] == v@.subrange(start as int, end as int));
            assert(ls.drop_first() =~= lines(text@.skip(next as int)));
        }
        match parse_line_in(text, &v, start, end) {
            Some(e) => {
                out.push(e);
                assert(out.deep_view() =~= old_out + seq![e.deep_view()]);
            },
            None => {},
        }
        start = next;
    }
    assert(text@.skip(n as int) =~= Seq::<char>::empty());
    assert(out.deep_view() + Seq::<TaskEntryView>::empty() =~= out.deep_view());
    out
}

/// Whether `names` holds a string equal to `s`.
pub fn contains_string(names: &Vec<String>, s: &String) -> (b: bool)
    ensures
        b == names.deep_view().contains(s@),
{
    let mut i: usize = 0;
    while i < names.len()
        invariant
            i <= names@.len(),
            forall|j: int| 0 <= j < i ==> names.deep_view()[j] != s@,
        decreases names@.len() - i,
    {
        if names[i] == *s {
            assert(names.deep_view()[i as int] == s@);
            return true;
        }
        i = i + 1;
    }
    false
}

/// The target names of `entries`, without repetition, in the order in which
/// they first appear.
pub fn target_names_of(entries: &Vec<TaskEntry>) -> (names: Vec<String>)
    ensures
        names.deep_view() == first_appearances(targets_of(entries.deep_view())),
{
    let mut names: Vec<String> = Vec::new();
    let mut i: usize = 0;
    while i < entries.len()
        invariant
            i <= entries@.len(),
            names.deep_view() == first_appearances(
                targets_of(entries.deep_view()).take(i as int),
            ),
        decreases entries@.len() - i,
    {
        let ghost ts = targets_of(entries.deep_view());
        assert(ts.take(i + 1).drop_last() =~= ts.take(i as int));
        assert(ts.take(i + 1).last() == entries@[i as int].target@);
        let ghost before = names.deep_view();
        if !contains_string(&names, &entries[i].target) {
            names.push(entries[i].target.clone());
            assert(names.deep_view() =~= before.push(entries@[i as int].target@));
        }
        i = i + 1;
    }
    assert(targets_of(entries.deep_view()).take(entries@.len() as int) =~= targets_of(
        entries.deep_view(),
    ));
    names
}

} // verus!
