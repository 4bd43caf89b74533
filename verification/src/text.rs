//! Character-level text primitives: line splitting, trimming and searching,
//! stated over the `Seq<char>` view of strings.

use vstd::prelude::*;

verus! {

/// The characters with the Unicode `White_Space` property, which is what
/// `char::is_whitespace` (and therefore `str::trim`) recognises.
pub open spec fn is_ws(c: char) -> bool {
    ||| '\u{0009}' <= c <= '\u{000D}'
    ||| c == ' '
    ||| c == '\u{0085}'
    ||| c == '\u{00A0}'
    ||| c == '\u{1680}'
    ||| '\u{2000}' <= c <= '\u{200A}'
    ||| c == '\u{2028}'
    ||| c == '\u{2029}'
    ||| c == '\u{202F}'
    ||| c == '\u{205F}'
    ||| c == '\u{3000}'
}

/// What a trimming operation removes: whitespace (`trim`) or one given
/// character (`trim_matches(c)`).
#[derive(Clone, Copy)]
pub enum CharClass {
    Whitespace,
    Exactly(char),
}

pub open spec fn in_class(k: CharClass, c: char) -> bool {
    match k {
        CharClass::Whitespace => is_ws(c),
        CharClass::Exactly(d) => c == d,
    }
}

/// `s` without its leading characters of class `k`.
pub open spec fn strip_start(s: Seq<char>, k: CharClass) -> Seq<char>
    decreases s.len(),
{
    if s.len() > 0 && in_class(k, s[0]) {
        strip_start(s.drop_first(), k)
    } else {
        s
    }
}

/// `s` without its trailing characters of class `k`.
pub open spec fn strip_end(s: Seq<char>, k: CharClass) -> Seq<char>
    decreases s.len(),
{
    if s.len() > 0 && in_class(k, s.last()) {
        strip_end(s.drop_last(), k)
    } else {
        s
    }
}

/// `s` without its leading and trailing characters of class `k`.
pub open spec fn strip(s: Seq<char>, k: CharClass) -> Seq<char> {
    strip_end(strip_start(s, k), k)
}

/// `str::trim`.
pub open spec fn trim(s: Seq<char>) -> Seq<char> {
    strip(s, CharClass::Whitespace)
}

/// `i` is the position of the first `c` in `s`.
pub open spec fn is_first(s: Seq<char>, c: char, i: int) -> bool {
    &&& 0 <= i < s.len()
    &&& s[i] == c
    &&& forall|j: int| 0 <= j < i ==> s[j] != c
}

/// The position of the first `c` in `s`, if any.
pub open spec fn find_char(s: Seq<char>, c: char) -> Option<int> {
    if exists|i: int| is_first(s, c, i) {
        Some(choose|i: int| is_first(s, c, i))
    } else {
        None
    }
}

/// `pat` occurs in `s` at position `i`.
pub open spec fn occurs_at(s: Seq<char>, pat: Seq<char>, i: int) -> bool {
    0 <= i && i + pat.len() <= s.len() && s.subrange(i, i + pat.len()) == pat
}

/// `i` is the position of the first occurrence of `pat` in `s`.
pub open spec fn is_first_occurrence(s: Seq<char>, pat: Seq<char>, i: int) -> bool {
    &&& occurs_at(s, pat, i)
    &&& forall|j: int| 0 <= j < i ==> !occurs_at(s, pat, j)
}

/// `str::find` with a string pattern, counted in characters.
pub open spec fn find_str(s: Seq<char>, pat: Seq<char>) -> Option<int> {
    if exists|i: int| is_first_occurrence(s, pat, i) {
        Some(choose|i: int| is_first_occurrence(s, pat, i))
    } else {
        None
    }
}

pub proof fn lemma_find_char_some(s: Seq<char>, c: char, i: int)
    requires
        is_first(s, c, i),
    ensures
        find_char(s, c) == Some(i),
{
    let k = choose|k: int| is_first(s, c, k);
    assert(is_first(s, c, k));
    if k < i {
        assert(s[k] != c);
    }
    if i < k {
        assert(s[i] != c);
    }
}

pub proof fn lemma_find_char_range(s: Seq<char>, c: char)
    ensures
        find_char(s, c) matches Some(i) ==> is_first(s, c, i),
        find_char(s, c) is None ==> forall|j: int| 0 <= j < s.len() ==> s[j] != c,
{
    if find_char(s, c) is None {
        assert forall|j: int| 0 <= j < s.len() implies s[j] != c by {
            if s[j] == c {
                lemma_first_exists(s, c, j);
            }
        }
    }
}

/// If `c` occurs at or before `j`, there is a first occurrence.
pub proof fn lemma_first_exists(s: Seq<char>, c: char, j: int)
    requires
        0 <= j < s.len(),
        s[j] == c,
    ensures
        exists|i: int| is_first(s, c, i),
    decreases j,
{
    if forall|l: int| 0 <= l < j ==> s[l] != c {
        assert(is_first(s, c, j));
    } else {
        let l = choose|l: int| 0 <= l < j && s[l] == c;
        lemma_first_exists(s, c, l);
    }
}

/// What `strip_end` leaves does not end with a character of the class.
pub proof fn lemma_strip_end_last(s: Seq<char>, k: CharClass)
    ensures
        strip_end(s, k).len() > 0 ==> !in_class(k, strip_end(s, k).last()),
    decreases s.len(),
{
    if s.len() > 0 && in_class(k, s.last()) {
        lemma_strip_end_last(s.drop_last(), k);
    }
}

/// A string without its final `'\r'`, as `str::lines` removes it before `'\n'`.
pub open spec fn strip_cr(s: Seq<char>) -> Seq<char> {
    if s.len() > 0 && s.last() == '\r' {
        s.drop_last()
    } else {
        s
    }
}

/// `str::lines`: the text split at `'\n'`, a `'\r'` right before a `'\n'`
/// removed, and no empty line after a final `'\n'`.
pub open spec fn lines(s: Seq<char>) -> Seq<Seq<char>>
    decreases s.len(),
{
    if s.len() == 0 {
        seq![]
    } else {
        match find_char(s, '\n') {
            None => seq![s],
            Some(i) => {
                proof {
                    lemma_find_char_range(s, '\n');
                }
                seq![strip_cr(s.take(i))] + lines(s.skip(i + 1))
            },
        }
    }
}

/// `str::split` with a character pattern: always at least one piece.
pub open spec fn split(s: Seq<char>, c: char) -> Seq<Seq<char>>
    decreases s.len(),
{
    match find_char(s, c) {
        None => seq![s],
        Some(i) => {
            proof {
                lemma_find_char_range(s, c);
            }
            seq![s.take(i)] + split(s.skip(i + 1), c)
        },
    }
}

/// `char::is_whitespace`.
pub fn is_whitespace_char(c: char) -> (b: bool)
    ensures
        b == is_ws(c),
{
    ('\u{0009}' <= c && c <= '\u{000D}') || c == ' ' || c == '\u{0085}' || c == '\u{00A0}'
        || c == '\u{1680}' || ('\u{2000}' <= c && c <= '\u{200A}') || c == '\u{2028}'
        || c == '\u{2029}' || c == '\u{202F}' || c == '\u{205F}' || c == '\u{3000}'
}

pub fn in_char_class(k: CharClass, c: char) -> (b: bool)
    ensures
        b == in_class(k, c),
{
    match k {
        CharClass::Whitespace => is_whitespace_char(c),
        CharClass::Exactly(d) => c == d,
    }
}

/// Copies the characters of `s` into a vector.
pub fn chars_of(s: &str) -> (v: Vec<char>)
    ensures
        v@ == s@,
{
    let mut v: Vec<char> = Vec::new();
    for c in it: s.chars()
        invariant
            it.seq() == s@,
            v@ == s@.take(it.index() as int),
    {
        v.push(c);
    }
    v
}

/// The bounds of `strip(v[lo..hi], k)` inside `v`.
pub fn strip_range(v: &Vec<char>, lo: usize, hi: usize, k: CharClass) -> (r: (usize, usize))
    requires
        lo <= hi <= v@.len(),
    ensures
        lo <= r.0 <= r.1 <= hi,
        v@.subrange(r.0 as int, r.1 as int) == strip(v@.subrange(lo as int, hi as int), k),
        v@.subrange(r.0 as int, hi as int) == strip_start(v@.subrange(lo as int, hi as int), k),
{
    let mut a = lo;
    while a < hi && in_char_class(k, v[a])
        invariant
            lo <= a <= hi <= v@.len(),
            strip_start(v@.subrange(lo as int, hi as int), k) == strip_start(
                v@.subrange(a as int, hi as int),
                k,
            ),
        decreases hi - a,
    {
        assert(v@.subrange(a as int, hi as int).drop_first() =~= v@.subrange(
            a + 1,
            hi as int,
        ));
        a = a + 1;
    }
    assert(strip_start(v@.subrange(a as int, hi as int), k) == v@.subrange(a as int, hi as int));
    let mut b = hi;
    while b > a && in_char_class(k, v[b - 1])
        invariant
            lo <= a <= b <= hi <= v@.len(),
            strip_end(v@.subrange(a as int, hi as int), k) == strip_end(
                v@.subrange(a as int, b as int),
                k,
            ),
        decreases b - a,
    {
        assert(v@.subrange(a as int, b as int).drop_last() =~= v@.subrange(
            a as int,
            b - 1,
        ));
        b = b - 1;
    }
    assert(strip_end(v@.subrange(a as int, b as int), k) == v@.subrange(a as int, b as int));
    (a, b)
}

/// The first position of `c` in `v[lo..hi]`, counted from the start of `v`.
pub fn find_char_in(v: &Vec<char>, lo: usize, hi: usize, c: char) -> (r: Option<usize>)
    requires
        lo <= hi <= v@.len(),
    ensures
        match r {
            Some(k) => lo <= k < hi && find_char(v@.subrange(lo as int, hi as int), c) == Some(
                k - lo,
            ),
            None => find_char(v@.subrange(lo as int, hi as int), c) is None,
        },
{
    let ghost sub = v@.subrange(lo as int, hi as int);
    let mut k = lo;
    while k < hi
        invariant
            lo <= k <= hi <= v@.len(),
            sub == v@.subrange(lo as int, hi as int),
            forall|j: int| 0 <= j < k - lo ==> sub[j] != c,
        decreases hi - k,
    {
        if v[k] == c {
            proof {
                assert(is_first(sub, c, k - lo));
                lemma_find_char_some(sub, c, k - lo);
            }
            return Some(k);
        }
        k = k + 1;
    }
    proof {
        lemma_find_char_range(sub, c);
        if find_char(sub, c) is Some {
            let i = find_char(sub, c)->0;
            assert(sub[i] == c);
        }
    }
    None
}

/// The line that starts at `start` ends at `r.0` (a `'\r'` before the
/// `'\n'` excluded) and the next one starts at `r.1`.
pub fn next_line(v: &Vec<char>, start: usize) -> (r: (usize, usize))
    requires
        start < v@.len(),
    ensures
        start <= r.0 <= r.1 <= v@.len(),
        start < r.1,
        lines(v@.skip(start as int)) == seq![v@.subrange(start as int, r.0 as int)] + lines(
            v@.skip(r.1 as int),
        ),
{
    let n = v.len();
    let ghost s = v@.skip(start as int);
    assert(s =~= v@.subrange(start as int, n as int));
    let found = find_char_in(v, start, n, '\n');
    let (end, next) = match found {
        Some(k) => {
            let e = if k > start && v[k - 1] == '\r' {
                k - 1
            } else {
                k
            };
            (e, k + 1)
        },
        None => (n, n),
    };
    proof {
        let line = v@.subrange(start as int, end as int);
        match found {
            Some(k) => {
                assert(s.take(k - start) =~= v@.subrange(start as int, k as int));
                assert(strip_cr(s.take(k - start)) =~= line);
                assert(s.skip(k - start + 1) =~= v@.skip(next as int));
            },
            None => {
                assert(v@.skip(next as int) =~= Seq::<char>::empty());
                assert(lines(v@.skip(next as int)) == Seq::<Seq<char>>::empty());
                assert(seq![line] =~= seq![line] + Seq::<Seq<char>>::empty());
            },
        }
    }
    (end, next)
}

pub proof fn lemma_find_str_some(s: Seq<char>, pat: Seq<char>, i: int)
    requires
        is_first_occurrence(s, pat, i),
    ensures
        find_str(s, pat) == Some(i),
{
    let k = choose|k: int| is_first_occurrence(s, pat, k);
    assert(is_first_occurrence(s, pat, k));
    if k < i {
        assert(!occurs_at(s, pat, k));
    }
    if i < k {
        assert(!occurs_at(s, pat, i));
    }
}

/// The first position of `pat` in `v[lo..hi]`, counted from the start of `v`.
pub fn find_str_in(v: &Vec<char>, lo: usize, hi: usize, pat: &Vec<char>) -> (r: Option<usize>)
    requires
        lo <= hi <= v@.len(),
    ensures
        match r {
            Some(k) => lo <= k && k + pat@.len() <= hi && find_str(
                v@.subrange(lo as int, hi as int),
                pat@,
            ) == Some(k - lo),
            None => find_str(v@.subrange(lo as int, hi as int), pat@) is None,
        },
{
    let ghost sub = v@.subrange(lo as int, hi as int);
    let m = pat.len();
    if m > hi - lo {
        proof {
            assert forall|i: int| !is_first_occurrence(sub, pat@, i) by {}
        }
        return None;
    }
    let last = hi - m;
    let mut i = lo;
    while i <= last
        invariant
            lo <= i <= last + 1,
            last + m == hi,
            hi <= v@.len(),
            m == pat@.len(),
            sub == v@.subrange(lo as int, hi as int),
            forall|j: int| 0 <= j < i - lo ==> !occurs_at(sub, pat@, j),
        decreases last + 1 - i,
    {
        let mut j: usize = 0;
        let mut same = true;
        while j < m
            invariant
                j <= m,
                i + m <= hi,
                hi <= v@.len(),
                m == pat@.len(),
                same ==> forall|t: int| 0 <= t < j ==> v@[i + t] == pat@[t],
                !same ==> exists|t: int| 0 <= t < m && v@[i + t] != pat@[t],
            decreases m - j,
        {
            if v[i + j] != pat[j] {
                same = false;
            }
            j = j + 1;
        }
        proof {
            if same {
                assert(sub.subrange(i - lo, i - lo + m) =~= pat@);
                assert(occurs_at(sub, pat@, i - lo));
            } else {
                let t = choose|t: int| 0 <= t < m && v@[i + t] != pat@[t];
                assert(sub.subrange(i - lo, i - lo + m)[t] != pat@[t]);
                assert(!occurs_at(sub, pat@, i - lo));
            }
        }
        if same {
            proof {
                lemma_find_str_some(sub, pat@, i - lo);
            }
            return Some(i);
        }
        i = i + 1;
    }
    proof {
        assert forall|k: int| !is_first_occurrence(sub, pat@, k) by {
            if 0 <= k && k + m <= sub.len() {
                assert(k < i - lo);
            }
        }
    }
    None
}

/// Whether `v[lo..hi]` starts with `pat`.
pub fn starts_with_at(v: &Vec<char>, lo: usize, hi: usize, pat: &Vec<char>) -> (b: bool)
    requires
        lo <= hi <= v@.len(),
    ensures
        b == pat@.is_prefix_of(v@.subrange(lo as int, hi as int)),
{
    let m = pat.len();
    if m > hi - lo {
        return false;
    }
    let mut j: usize = 0;
    while j < m
        invariant
            j <= m,
            m == pat@.len(),
            lo + m <= hi <= v@.len(),
            forall|t: int| 0 <= t < j ==> v@[lo + t] == pat@[t],
        decreases m - j,
    {
        if v[lo + j] != pat[j] {
            assert(v@.subrange(lo as int, hi as int)[j as int] != pat@[j as int]);
            return false;
        }
        j = j + 1;
    }
    assert(v@.subrange(lo as int, hi as int).take(m as int) =~= pat@);
    true
}

/// Whether two strings hold the same characters.
pub fn str_equal(a: &str, b: &str) -> (r: bool)
    ensures
        r == (a@ == b@),
{
    String::from_str(a) == String::from_str(b)
}

/// The characters `s[a..b]` as a new string.
pub fn substring(s: &str, a: usize, b: usize) -> (r: String)
    requires
        a <= b <= s@.len(),
    ensures
        r@ == s@.subrange(a as int, b as int),
{
    String::from_str(s.substring_char(a, b))
}

} // verus!
