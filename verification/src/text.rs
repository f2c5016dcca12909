//! Searching and cutting text.
//!
//! Text is modelled as a sequence of characters (`Seq<char>`), the view of
//! `str` and `String`. Executable code scans a `Vec<char>` copy of a string
//! and cuts pieces out of the string itself.

use vstd::prelude::*;

verus! {

/// The characters of a text that may be missing.
pub open spec fn text_view(text: Option<String>) -> Option<Seq<char>> {
    match text {
        Some(t) => Some(t@),
        None => None,
    }
}

/// `pat` stands in `text` at offset `i`.
pub open spec fn occurs_at(text: Seq<char>, pat: Seq<char>, i: int) -> bool {
    &&& 0 <= i
    &&& i + pat.len() <= text.len()
    &&& text.subrange(i, i + pat.len()) == pat
}

/// The character `c` does not stand in `text`.
pub open spec fn lacks(text: Seq<char>, c: char) -> bool {
    forall|j: int| 0 <= j < text.len() ==> text[j] != c
}

/// Offset of the first occurrence of `pat` in `text` that starts at `from`
/// or later.
pub open spec fn find_from(text: Seq<char>, pat: Seq<char>, from: int) -> Option<int>
    decreases text.len() + 1 - from,
{
    if from < 0 || from + pat.len() > text.len() {
        None
    } else if occurs_at(text, pat, from) {
        Some(from)
    } else {
        find_from(text, pat, from + 1)
    }
}

/// Offset of the first occurrence of `pat` in `text`.
pub open spec fn find(text: Seq<char>, pat: Seq<char>) -> Option<int> {
    find_from(text, pat, 0)
}

/// `pat` occurs somewhere in `text`.
pub open spec fn contains(text: Seq<char>, pat: Seq<char>) -> bool {
    find(text, pat) is Some
}

/// The part of `text` in front of the first occurrence of `pat`; all of
/// `text` where `pat` does not occur.
pub open spec fn before(text: Seq<char>, pat: Seq<char>) -> Seq<char> {
    match find(text, pat) {
        Some(i) => text.subrange(0, i),
        None => text,
    }
}

/// The part of `text` behind the first occurrence of `pat`; empty where
/// `pat` does not occur.
pub open spec fn after(text: Seq<char>, pat: Seq<char>) -> Seq<char> {
    match find(text, pat) {
        Some(i) => text.subrange(i + pat.len(), text.len() as int),
        None => Seq::empty(),
    }
}

/// The pieces of `text` between the occurrences of a non-empty `pat`, read
/// from left to right without overlap. A text without `pat` is one piece.
pub open spec fn split(text: Seq<char>, pat: Seq<char>) -> Seq<Seq<char>>
    decreases text.len(),
{
    if pat.len() > 0 && find(text, pat) is Some {
        proof {
            lemma_find_from(text, pat, 0);
        }
        seq![before(text, pat)] + split(after(text, pat), pat)
    } else {
        seq![text]
    }
}

/// What `find_from` returns is the least offset from `from` on at which
/// `pat` stands, and it returns `None` only where there is none.
pub proof fn lemma_find_from(text: Seq<char>, pat: Seq<char>, from: int)
    requires
        0 <= from,
    ensures
        match find_from(text, pat, from) {
            Some(i) => {
                &&& from <= i
                &&& occurs_at(text, pat, i)
                &&& forall|j: int| from <= j < i ==> !occurs_at(text, pat, j)
            },
            None => forall|j: int| from <= j ==> !occurs_at(text, pat, j),
        },
    decreases text.len() + 1 - from,
{
    if from + pat.len() > text.len() {
    } else if occurs_at(text, pat, from) {
    } else {
        lemma_find_from(text, pat, from + 1);
    }
}

/// The least offset at which `pat` stands is what `find` returns.
pub proof fn lemma_find_first(text: Seq<char>, pat: Seq<char>, i: int)
    requires
        occurs_at(text, pat, i),
        forall|j: int| 0 <= j < i ==> !occurs_at(text, pat, j),
    ensures
        find(text, pat) == Some(i),
{
    lemma_find_from(text, pat, 0);
}

/// Where `pat` stands nowhere, `find` returns `None`.
pub proof fn lemma_find_none(text: Seq<char>, pat: Seq<char>)
    requires
        forall|j: int| 0 <= j ==> !occurs_at(text, pat, j),
    ensures
        find(text, pat) is None,
{
    lemma_find_from(text, pat, 0);
}

/// A text is cut at the pattern behind which it was put together: where
/// `pat` does not stand in `a + pat + b` before the end of `a`, the cut
/// gives `a` and `b` back.
pub proof fn lemma_cut(a: Seq<char>, pat: Seq<char>, b: Seq<char>)
    requires
        forall|j: int| 0 <= j < a.len() ==> !occurs_at(a + pat + b, pat, j),
    ensures
        find(a + pat + b, pat) == Some(a.len() as int),
        before(a + pat + b, pat) == a,
        after(a + pat + b, pat) == b,
{
    let text = a + pat + b;
    assert(text.subrange(a.len() as int, (a.len() + pat.len()) as int) =~= pat);
    lemma_find_first(text, pat, a.len() as int);
    assert(text.subrange(0, a.len() as int) =~= a);
    assert(text.subrange((a.len() + pat.len()) as int, text.len() as int) =~= b);
}

/// A text without the first character of `pat` does not hold `pat`, and
/// cutting at `pat` leaves it whole.
pub proof fn lemma_find_absent(text: Seq<char>, pat: Seq<char>)
    requires
        pat.len() > 0,
        lacks(text, pat[0]),
    ensures
        find(text, pat) is None,
        before(text, pat) == text,
        after(text, pat) == Seq::<char>::empty(),
        split(text, pat) == seq![text],
{
    assert forall|j: int| 0 <= j implies !occurs_at(text, pat, j) by {
        if occurs_at(text, pat, j) {
            assert(text.subrange(j, j + pat.len())[0] == pat[0]);
        }
    }
    lemma_find_none(text, pat);
}

/// Where `a` is without the first character of `pat`, the text
/// `a + pat + b` is cut behind `a`.
pub proof fn lemma_cut_at_char(a: Seq<char>, pat: Seq<char>, b: Seq<char>)
    requires
        pat.len() > 0,
        lacks(a, pat[0]),
    ensures
        find(a + pat + b, pat) == Some(a.len() as int),
        before(a + pat + b, pat) == a,
        after(a + pat + b, pat) == b,
{
    let text = a + pat + b;
    assert forall|j: int| 0 <= j < a.len() implies !occurs_at(text, pat, j) by {
        if occurs_at(text, pat, j) {
            assert(text.subrange(j, j + pat.len())[0] == pat[0]);
            assert(text[j] == a[j]);
        }
    }
    lemma_cut(a, pat, b);
}

/// A pattern that stands in the front part of a text occurs in the text.
pub proof fn lemma_contains_front(a: Seq<char>, b: Seq<char>, pat: Seq<char>)
    requires
        contains(a, pat),
    ensures
        contains(a + b, pat),
{
    lemma_find_from(a, pat, 0);
    let i = find(a, pat)->Some_0;
    assert((a + b).subrange(i, i + pat.len()) =~= a.subrange(i, i + pat.len()));
    assert(occurs_at(a + b, pat, i));
    lemma_find_from(a + b, pat, 0);
}

/// A front part of a front part is a front part.
pub proof fn lemma_prefix_of_prefix(a: Seq<char>, b: Seq<char>, c: Seq<char>)
    requires
        a.is_prefix_of(b),
        b.is_prefix_of(c),
    ensures
        a.is_prefix_of(c),
{
    assert(a =~= c.subrange(0, a.len() as int));
}

/// What `b` begins with stands behind `a` in every text that begins with
/// `a + b`.
pub proof fn lemma_occurs_behind(text: Seq<char>, a: Seq<char>, b: Seq<char>, p: Seq<char>)
    requires
        (a + b).is_prefix_of(text),
        p.is_prefix_of(b),
    ensures
        occurs_at(text, p, a.len() as int),
{
    let n = a.len() as int;
    let whole = a + b;
    assert forall|i: int| 0 <= i < p.len() implies text[n + i] == p[i] by {
        assert(whole == text.subrange(0, whole.len() as int));
        assert(text[n + i] == text.subrange(0, whole.len() as int)[n + i]);
        assert(whole[n + i] == b[i]);
        assert(p == b.subrange(0, p.len() as int));
        assert(b[i] == b.subrange(0, p.len() as int)[i]);
    }
    assert(text.subrange(n, n + p.len()) =~= p);
}

/// `pat` stands nowhere in `text`.
pub open spec fn free_of(text: Seq<char>, pat: Seq<char>) -> bool {
    forall|j: int| !occurs_at(text, pat, j)
}

/// `pat` cannot lie across the place where `x` ends and `y` begins: one of
/// the two is empty, or the last character of `x` or the first of `y` is
/// none of `pat`.
pub open spec fn parted(x: Seq<char>, y: Seq<char>, pat: Seq<char>) -> bool {
    ||| x.len() == 0
    ||| y.len() == 0
    ||| lacks(pat, x.last())
    ||| lacks(pat, y[0])
}

/// Where `pat` cannot lie across the place where `x` ends and `y` begins,
/// it stands in `x + y` only where it stands in `x` or in `y`.
pub proof fn lemma_occurs_in_parts(x: Seq<char>, y: Seq<char>, pat: Seq<char>, j: int)
    requires
        pat.len() > 0,
        parted(x, y, pat),
        occurs_at(x + y, pat, j),
    ensures
        occurs_at(x, pat, j) || (j >= x.len() && occurs_at(y, pat, j - x.len())),
{
    let text = x + y;
    let n = x.len() as int;
    let m = pat.len() as int;
    let window = text.subrange(j, j + m);
    if j + m <= n {
        assert(x.subrange(j, j + m) =~= window);
    } else if j >= n {
        assert(y.subrange(j - n, j - n + m) =~= window);
    } else {
        assert(window[n - 1 - j] == x.last());
        assert(window[n - j] == y[0]);
        assert(pat[n - 1 - j] == x.last());
        assert(pat[n - j] == y[0]);
    }
}

/// Where `pat` stands neither in `x` nor in `y` and cannot lie across the
/// place where they meet, it does not stand in `x + y`.
pub proof fn lemma_free_parts(x: Seq<char>, y: Seq<char>, pat: Seq<char>)
    requires
        pat.len() > 0,
        parted(x, y, pat),
        free_of(x, pat),
        free_of(y, pat),
    ensures
        free_of(x + y, pat),
{
    assert forall|j: int| !occurs_at(x + y, pat, j) by {
        if occurs_at(x + y, pat, j) {
            lemma_occurs_in_parts(x, y, pat, j);
        }
    }
}

/// The characters of a string, for scanning by index.
pub fn to_chars(s: &str) -> (chars: Vec<char>)
    ensures
        chars@ == s@,
{
    let mut chars: Vec<char> = Vec::new();
    let source = s.chars();
    for c in it: source
        invariant
            chars@ == it.seq().take(it.index() as int),
            it.seq() == s@,
    {
        chars.push(c);
    }
    chars
}

/// `pat` stands at offset `at` of `text`.
fn matches_at(text: &Vec<char>, at: usize, pat: &Vec<char>) -> (r: bool)
    requires
        at + pat@.len() <= text@.len(),
    ensures
        r == occurs_at(text@, pat@, at as int),
{
    let m = pat.len();
    let n = text.len();
    let mut k: usize = 0;
    while k < m
        invariant
            m == pat@.len(),
            n == text@.len(),
            at + m <= n,
            k <= m,
            forall|j: int| 0 <= j < k ==> text@[at + j] == pat@[j],
        decreases m - k,
    {
        if text[at + k] != pat[k] {
            proof {
                let window = text@.subrange(at as int, at + m);
                assert(window[k as int] == text@[at + k]);
            }
            return false;
        }
        k += 1;
    }
    assert(text@.subrange(at as int, at + m) =~= pat@);
    true
}

/// The first occurrence of `pat` inside `text[from..to]`, as an offset into
/// `text`.
pub fn find_in(text: &Vec<char>, from: usize, to: usize, pat: &Vec<char>) -> (r: Option<usize>)
    requires
        from <= to <= text@.len(),
    ensures
        match r {
            Some(i) => {
                &&& from <= i
                &&& i + pat@.len() <= to
                &&& find(text@.subrange(from as int, to as int), pat@) == Some(i - from)
            },
            None => find(text@.subrange(from as int, to as int), pat@) is None,
        },
{
    let ghost window = text@.subrange(from as int, to as int);
    let m = pat.len();
    if to - from < m {
        proof {
            lemma_find_none(window, pat@);
        }
        return None;
    }
    let last = to - m;
    let mut i = from;
    loop
        invariant
            from <= i <= last,
            last == to - m,
            m == pat@.len(),
            from <= to <= text@.len(),
            window == text@.subrange(from as int, to as int),
            forall|j: int| 0 <= j < i - from ==> !occurs_at(window, pat@, j),
        decreases last - i,
    {
        let hit = matches_at(text, i, pat);
        proof {
            assert(window.subrange(i - from, i - from + m) =~= text@.subrange(i as int, i + m));
        }
        if hit {
            proof {
                lemma_find_first(window, pat@, i - from);
            }
            return Some(i);
        }
        if i == last {
            proof {
                lemma_find_none(window, pat@);
            }
            return None;
        }
        i += 1;
    }
}

/// Whether two texts hold the same characters.
pub fn same_text(a: &str, b: &str) -> (r: bool)
    ensures
        r == (a@ == b@),
{
    a.to_owned() == b.to_owned()
}

/// A copy of the characters `from..to` of `s`.
pub fn substring(s: &str, from: usize, to: usize) -> (r: String)
    requires
        from <= to <= s@.len(),
    ensures
        r@ == s@.subrange(from as int, to as int),
{
    s.substring_char(from, to).to_owned()
}

} // verus!
