//! Searching, slicing and decimal numbers in text.
//!
//! Positions count characters, not bytes.
use vstd::prelude::*;
use vstd::string::*;

verus! {

/// `pat` stands in `s` at position `i`.
pub open spec fn occurs_at(s: Seq<char>, pat: Seq<char>, i: int) -> bool {
    &&& 0 <= i
    &&& i + pat.len() <= s.len()
    &&& forall|k: int| 0 <= k < pat.len() ==> s[i + k] == #[trigger] pat[k]
}

/// `pat` stands somewhere in `s`.
pub open spec fn has(s: Seq<char>, pat: Seq<char>) -> bool {
    exists|i: int| #[trigger] occurs_at(s, pat, i)
}

/// `s` begins with `pat`.
pub open spec fn begins(s: Seq<char>, pat: Seq<char>) -> bool {
    occurs_at(s, pat, 0)
}

/// `s` ends with `pat`.
pub open spec fn ends(s: Seq<char>, pat: Seq<char>) -> bool {
    occurs_at(s, pat, s.len() - pat.len())
}

/// `i` is the leftmost position of `pat` in `s`.
pub open spec fn is_leftmost(s: Seq<char>, pat: Seq<char>, i: int) -> bool {
    &&& occurs_at(s, pat, i)
    &&& forall|j: int| #[trigger] occurs_at(s, pat, j) ==> i <= j
}

/// `i` is the rightmost position of `pat` in `s`.
pub open spec fn is_rightmost(s: Seq<char>, pat: Seq<char>, i: int) -> bool {
    &&& occurs_at(s, pat, i)
    &&& forall|j: int| #[trigger] occurs_at(s, pat, j) ==> j <= i
}

/// The leftmost position of `pat` in `s`, if there is one.
pub open spec fn first_at(s: Seq<char>, pat: Seq<char>) -> Option<int> {
    if has(s, pat) {
        Some(choose|i: int| is_leftmost(s, pat, i))
    } else {
        None
    }
}

/// The rightmost position of `pat` in `s`, if there is one.
pub open spec fn last_at(s: Seq<char>, pat: Seq<char>) -> Option<int> {
    if has(s, pat) {
        Some(choose|i: int| is_rightmost(s, pat, i))
    } else {
        None
    }
}

/// A position that is leftmost is the one that `first_at` gives.
pub proof fn lemma_first_at(s: Seq<char>, pat: Seq<char>, i: int)
    requires
        is_leftmost(s, pat, i),
    ensures
        first_at(s, pat) == Some(i),
{
    assert(occurs_at(s, pat, i));
    let c = choose|j: int| is_leftmost(s, pat, j);
    assert(is_leftmost(s, pat, c));
    assert(occurs_at(s, pat, c));
}

proof fn lemma_leftmost_up_to(s: Seq<char>, pat: Seq<char>, i: int)
    requires
        occurs_at(s, pat, i),
    ensures
        exists|j: int| #[trigger] is_leftmost(s, pat, j),
    decreases i,
{
    if exists|j: int| j < i && #[trigger] occurs_at(s, pat, j) {
        let j = choose|j: int| j < i && #[trigger] occurs_at(s, pat, j);
        lemma_leftmost_up_to(s, pat, j);
    } else {
        assert(is_leftmost(s, pat, i));
    }
}

/// What occurs has a leftmost position, and `first_at` gives it.
pub proof fn lemma_first_is_leftmost(s: Seq<char>, pat: Seq<char>)
    requires
        has(s, pat),
    ensures
        first_at(s, pat) is Some,
        is_leftmost(s, pat, first_at(s, pat)->0),
{
    let i = choose|i: int| #[trigger] occurs_at(s, pat, i);
    lemma_leftmost_up_to(s, pat, i);
}

/// A position that is rightmost is the one that `last_at` gives.
pub proof fn lemma_last_at(s: Seq<char>, pat: Seq<char>, i: int)
    requires
        is_rightmost(s, pat, i),
    ensures
        last_at(s, pat) == Some(i),
{
    assert(occurs_at(s, pat, i));
    let c = choose|j: int| is_rightmost(s, pat, j);
    assert(is_rightmost(s, pat, c));
    assert(occurs_at(s, pat, c));
}

/// The characters of `s`.
pub fn chars_of(s: &str) -> (r: Vec<char>)
    ensures
        r@ == s@,
{
    let mut r: Vec<char> = Vec::new();
    for c in it: s.chars()
        invariant
            r@ == it.seq().take(it.index() as int),
            it.seq() == s@,
    {
        r.push(c);
    }
    assert(s@.take(s@.len() as int) == s@);
    r
}

fn at(s: &Vec<char>, pat: &Vec<char>, i: usize) -> (r: bool)
    requires
        i + pat.len() <= s.len(),
    ensures
        r == occurs_at(s@, pat@, i as int),
{
    let mut k: usize = 0;
    while k < pat.len()
        invariant
            k <= pat.len(),
            i + pat.len() <= s.len(),
            forall|m: int| 0 <= m < k ==> s@[i + m] == #[trigger] pat@[m],
        decreases pat.len() - k,
    {
        if s[i + k] != pat[k] {
            assert(s@[i + k] != pat@[k as int]);
            return false;
        }
        k = k + 1;
    }
    true
}

/// Whether `a` and `b` hold the same characters.
pub fn same(a: &str, b: &str) -> (r: bool)
    ensures
        r == (a@ == b@),
{
    let x = chars_of(a);
    let y = chars_of(b);
    if x.len() != y.len() {
        return false;
    }
    let r = at(&x, &y, 0);
    proof {
        if r {
            assert forall|k: int| 0 <= k < x@.len() implies x@[k] == y@[k] by {
                assert(x@[0 + k] == y@[k]);
            }
            assert(x@ =~= y@);
        } else if a@ == b@ {
            assert(occurs_at(x@, y@, 0));
        }
    }
    r
}

/// Whether `pat` stands somewhere in `s`.
pub fn contains(s: &str, pat: &str) -> (r: bool)
    ensures
        r == has(s@, pat@),
{
    find(s, pat).is_some()
}

/// Whether `s` begins with `pat`.
pub fn starts_with(s: &str, pat: &str) -> (r: bool)
    ensures
        r == begins(s@, pat@),
{
    let x = chars_of(s);
    let y = chars_of(pat);
    if y.len() > x.len() {
        return false;
    }
    at(&x, &y, 0)
}

/// Whether `s` ends with `pat`.
pub fn ends_with(s: &str, pat: &str) -> (r: bool)
    ensures
        r == ends(s@, pat@),
{
    let x = chars_of(s);
    let y = chars_of(pat);
    if y.len() > x.len() {
        return false;
    }
    at(&x, &y, x.len() - y.len())
}

/// The leftmost position of `pat` in `s`.
pub fn find(s: &str, pat: &str) -> (r: Option<usize>)
    ensures
        match r {
            Some(i) => first_at(s@, pat@) == Some(i as int) && is_leftmost(s@, pat@, i as int)
                && i + pat@.len() <= s@.len() <= usize::MAX,
            None => first_at(s@, pat@) is None,
        },
{
    let x = chars_of(s);
    let y = chars_of(pat);
    if y.len() > x.len() {
        return None;
    }
    let end: usize = x.len() - y.len();
    let mut i: usize = 0;
    while i <= end
        invariant
            x@ == s@,
            y@ == pat@,
            end == x.len() - y.len(),
            i <= end + 1,
            forall|j: int| #[trigger] occurs_at(s@, pat@, j) ==> i <= j,
        decreases end + 1 - i,
    {
        if at(&x, &y, i) {
            proof {
                lemma_first_at(s@, pat@, i as int);
            }
            return Some(i);
        }
        if i == end {
            assert forall|j: int| #[trigger] occurs_at(s@, pat@, j) implies false by {}
            return None;
        }
        i = i + 1;
    }
    None
}

/// The rightmost position of `pat` in `s`.
pub fn rfind(s: &str, pat: &str) -> (r: Option<usize>)
    ensures
        match r {
            Some(i) => last_at(s@, pat@) == Some(i as int) && is_rightmost(s@, pat@, i as int)
                && i + pat@.len() <= s@.len() <= usize::MAX,
            None => last_at(s@, pat@) is None,
        },
{
    let x = chars_of(s);
    let y = chars_of(pat);
    if y.len() > x.len() {
        return None;
    }
    let mut i: usize = x.len() - y.len();
    loop
        invariant
            x@ == s@,
            y@ == pat@,
            i + y.len() <= x.len(),
            forall|j: int| #[trigger] occurs_at(s@, pat@, j) ==> j <= i,
        decreases i,
    {
        if at(&x, &y, i) {
            proof {
                lemma_last_at(s@, pat@, i as int);
            }
            return Some(i);
        }
        if i == 0 {
            assert forall|j: int| #[trigger] occurs_at(s@, pat@, j) implies false by {}
            return None;
        }
        i = i - 1;
    }
}

/// The rest of `s` behind the prefix `pat`, if `s` begins with it.
pub fn strip_prefix<'a>(s: &'a str, pat: &str) -> (r: Option<&'a str>)
    ensures
        match r {
            Some(t) => begins(s@, pat@) && t@ == s@.skip(pat@.len() as int),
            None => !begins(s@, pat@),
        },
{
    if starts_with(s, pat) {
        let n = s.unicode_len();
        let m = pat.unicode_len();
        Some(s.substring_char(m, n))
    } else {
        None
    }
}

/// What stands in `s` before the suffix `pat`, if `s` ends with it.
pub fn strip_suffix<'a>(s: &'a str, pat: &str) -> (r: Option<&'a str>)
    ensures
        match r {
            Some(t) => ends(s@, pat@) && t@ == s@.take(s@.len() - pat@.len()),
            None => !ends(s@, pat@),
        },
{
    if ends_with(s, pat) {
        let n = s.unicode_len();
        let m = pat.unicode_len();
        Some(s.substring_char(0, n - m))
    } else {
        None
    }
}

// What searching means.

/// A text stands at a position where the part that begins there, as long as the
/// text, is the text. It begins or ends a longer one where that part is the first
/// or the last, and occurs where any part is.
pub proof fn law_occurrences_are_parts(s: Seq<char>, pat: Seq<char>, i: int)
    ensures
        occurs_at(s, pat, i) <==> 0 <= i && i + pat.len() <= s.len() && s.subrange(
            i,
            i + pat.len(),
        ) == pat,
        begins(s, pat) <==> pat.len() <= s.len() && s.take(pat.len() as int) == pat,
        ends(s, pat) <==> pat.len() <= s.len() && s.skip(s.len() - pat.len()) == pat,
        0 <= i && i + pat.len() <= s.len() && s.subrange(i, i + pat.len()) == pat ==> has(s, pat),
        has(s, pat) ==> exists|j: int|
            0 <= j && j + pat.len() <= s.len() && #[trigger] s.subrange(j, j + pat.len()) == pat,
{
    lemma_part(s, pat, i);
    lemma_part(s, pat, 0);
    lemma_part(s, pat, s.len() - pat.len());
    if pat.len() <= s.len() {
        assert(s.take(pat.len() as int) =~= s.subrange(0, 0 + pat.len() as int));
        assert(s.skip(s.len() - pat.len()) =~= s.subrange(
            s.len() - pat.len(),
            s.len() - pat.len() + pat.len(),
        ));
    }
    if has(s, pat) {
        let j = choose|j: int| #[trigger] occurs_at(s, pat, j);
        lemma_part(s, pat, j);
    }
}

proof fn lemma_part(s: Seq<char>, pat: Seq<char>, i: int)
    ensures
        occurs_at(s, pat, i) <==> 0 <= i && i + pat.len() <= s.len() && s.subrange(
            i,
            i + pat.len(),
        ) == pat,
{
    if 0 <= i && i + pat.len() <= s.len() {
        let part = s.subrange(i, i + pat.len());
        if part == pat {
            assert forall|k: int| 0 <= k < pat.len() implies s[i + k] == #[trigger] pat[k] by {
                assert(part[k] == s[i + k]);
            }
        }
        if occurs_at(s, pat, i) {
            assert forall|k: int| 0 <= k < pat.len() implies part[k] == pat[k] by {
                assert(s[i + k] == pat[k]);
            }
            assert(part =~= pat);
        }
    }
}

/// The first and the last position are found wherever the text occurs: no
/// occurrence lies before the first or behind the last.
pub proof fn law_first_and_last_enclose(s: Seq<char>, pat: Seq<char>, i: int)
    requires
        0 <= i,
        i + pat.len() <= s.len(),
        s.subrange(i, i + pat.len()) == pat,
    ensures
        first_at(s, pat) is Some,
        last_at(s, pat) is Some,
        0 <= first_at(s, pat)->0 <= i <= last_at(s, pat)->0 <= s.len() - pat.len(),
        s.subrange(first_at(s, pat)->0, first_at(s, pat)->0 + pat.len()) == pat,
        s.subrange(last_at(s, pat)->0, last_at(s, pat)->0 + pat.len()) == pat,
{
    lemma_part(s, pat, i);
    lemma_first_is_leftmost(s, pat);
    lemma_part(s, pat, first_at(s, pat)->0);
    lemma_rightmost_from(s, pat, i);
    let j = choose|j: int| #[trigger] is_rightmost(s, pat, j);
    lemma_last_at(s, pat, j);
    lemma_part(s, pat, j);
}

proof fn lemma_rightmost_from(s: Seq<char>, pat: Seq<char>, i: int)
    requires
        occurs_at(s, pat, i),
    ensures
        exists|j: int| #[trigger] is_rightmost(s, pat, j),
    decreases s.len() - i,
{
    if exists|j: int| j > i && #[trigger] occurs_at(s, pat, j) {
        let j = choose|j: int| j > i && #[trigger] occurs_at(s, pat, j);
        lemma_rightmost_from(s, pat, j);
    } else {
        assert(is_rightmost(s, pat, i));
    }
}

/// Where the text does not occur, nothing is found.
pub proof fn law_absent_text_is_not_found(s: Seq<char>, pat: Seq<char>)
    requires
        forall|j: int|
            0 <= j && j + pat.len() <= s.len() ==> #[trigger] s.subrange(j, j + pat.len()) != pat,
    ensures
        !(has(s, pat)),
        first_at(s, pat) is None,
        last_at(s, pat) is None,
{
    if has(s, pat) {
        let j = choose|j: int| #[trigger] occurs_at(s, pat, j);
        lemma_part(s, pat, j);
        assert(s.subrange(j, j + pat.len()) == pat);
    }
}

} // verus!
