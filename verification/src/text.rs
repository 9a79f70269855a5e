//! Character-level helpers shared by the string functions of the library.

use vstd::prelude::*;

verus! {

/// Appends `c` to `s`.
///
/// Trusted: calls `String::push`, whose documentation says it appends the
/// given char to the end of the string.
#[verifier::external_body]
pub(crate) fn push_char(s: &mut String, c: char)
    ensures
        final(s)@ == old(s)@.push(c),
{
    s.push(c);
}

/// The characters of `s`, in order.
pub(crate) fn chars_of(s: &str) -> (v: Vec<char>)
    ensures
        v@ == s@,
{
    broadcast use vstd::string::group_string_axioms;

    let mut v: Vec<char> = Vec::new();
    for c in it: s.chars()
        invariant
            v@ == it.seq().take(it.index() as int),
    {
        v.push(c);
    }
    v
}

/// Whether two character sequences are equal.
pub(crate) fn chars_eq(a: &Vec<char>, b: &Vec<char>) -> (r: bool)
    ensures
        r == (a@ == b@),
{
    if a.len() != b.len() {
        return false;
    }
    let n = a.len();
    let mut i: usize = 0;
    while i < n
        invariant
            n == a@.len() == b@.len(),
            i <= n,
            forall|j: int| 0 <= j < i ==> a@[j] == b@[j],
        decreases n - i,
    {
        if a[i] != b[i] {
            return false;
        }
        i = i + 1;
    }
    assert(a@ =~= b@);
    true
}

/// Whether two strings hold the same characters.
pub(crate) fn str_eq(a: &str, b: &str) -> (r: bool)
    ensures
        r == (a@ == b@),
{
    let ca = chars_of(a);
    let cb = chars_of(b);
    chars_eq(&ca, &cb)
}

/// ASCII `A`-`Z` mapped to `a`-`z`; every other character unchanged.
pub open spec fn ascii_lower_char(c: char) -> char {
    if 'A' <= c <= 'Z' {
        ((c as u32) + 32) as char
    } else {
        c
    }
}

/// `s` with ASCII letters lowered, as `to_ascii_lowercase` does.
pub open spec fn ascii_lower(s: Seq<char>) -> Seq<char> {
    Seq::new(s.len(), |i: int| ascii_lower_char(s[i]))
}

/// Equality up to ASCII case, as `eq_ignore_ascii_case` decides it.
pub open spec fn eq_ignore_ascii_case(a: Seq<char>, b: Seq<char>) -> bool {
    ascii_lower(a) == ascii_lower(b)
}

/// Lowers one ASCII letter.
fn lower_char(c: char) -> (r: char)
    ensures
        r == ascii_lower_char(c),
{
    if 'A' <= c && c <= 'Z' {
        let b = (c as u8) + 32;
        let r = b as char;
        assert(r == ascii_lower_char(c)) by {
            assert((c as u8) as u32 == c as u32);
        }
        r
    } else {
        c
    }
}

/// `s` with ASCII letters lowered.
pub(crate) fn lower_chars(s: &Vec<char>) -> (r: Vec<char>)
    ensures
        r@ == ascii_lower(s@),
{
    let n = s.len();
    let mut out: Vec<char> = Vec::new();
    let mut i: usize = 0;
    while i < n
        invariant
            n == s@.len(),
            i <= n,
            out@ == ascii_lower(s@.subrange(0, i as int)),
        decreases n - i,
    {
        out.push(lower_char(s[i]));
        assert(ascii_lower(s@.subrange(0, i + 1)) =~= ascii_lower(s@.subrange(0, i as int)).push(
            ascii_lower_char(s@[i as int]),
        ));
        i = i + 1;
    }
    assert(s@.subrange(0, n as int) =~= s@);
    out
}

/// Whether `needle` occurs in `hay` starting at position `i`.
pub open spec fn occurs_at<T>(hay: Seq<T>, needle: Seq<T>, i: int) -> bool {
    0 <= i && i + needle.len() <= hay.len() && hay.subrange(i, i + needle.len()) == needle
}

/// The first position at or after `from` where `needle` occurs in `hay`.
pub open spec fn is_first_occurrence<T>(hay: Seq<T>, needle: Seq<T>, from: int, k: int) -> bool {
    &&& from <= k
    &&& occurs_at(hay, needle, k)
    &&& forall|j: int| from <= j < k ==> !occurs_at(hay, needle, j)
}

/// Whether `needle` occurs in `hay` at position `i`.
pub(crate) fn matches_at(hay: &Vec<char>, needle: &Vec<char>, i: usize) -> (r: bool)
    ensures
        r == occurs_at(hay@, needle@, i as int),
{
    if i > hay.len() || needle.len() > hay.len() - i {
        return false;
    }
    let m = needle.len();
    let n = hay.len();
    let mut k: usize = 0;
    while k < m
        invariant
            m == needle@.len(),
            n == hay@.len(),
            i + m <= hay@.len(),
            k <= m,
            forall|j: int| 0 <= j < k ==> hay@[i + j] == needle@[j],
        decreases m - k,
    {
        if hay[i + k] != needle[k] {
            assert(hay@.subrange(i as int, i + m)[k as int] != needle@[k as int]);
            return false;
        }
        k = k + 1;
    }
    assert(hay@.subrange(i as int, i + m) =~= needle@);
    true
}

/// The first position at or after `from` where `needle` occurs in `hay`,
/// as `str::find` and `position` report it.
pub open spec fn spec_find<T>(hay: Seq<T>, needle: Seq<T>, from: int) -> Option<int> {
    if exists|k: int| from <= k && occurs_at(hay, needle, k) {
        Some(choose|k: int| is_first_occurrence(hay, needle, from, k))
    } else {
        None
    }
}

/// Whenever `needle` occurs at or after `from`, there is a first such place.
pub proof fn lemma_first_occurrence_exists<T>(hay: Seq<T>, needle: Seq<T>, from: int, k: int)
    requires
        from <= k,
        occurs_at(hay, needle, k),
    ensures
        exists|f: int| is_first_occurrence(hay, needle, from, f),
    decreases k - from,
{
    if exists|j: int| from <= j < k && occurs_at(hay, needle, j) {
        let j = choose|j: int| from <= j < k && occurs_at(hay, needle, j);
        lemma_first_occurrence_exists(hay, needle, from, j);
    } else {
        assert(is_first_occurrence(hay, needle, from, k));
    }
}

/// `spec_find` names the first occurrence, which is unique.
pub proof fn lemma_spec_find_first<T>(hay: Seq<T>, needle: Seq<T>, from: int, k: int)
    requires
        is_first_occurrence(hay, needle, from, k),
    ensures
        spec_find(hay, needle, from) == Some(k),
{
    lemma_first_occurrence_exists(hay, needle, from, k);
    let f = choose|f: int| is_first_occurrence(hay, needle, from, f);
    assert(f == k) by {
        if f < k {
            assert(!occurs_at(hay, needle, f));
        } else if k < f {
            assert(!occurs_at(hay, needle, k));
        }
    }
}

/// The first position at or after `from` where `needle` occurs in `hay`.
pub(crate) fn find_from(hay: &Vec<char>, needle: &Vec<char>, from: usize) -> (r: Option<usize>)
    ensures
        r matches Some(k) ==> is_first_occurrence(hay@, needle@, from as int, k as int)
            && spec_find(hay@, needle@, from as int) == Some(k as int),
        r is None ==> forall|j: int| from <= j ==> !occurs_at(hay@, needle@, j),
        r is None ==> spec_find(hay@, needle@, from as int) is None,
{
    let n = hay.len();
    if from > n {
        return None;
    }
    let mut i: usize = from;
    while i < n
        invariant
            n == hay@.len(),
            from <= i <= n,
            forall|j: int| from <= j < i ==> !occurs_at(hay@, needle@, j),
        decreases n - i,
    {
        if matches_at(hay, needle, i) {
            proof {
                lemma_spec_find_first(hay@, needle@, from as int, i as int);
            }
            return Some(i);
        }
        i = i + 1;
    }
    if matches_at(hay, needle, n) {
        proof {
            lemma_spec_find_first(hay@, needle@, from as int, n as int);
        }
        return Some(n);
    }
    None
}

} // verus!
