//! Character-level helpers shared by the front end and the template engine.
//!
//! Text is modelled as a sequence of Unicode scalar values: the view of a
//! `str` or `String`, or of a slice of `char`.

use vstd::prelude::*;

verus! {

/// `String::push` appends one character to the end of the string.
pub assume_specification[ std::string::String::push ](s: &mut std::string::String, ch: char)
    ensures
        final(s)@ == old(s)@.push(ch),
;

/// Whether a character beyond ASCII has the Unicode `White_Space`
/// property, as `char::is_whitespace` reports it.
pub uninterp spec fn unicode_whitespace(c: char) -> bool;

/// Whether an ASCII character is whitespace: the blank, and the characters
/// from the tab to the carriage return.
pub open spec fn ascii_whitespace(c: char) -> bool {
    c == ' ' || ('\u{9}' <= c && c <= '\u{d}')
}

/// Whether a character is whitespace: it has the Unicode `White_Space`
/// property. Of the ASCII characters those are the blank and the
/// characters from the tab to the carriage return.
pub open spec fn whitespace(c: char) -> bool {
    if c <= '\u{7f}' {
        ascii_whitespace(c)
    } else {
        unicode_whitespace(c)
    }
}

/// `char::is_whitespace` tells whether a character has the Unicode
/// `White_Space` property. Its result is a function of the character alone:
/// spelled out for the ASCII characters, named [`unicode_whitespace`] for
/// the others.
pub assume_specification[ char::is_whitespace ](c: char) -> (r: bool)
    ensures
        c <= '\u{7f}' ==> r == ascii_whitespace(c),
        c > '\u{7f}' ==> r == unicode_whitespace(c),
;

/// The characters of `s`, in order.
pub fn to_chars(s: &str) -> (v: Vec<char>)
    ensures
        v@ == s@,
{
    let mut v: Vec<char> = Vec::new();
    for c in it: s.chars()
        invariant
            it.seq() == s@,
            v@ == it.seq().take(it.index() as int),
    {
        v.push(c);
    }
    v
}

/// A string holding the characters of `s`, in order.
pub fn to_text(s: &[char]) -> (t: String)
    ensures
        t@ == s@,
{
    let mut t = String::new();
    let mut i: usize = 0;
    while i < s.len()
        invariant
            i <= s.len(),
            t@ == s@.take(i as int),
        decreases s.len() - i,
    {
        t.push(s[i]);
        i += 1;
    }
    t
}

/// Whether two strings hold the same characters.
pub fn same_text(a: &str, b: &str) -> (r: bool)
    ensures
        r == (a@ == b@),
{
    let x = to_chars(a);
    let y = to_chars(b);
    same_chars(x.as_slice(), y.as_slice())
}

/// Whether two character slices hold the same characters.
pub fn same_chars(a: &[char], b: &[char]) -> (r: bool)
    ensures
        r == (a@ == b@),
{
    if a.len() != b.len() {
        return false;
    }
    let mut i: usize = 0;
    while i < a.len()
        invariant
            i <= a.len(),
            a.len() == b.len(),
            a@.take(i as int) == b@.take(i as int),
        decreases a.len() - i,
    {
        if a[i] != b[i] {
            return false;
        }
        assert(a@.take(i + 1) == a@.take(i as int).push(a@[i as int]));
        assert(b@.take(i + 1) == b@.take(i as int).push(b@[i as int]));
        i += 1;
    }
    assert(a@.take(a.len() as int) == a@);
    assert(b@.take(b.len() as int) == b@);
    true
}

/// Length of the longest prefix of `s` made of whitespace only.
pub open spec fn leading_whitespace(s: Seq<char>) -> nat
    decreases s.len(),
{
    if s.len() > 0 && whitespace(s[0]) {
        1 + leading_whitespace(s.drop_first())
    } else {
        0
    }
}

/// Length of the longest suffix of `s` made of whitespace only.
pub open spec fn trailing_whitespace(s: Seq<char>) -> nat
    decreases s.len(),
{
    if s.len() > 0 && whitespace(s.last()) {
        1 + trailing_whitespace(s.drop_last())
    } else {
        0
    }
}

/// `s` without its leading whitespace.
pub open spec fn trimmed_start(s: Seq<char>) -> Seq<char> {
    s.skip(leading_whitespace(s) as int)
}

/// `s` without its leading and trailing whitespace.
pub open spec fn trimmed(s: Seq<char>) -> Seq<char> {
    let t = trimmed_start(s);
    t.take(t.len() - trailing_whitespace(t))
}

/// The leading whitespace of a text is part of the text.
pub proof fn lemma_leading_whitespace_bound(s: Seq<char>)
    ensures
        leading_whitespace(s) <= s.len(),
    decreases s.len(),
{
    if s.len() > 0 && whitespace(s[0]) {
        lemma_leading_whitespace_bound(s.drop_first());
    }
}

/// The trailing whitespace of a text is part of the text.
pub proof fn lemma_trailing_whitespace_bound(s: Seq<char>)
    ensures
        trailing_whitespace(s) <= s.len(),
    decreases s.len(),
{
    if s.len() > 0 && whitespace(s.last()) {
        lemma_trailing_whitespace_bound(s.drop_last());
    }
}

/// Counts the whitespace characters at the start of `s`.
pub fn count_leading_whitespace(s: &[char]) -> (n: usize)
    ensures
        n == leading_whitespace(s@),
        n <= s.len(),
{
    let mut i: usize = 0;
    assert(s@.skip(0) == s@);
    while i < s.len() && s[i].is_whitespace()
        invariant
            i <= s.len(),
            leading_whitespace(s@) == i + leading_whitespace(s@.skip(i as int)),
        decreases s.len() - i,
    {
        proof {
            let rest = s@.skip(i as int);
            assert(rest[0] == s@[i as int]);
            assert(rest.drop_first() == s@.skip(i + 1));
        }
        i += 1;
    }
    proof {
        let rest = s@.skip(i as int);
        if i < s.len() {
            assert(rest[0] == s@[i as int]);
        }
    }
    i
}

/// Counts the whitespace characters at the end of `s`.
pub fn count_trailing_whitespace(s: &[char]) -> (n: usize)
    ensures
        n == trailing_whitespace(s@),
        n <= s.len(),
{
    let mut k: usize = s.len();
    assert(s@.take(s.len() as int) == s@);
    while k > 0 && s[k - 1].is_whitespace()
        invariant
            k <= s.len(),
            trailing_whitespace(s@) == (s.len() - k) + trailing_whitespace(s@.take(k as int)),
        decreases k,
    {
        proof {
            let head = s@.take(k as int);
            assert(head.last() == s@[k - 1]);
            assert(head.drop_last() == s@.take(k - 1));
        }
        k -= 1;
    }
    proof {
        let head = s@.take(k as int);
        if k > 0 {
            assert(head.last() == s@[k - 1]);
        }
        assert(s@.take(s.len() as int) == s@);
    }
    s.len() - k
}

/// The part of `s` between its leading and its trailing whitespace.
pub fn trim(s: &[char]) -> (t: &[char])
    ensures
        t@ == trimmed(s@),
{
    let a = count_leading_whitespace(s);
    let rest = &s[a..s.len()];
    let b = count_trailing_whitespace(rest);
    &rest[0..rest.len() - b]
}

/// The part of `s` after its leading whitespace.
pub fn trim_start(s: &[char]) -> (t: &[char])
    ensures
        t@ == trimmed_start(s@),
{
    let a = count_leading_whitespace(s);
    &s[a..s.len()]
}

/// Whether `s` begins with the characters of `prefix`.
pub open spec fn starts_with(s: Seq<char>, prefix: Seq<char>) -> bool {
    prefix.len() <= s.len() && s.take(prefix.len() as int) == prefix
}

/// Index of the first occurrence of `x` in `s`, or the length of `s` when
/// there is none.
pub open spec fn index_of<T>(s: Seq<T>, x: T) -> nat
    decreases s.len(),
{
    if s.len() == 0 || s[0] == x {
        0
    } else {
        1 + index_of(s.drop_first(), x)
    }
}

/// [`index_of`] is the one index that has `x` at it and not before it.
pub proof fn lemma_index_of<T>(s: Seq<T>, x: T, i: int)
    requires
        0 <= i <= s.len(),
        i < s.len() ==> s[i] == x,
        forall|j: int| 0 <= j < i ==> s[j] != x,
    ensures
        index_of(s, x) == i,
    decreases s.len(),
{
    if s.len() == 0 || s[0] == x {
    } else {
        assert forall|j: int| 0 <= j < i - 1 implies s.drop_first()[j] != x by {
            assert(s.drop_first()[j] == s[j + 1]);
        }
        lemma_index_of(s.drop_first(), x, i - 1);
    }
}

/// What stands at [`index_of`], and what does not stand before it.
pub proof fn lemma_index_of_found<T>(s: Seq<T>, x: T)
    ensures
        index_of(s, x) <= s.len(),
        index_of(s, x) < s.len() ==> s[index_of(s, x) as int] == x,
        forall|j: int| 0 <= j < index_of(s, x) ==> s[j] != x,
    decreases s.len(),
{
    if s.len() == 0 || s[0] == x {
    } else {
        lemma_index_of_found(s.drop_first(), x);
        assert forall|j: int| 0 <= j < index_of(s, x) implies s[j] != x by {
            if j > 0 {
                assert(s[j] == s.drop_first()[j - 1]);
            }
        }
    }
}

/// A sequence holds `x` exactly where [`index_of`] points into it.
pub proof fn lemma_contains_index_of<T>(s: Seq<T>, x: T)
    ensures
        s.contains(x) <==> index_of(s, x) < s.len(),
{
    lemma_index_of_found(s, x);
    if s.contains(x) {
        let i = choose|i: int| 0 <= i < s.len() && s[i] == x;
        if index_of(s, x) >= s.len() {
            assert(s[i] != x);
        }
    } else {
        if index_of(s, x) < s.len() {
            assert(s[index_of(s, x) as int] == x);
        }
    }
}

/// Finds the first occurrence of `c` in `s`.
pub fn find_char(s: &[char], c: char) -> (n: usize)
    ensures
        n == index_of(s@, c),
        n <= s.len(),
{
    let mut i: usize = 0;
    assert(s@.skip(0) == s@);
    while i < s.len() && s[i] != c
        invariant
            i <= s.len(),
            index_of(s@, c) == i + index_of(s@.skip(i as int), c),
        decreases s.len() - i,
    {
        proof {
            let rest = s@.skip(i as int);
            assert(rest[0] == s@[i as int]);
            assert(rest.drop_first() == s@.skip(i + 1));
        }
        i += 1;
    }
    proof {
        let rest = s@.skip(i as int);
        if i < s.len() {
            assert(rest[0] == s@[i as int]);
        }
    }
    i
}

/// Whether `s` begins with the characters of `prefix`.
pub fn has_prefix(s: &[char], prefix: &str) -> (r: bool)
    ensures
        r == starts_with(s@, prefix@),
{
    let p = to_chars(prefix);
    if p.len() > s.len() {
        return false;
    }
    same_chars(&s[0..p.len()], p.as_slice())
}

} // verus!
