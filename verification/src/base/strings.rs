//! Trimming, searching and splitting of text, stated over sequences of
//! characters.

use vstd::prelude::*;
use vstd::string::*;

verus! {

/// A set of characters given by one character: the character itself, or
/// every character but it.
#[derive(Clone, Copy, Debug, PartialEq, Eq, Structural)]
pub struct CharClass {
    pub ch: char,
    pub negated: bool,
}

impl CharClass {
    pub open spec fn has(self, c: char) -> bool {
        (c == self.ch) != self.negated
    }

    pub fn only(ch: char) -> (r: CharClass)
        ensures
            r == (CharClass { ch, negated: false }),
    {
        CharClass { ch, negated: false }
    }

    pub fn all_but(ch: char) -> (r: CharClass)
        ensures
            r == (CharClass { ch, negated: true }),
    {
        CharClass { ch, negated: true }
    }

    pub fn contains(&self, c: char) -> (r: bool)
        ensures
            r == self.has(c),
    {
        (c == self.ch) != self.negated
    }
}

/// How many characters at the start of `s` belong to `class`.
pub open spec fn leading(s: Seq<char>, class: CharClass) -> nat
    decreases s.len(),
{
    if s.len() > 0 && class.has(s[0]) {
        1 + leading(s.skip(1), class)
    } else {
        0
    }
}

/// How many characters at the end of `s` belong to `class`.
pub open spec fn trailing(s: Seq<char>, class: CharClass) -> nat
    decreases s.len(),
{
    if s.len() > 0 && class.has(s.last()) {
        1 + trailing(s.drop_last(), class)
    } else {
        0
    }
}

/// `s` without its leading characters of `class`.
pub open spec fn trim_start(s: Seq<char>, class: CharClass) -> Seq<char> {
    s.skip(leading(s, class) as int)
}

/// `s` without its trailing characters of `class`.
pub open spec fn trim_end(s: Seq<char>, class: CharClass) -> Seq<char> {
    s.take(s.len() - trailing(s, class))
}

/// `s` without the characters of `class` at either end.
pub open spec fn trim(s: Seq<char>, class: CharClass) -> Seq<char> {
    trim_end(trim_start(s, class), class)
}

/// The texts of a list of strings.
pub open spec fn strings_view(s: Seq<String>) -> Seq<Seq<char>> {
    Seq::new(s.len(), |i: int| s[i]@)
}

/// Whether `pat` occurs in `s` at index `i`.
pub open spec fn occurs_at(s: Seq<char>, pat: Seq<char>, i: int) -> bool {
    0 <= i && i + pat.len() <= s.len() && s.subrange(i, i + pat.len()) == pat
}

/// Whether `pat` occurs somewhere in `s`.
pub open spec fn contains_text(s: Seq<char>, pat: Seq<char>) -> bool {
    exists|i: int| occurs_at(s, pat, i)
}

/// The index of the first `c` in `s`, or the length of `s` where there is none.
pub open spec fn first_index(s: Seq<char>, c: char) -> nat {
    leading(s, CharClass { ch: c, negated: true })
}

/// The number of characters after the last `c` in `s`: all of them where
/// there is none.
pub open spec fn after_last(s: Seq<char>, c: char) -> nat {
    trailing(s, CharClass { ch: c, negated: true })
}

/// `s` with every `from` replaced by `to`.
pub open spec fn replace_char(s: Seq<char>, from: char, to: char) -> Seq<char> {
    Seq::new(s.len(), |i: int| if s[i] == from { to } else { s[i] })
}

/// `s` with every `from` replaced by the text `to`.
pub open spec fn replace_text(s: Seq<char>, from: char, to: Seq<char>) -> Seq<char>
    decreases s.len(),
{
    if s.len() == 0 {
        Seq::empty()
    } else {
        replace_text(s.drop_last(), from, to) + if s.last() == from {
            to
        } else {
            seq![s.last()]
        }
    }
}

/// To replace a character by a text of one character is to replace it
/// by that character.
pub proof fn lemma_replace_by_one_char(s: Seq<char>, from: char, to: char)
    ensures
        replace_text(s, from, seq![to]) == replace_char(s, from, to),
    decreases s.len(),
{
    if s.len() > 0 {
        lemma_replace_by_one_char(s.drop_last(), from, to);
        assert(replace_text(s, from, seq![to]) =~= replace_char(s, from, to));
    } else {
        assert(replace_text(s, from, seq![to]) =~= replace_char(s, from, to));
    }
}

pub proof fn lemma_leading_bound(s: Seq<char>, class: CharClass)
    ensures
        leading(s, class) <= s.len(),
        forall|j: int| 0 <= j < leading(s, class) ==> class.has(#[trigger] s[j]),
        leading(s, class) < s.len() ==> !class.has(s[leading(s, class) as int]),
    decreases s.len(),
{
    if s.len() > 0 && class.has(s[0]) {
        let t = s.skip(1);
        lemma_leading_bound(t, class);
        assert forall|j: int| 0 <= j < leading(s, class) implies class.has(#[trigger] s[j]) by {
            if j > 0 {
                assert(s[j] == t[j - 1]);
            }
        }
        if leading(s, class) < s.len() {
            assert(s[leading(s, class) as int] == t[leading(t, class) as int]);
        }
    }
}

/// A count of leading characters is the one that `leading` gives as soon
/// as the next character, if any, is outside the class.
pub proof fn lemma_leading_is(s: Seq<char>, class: CharClass, n: nat)
    requires
        n <= s.len(),
        forall|j: int| 0 <= j < n ==> class.has(#[trigger] s[j]),
        n < s.len() ==> !class.has(s[n as int]),
    ensures
        leading(s, class) == n,
    decreases s.len(),
{
    if n > 0 {
        let t = s.skip(1);
        assert forall|j: int| 0 <= j < n - 1 implies class.has(#[trigger] t[j]) by {
            assert(t[j] == s[j + 1]);
        }
        if n - 1 < t.len() {
            assert(t[n - 1] == s[n as int]);
        }
        lemma_leading_is(t, class, (n - 1) as nat);
    }
}

pub proof fn lemma_trailing_bound(s: Seq<char>, class: CharClass)
    ensures
        trailing(s, class) <= s.len(),
        forall|j: int| s.len() - trailing(s, class) <= j < s.len() ==> class.has(#[trigger] s[j]),
        trailing(s, class) < s.len() ==> !class.has(s[s.len() - trailing(s, class) - 1]),
    decreases s.len(),
{
    if s.len() > 0 && class.has(s.last()) {
        let t = s.drop_last();
        lemma_trailing_bound(t, class);
        assert forall|j: int| s.len() - trailing(s, class) <= j < s.len() implies class.has(
            #[trigger] s[j],
        ) by {
            if j < s.len() - 1 {
                assert(s[j] == t[j]);
            }
        }
        if trailing(s, class) < s.len() {
            assert(s[s.len() - trailing(s, class) - 1] == t[t.len() - trailing(t, class) - 1]);
        }
    }
}

/// A count of trailing characters is the one that `trailing` gives as soon
/// as the character before them, if any, is outside the class.
pub proof fn lemma_trailing_is(s: Seq<char>, class: CharClass, n: nat)
    requires
        n <= s.len(),
        forall|j: int| s.len() - n <= j < s.len() ==> class.has(#[trigger] s[j]),
        n < s.len() ==> !class.has(s[s.len() - n - 1]),
    ensures
        trailing(s, class) == n,
    decreases s.len(),
{
    if n > 0 {
        let t = s.drop_last();
        assert forall|j: int| t.len() - (n - 1) <= j < t.len() implies class.has(#[trigger] t[j]) by {
            assert(t[j] == s[j]);
        }
        if n - 1 < t.len() {
            assert(t[t.len() - (n - 1) - 1] == s[s.len() - n - 1]);
        }
        lemma_trailing_is(t, class, (n - 1) as nat);
    }
}

/// Whether two texts hold the same characters.
pub fn str_eq(a: &str, b: &str) -> (r: bool)
    ensures
        r == (a@ == b@),
{
    let x = a.to_owned();
    let y = b.to_owned();
    x == y
}

/// The number of characters at the start of `s` that belong to `class`.
pub fn count_leading(s: &str, class: CharClass) -> (n: usize)
    ensures
        n == leading(s@, class),
{
    let len = s.unicode_len();
    let mut i: usize = 0;
    while i < len && class.contains(s.get_char(i))
        invariant
            i <= len,
            len == s@.len(),
            forall|j: int| 0 <= j < i ==> class.has(#[trigger] s@[j]),
        decreases len - i,
    {
        i += 1;
    }
    proof {
        lemma_leading_is(s@, class, i as nat);
    }
    i
}

/// The number of characters at the end of `s` that belong to `class`.
pub fn count_trailing(s: &str, class: CharClass) -> (n: usize)
    ensures
        n == trailing(s@, class),
{
    let len = s.unicode_len();
    let mut i: usize = 0;
    while i < len && class.contains(s.get_char(len - i - 1))
        invariant
            i <= len,
            len == s@.len(),
            forall|j: int| len - i <= j < len ==> class.has(#[trigger] s@[j]),
        decreases len - i,
    {
        i += 1;
    }
    proof {
        lemma_trailing_is(s@, class, i as nat);
    }
    i
}

pub fn trim_start_matches<'a>(s: &'a str, class: CharClass) -> (r: &'a str)
    ensures
        r@ == trim_start(s@, class),
{
    let n = count_leading(s, class);
    proof {
        lemma_leading_bound(s@, class);
    }
    let r = s.substring_char(n, s.unicode_len());
    assert(r@ =~= trim_start(s@, class));
    r
}

pub fn trim_end_matches<'a>(s: &'a str, class: CharClass) -> (r: &'a str)
    ensures
        r@ == trim_end(s@, class),
{
    let n = count_trailing(s, class);
    proof {
        lemma_trailing_bound(s@, class);
    }
    let r = s.substring_char(0, s.unicode_len() - n);
    assert(r@ =~= trim_end(s@, class));
    r
}

pub fn trim_matches<'a>(s: &'a str, class: CharClass) -> (r: &'a str)
    ensures
        r@ == trim(s@, class),
{
    trim_end_matches(trim_start_matches(s, class), class)
}

pub fn starts_with_char(s: &str, c: char) -> (r: bool)
    ensures
        r == (s@.len() > 0 && s@[0] == c),
{
    s.unicode_len() > 0 && s.get_char(0) == c
}

pub fn ends_with_char(s: &str, c: char) -> (r: bool)
    ensures
        r == (s@.len() > 0 && s@.last() == c),
{
    let n = s.unicode_len();
    n > 0 && s.get_char(n - 1) == c
}

/// Whether `pat` occurs in `s` at the character index `i`.
fn matches_at(s: &str, n: usize, pat: &str, i: usize) -> (r: bool)
    requires
        n == s@.len(),
        i + pat@.len() <= s@.len(),
    ensures
        r == occurs_at(s@, pat@, i as int),
{
    let m = pat.unicode_len();
    let mut k: usize = 0;
    while k < m
        invariant
            k <= m,
            m == pat@.len(),
            n == s@.len(),
            i + m <= n,
            forall|j: int| 0 <= j < k ==> s@[i + j] == pat@[j],
        decreases m - k,
    {
        if s.get_char(i + k) != pat.get_char(k) {
            proof {
                let sub = s@.subrange(i as int, i + m);
                assert(sub[k as int] == s@[i + k]);
            }
            return false;
        }
        k += 1;
    }
    assert(s@.subrange(i as int, i + m) =~= pat@);
    true
}

/// Whether `pat` occurs somewhere in `s`.
pub fn contains(s: &str, pat: &str) -> (r: bool)
    ensures
        r == contains_text(s@, pat@),
{
    let n = s.unicode_len();
    let m = pat.unicode_len();
    if m > n {
        return false;
    }
    let last = n - m;
    let mut i: usize = 0;
    loop
        invariant
            i <= last,
            last == n - m,
            m <= n,
            n == s@.len(),
            m == pat@.len(),
            forall|j: int| 0 <= j < i ==> !occurs_at(s@, pat@, j),
        decreases last - i,
    {
        if matches_at(s, n, pat, i) {
            return true;
        }
        if i == last {
            return false;
        }
        i += 1;
    }
}

/// `s` with every `from` replaced by `to`.
pub fn replace(s: &str, from: char, to: &str) -> (r: String)
    ensures
        r@ == replace_text(s@, from, to@),
{
    let n = s.unicode_len();
    let mut out = String::new();
    let mut i: usize = 0;
    while i < n
        invariant
            i <= n,
            n == s@.len(),
            out@ == replace_text(s@.take(i as int), from, to@),
        decreases n - i,
    {
        let ghost next = s@.take(i + 1);
        assert(next.drop_last() =~= s@.take(i as int));
        assert(next.last() == s@[i as int]);
        if s.get_char(i) == from {
            out.append(to);
        } else {
            out.append(s.substring_char(i, i + 1));
            assert(s@.subrange(i as int, i + 1) =~= seq![s@[i as int]]);
        }
        i += 1;
    }
    assert(s@.take(n as int) == s@);
    out
}

} // verus!
