//! Small verified helpers over text, shared by the parsing code.

use vstd::prelude::*;
use vstd::string::StrSliceExecFns;

verus! {

/// Whether the character sequences of two texts are equal.
pub(crate) fn str_eq(a: &str, b: &str) -> (r: bool)
    ensures
        r == (a@ == b@),
{
    let na: usize = a.unicode_len();
    let nb: usize = b.unicode_len();
    if na != nb {
        return false;
    }
    let mut i: usize = 0;
    while i < na
        invariant
            i <= na,
            na == a@.len(),
            na == b@.len(),
            forall|j: int| 0 <= j < i ==> a@[j] == b@[j],
        decreases na - i,
    {
        if a.get_char(i) != b.get_char(i) {
            return false;
        }
        i += 1;
    }
    proof {
        assert(a@ =~= b@);
    }
    true
}

/// Whether `c` is `l` itself or its ASCII uppercase counterpart, `l` being
/// an ASCII lowercase letter.
pub open spec fn char_eq_ci(c: char, l: char) -> bool {
    c == l || (65 <= c as u32 <= 90 && c as u32 + 32 == l as u32)
}

/// Whether `s` spells `word` up to ASCII case, `word` being given in ASCII
/// lowercase.
pub open spec fn matches_ci(s: Seq<char>, word: Seq<char>) -> bool {
    s.len() == word.len() && forall|i: int| 0 <= i < s.len() ==> char_eq_ci(s[i], word[i])
}

/// Whether `s` spells `word` up to ASCII case, `word` being ASCII lowercase.
pub(crate) fn eq_ignore_ascii_case(s: &str, word: &str) -> (r: bool)
    ensures
        r == matches_ci(s@, word@),
{
    let n: usize = s.unicode_len();
    let m: usize = word.unicode_len();
    if n != m {
        return false;
    }
    let mut i: usize = 0;
    while i < n
        invariant
            i <= n,
            n == s@.len(),
            n == word@.len(),
            forall|j: int| 0 <= j < i ==> char_eq_ci(s@[j], word@[j]),
        decreases n - i,
    {
        let cu: u32 = s.get_char(i) as u32;
        let lu: u32 = word.get_char(i) as u32;
        if !(cu == lu || (65 <= cu && cu <= 90 && cu + 32 == lu)) {
            proof {
                assert(!char_eq_ci(s@[i as int], word@[i as int]));
            }
            return false;
        }
        i += 1;
    }
    true
}

/// How many times `c` occurs in `s`.
pub open spec fn count_char(s: Seq<char>, c: char) -> int
    decreases s.len(),
{
    if s.len() == 0 {
        0
    } else {
        count_char(s.drop_last(), c) + if s.last() == c {
            1int
        } else {
            0int
        }
    }
}

/// The index of an occurrence of `c` in `s`; meaningful when there is
/// exactly one.
pub open spec fn char_index(s: Seq<char>, c: char) -> int {
    choose|i: int| 0 <= i < s.len() && s[i] == c
}

pub(crate) proof fn lemma_count_char_zero(s: Seq<char>, c: char)
    ensures
        count_char(s, c) == 0 <==> (forall|i: int| 0 <= i < s.len() ==> s[i] != c),
    decreases s.len(),
{
    if s.len() > 0 {
        lemma_count_char_zero(s.drop_last(), c);
        lemma_count_char_nonneg(s.drop_last(), c);
        if count_char(s, c) == 0 {
            assert forall|i: int| 0 <= i < s.len() implies s[i] != c by {
                if i < s.len() - 1 {
                    assert(s.drop_last()[i] == s[i]);
                }
            }
        } else {
            if forall|i: int| 0 <= i < s.len() ==> s[i] != c {
                assert(s.last() != c);
                assert(forall|i: int|
                    0 <= i < s.drop_last().len() ==> s.drop_last()[i] == s[i] && s[i] != c);
            }
        }
    }
}

pub(crate) proof fn lemma_count_char_nonneg(s: Seq<char>, c: char)
    ensures
        count_char(s, c) >= 0,
    decreases s.len(),
{
    if s.len() > 0 {
        lemma_count_char_nonneg(s.drop_last(), c);
    }
}

/// With exactly one occurrence, the occurrence is unique and `char_index`
/// names it.
pub(crate) proof fn lemma_count_char_one(s: Seq<char>, c: char)
    requires
        count_char(s, c) == 1,
    ensures
        0 <= char_index(s, c) < s.len(),
        s[char_index(s, c)] == c,
        forall|j: int| 0 <= j < s.len() && j != char_index(s, c) ==> s[j] != c,
    decreases s.len(),
{
    lemma_count_char_nonneg(s.drop_last(), c);
    if s.last() == c {
        assert(count_char(s.drop_last(), c) == 0);
        lemma_count_char_zero(s.drop_last(), c);
        assert(s[s.len() - 1] == c);
        let i = char_index(s, c);
        assert(0 <= i < s.len() && s[i] == c);
        assert(i == s.len() - 1) by {
            if i < s.len() - 1 {
                assert(s.drop_last()[i] == s[i]);
            }
        }
        assert forall|j: int| 0 <= j < s.len() && j != i implies s[j] != c by {
            if j < s.len() - 1 {
                assert(s.drop_last()[j] == s[j]);
            }
        }
    } else {
        lemma_count_char_one(s.drop_last(), c);
        let i0 = char_index(s.drop_last(), c);
        assert(s.drop_last()[i0] == s[i0]);
        assert(s[i0] == c);
        let i = char_index(s, c);
        assert(0 <= i < s.len() && s[i] == c);
        assert(i < s.len() - 1);
        assert(s.drop_last()[i] == s[i]);
        assert(i == i0);
        assert forall|j: int| 0 <= j < s.len() && j != i implies s[j] != c by {
            if j < s.len() - 1 {
                assert(s.drop_last()[j] == s[j]);
            }
        }
    }
}

/// Finds the only occurrence of `c` in `s`, when `s` holds exactly one.
pub(crate) fn find_single(s: &str, c: char) -> (r: Option<usize>)
    ensures
        match r {
            Some(i) => count_char(s@, c) == 1 && i < s@.len() && s@[i as int] == c,
            None => count_char(s@, c) != 1,
        },
{
    let n: usize = s.unicode_len();
    let mut i: usize = 0;
    let mut cnt: usize = 0;
    let mut found: Option<usize> = None;
    proof {
        assert(s@.take(0) =~= Seq::<char>::empty());
    }
    while i < n
        invariant
            i <= n,
            n == s@.len(),
            cnt == count_char(s@.take(i as int), c),
            cnt <= i,
            match found {
                Some(fi) => fi < i && s@[fi as int] == c && cnt >= 1,
                None => cnt == 0,
            },
        decreases n - i,
    {
        proof {
            assert(s@.take(i + 1).drop_last() =~= s@.take(i as int));
            assert(s@.take(i + 1).last() == s@[i as int]);
        }
        if s.get_char(i) == c {
            cnt = cnt + 1;
            if found.is_none() {
                found = Some(i);
            }
        }
        i += 1;
    }
    proof {
        assert(s@.take(n as int) =~= s@);
    }
    if cnt == 1 {
        found
    } else {
        None
    }
}

} // verus!
