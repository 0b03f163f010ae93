//! Character-level string utilities: trimming a repeated character from the
//! ends of a string, membership tests, ASCII case-insensitive comparison and
//! prefix tests.  These are the primitives the fingerprint and reconciliation
//! rules are built from.

use vstd::prelude::*;
use vstd::string::*;

verus! {

/// `s` with every leading occurrence of `c` removed.
pub open spec fn trim_char_front(s: Seq<char>, c: char) -> Seq<char>
    decreases s.len(),
{
    if s.len() > 0 && s[0] == c {
        trim_char_front(s.skip(1), c)
    } else {
        s
    }
}

/// `s` with every trailing occurrence of `c` removed.
pub open spec fn trim_char_back(s: Seq<char>, c: char) -> Seq<char>
    decreases s.len(),
{
    if s.len() > 0 && s[s.len() - 1] == c {
        trim_char_back(s.take(s.len() - 1), c)
    } else {
        s
    }
}

/// `s` with every leading and trailing occurrence of `c` removed.
pub open spec fn trim_char(s: Seq<char>, c: char) -> Seq<char> {
    trim_char_back(trim_char_front(s, c), c)
}

/// Removes every leading occurrence of `c` from `s`.
pub fn trim_start_matching(s: &str, c: char) -> (r: String)
    ensures
        r@ == trim_char_front(s@, c),
    decreases s@.len(),
{
    let n = s.unicode_len();
    if n > 0 && s.get_char(0) == c {
        let rest = s.substring_char(1, n);
        proof {
            assert(rest@ =~= s@.skip(1));
        }
        trim_start_matching(rest, c)
    } else {
        s.to_owned()
    }
}

/// Removes every trailing occurrence of `c` from `s`.
pub fn trim_end_matching(s: &str, c: char) -> (r: String)
    ensures
        r@ == trim_char_back(s@, c),
    decreases s@.len(),
{
    let n = s.unicode_len();
    if n > 0 && s.get_char(n - 1) == c {
        let rest = s.substring_char(0, n - 1);
        proof {
            assert(rest@ =~= s@.take(s@.len() - 1));
        }
        trim_end_matching(rest, c)
    } else {
        s.to_owned()
    }
}

/// Removes every leading and trailing occurrence of `c` from `s`.
pub fn trim_matching(s: &str, c: char) -> (r: String)
    ensures
        r@ == trim_char(s@, c),
{
    let front = trim_start_matching(s, c);
    trim_end_matching(front.as_str(), c)
}

/// Whether `c` occurs anywhere in `s`.
pub fn contains_char(s: &str, c: char) -> (r: bool)
    ensures
        r == s@.contains(c),
{
    let n = s.unicode_len();
    let mut i: usize = 0;
    while i < n
        invariant
            n == s@.len(),
            i <= n,
            forall|j: int| 0 <= j < i ==> s@[j] != c,
        decreases n - i,
    {
        if s.get_char(i) == c {
            proof {
                assert(s@[i as int] == c);
            }
            return true;
        }
        i += 1;
    }
    proof {
        assert(!s@.contains(c));
    }
    false
}

/// Whether `c` is an ASCII upper-case letter.
pub open spec fn is_ascii_upper(c: char) -> bool {
    65 <= c as u32 && c as u32 <= 90
}

/// Whether `a` and `b` are the same character up to ASCII case.
pub open spec fn chars_eq_nocase(a: char, b: char) -> bool {
    ||| a == b
    ||| (is_ascii_upper(a) && b as u32 == a as u32 + 32)
    ||| (is_ascii_upper(b) && a as u32 == b as u32 + 32)
}

/// Whether `a` and `b` are equal up to ASCII case, character by character.
pub open spec fn seq_eq_nocase(a: Seq<char>, b: Seq<char>) -> bool {
    a.len() == b.len() && forall|i: int| 0 <= i < a.len() ==> chars_eq_nocase(a[i], b[i])
}

/// Compares two strings for equality, ignoring ASCII case.
pub fn eq_ignore_ascii(a: &str, b: &str) -> (r: bool)
    ensures
        r == seq_eq_nocase(a@, b@),
{
    let n = a.unicode_len();
    if n != b.unicode_len() {
        return false;
    }
    let mut i: usize = 0;
    while i < n
        invariant
            n == a@.len(),
            n == b@.len(),
            i <= n,
            forall|j: int| 0 <= j < i ==> chars_eq_nocase(a@[j], b@[j]),
        decreases n - i,
    {
        let ca = a.get_char(i);
        let cb = b.get_char(i);
        let same = ca == cb || (ca as u32 >= 65 && ca as u32 <= 90 && cb as u32 == ca as u32 + 32)
            || (cb as u32 >= 65 && cb as u32 <= 90 && ca as u32 == cb as u32 + 32);
        if !same {
            proof {
                assert(!chars_eq_nocase(a@[i as int], b@[i as int]));
            }
            return false;
        }
        i += 1;
    }
    true
}

/// Whether `p` is a prefix of `s`.
pub fn starts_with_str(s: &str, p: &str) -> (r: bool)
    ensures
        r == p@.is_prefix_of(s@),
{
    let n = s.unicode_len();
    let m = p.unicode_len();
    if m > n {
        return false;
    }
    let mut i: usize = 0;
    while i < m
        invariant
            n == s@.len(),
            m == p@.len(),
            m <= n,
            i <= m,
            forall|j: int| 0 <= j < i ==> p@[j] == s@[j],
        decreases m - i,
    {
        if s.get_char(i) != p.get_char(i) {
            proof {
                assert(p@[i as int] != s@.subrange(0, m as int)[i as int]);
            }
            return false;
        }
        i += 1;
    }
    proof {
        assert(p@ =~= s@.subrange(0, m as int));
    }
    true
}

/// Whether `a` and `b` hold the same characters.
pub fn str_eq(a: &str, b: &str) -> (r: bool)
    ensures
        r == (a@ == b@),
{
    let n = a.unicode_len();
    if n != b.unicode_len() {
        proof {
            assert(a@.len() != b@.len());
        }
        return false;
    }
    let mut i: usize = 0;
    while i < n
        invariant
            n == a@.len(),
            n == b@.len(),
            i <= n,
            forall|j: int| 0 <= j < i ==> a@[j] == b@[j],
        decreases n - i,
    {
        if a.get_char(i) != b.get_char(i) {
            proof {
                assert(a@[i as int] != b@[i as int]);
            }
            return false;
        }
        i += 1;
    }
    proof {
        assert(a@ =~= b@);
    }
    true
}

/// A character other than `c` survives front-trimming of `c`.
pub proof fn lemma_trim_front_keeps(s: Seq<char>, c: char, x: char)
    requires
        x != c,
        s.contains(x),
    ensures
        trim_char_front(s, c).contains(x),
    decreases s.len(),
{
    if s.len() > 0 && s[0] == c {
        let i = choose|i: int| 0 <= i < s.len() && s[i] == x;
        assert(i != 0);
        assert(s.skip(1)[i - 1] == x);
        assert(s.skip(1).contains(x));
        lemma_trim_front_keeps(s.skip(1), c, x);
    }
}

/// A character other than `c` survives back-trimming of `c`.
pub proof fn lemma_trim_back_keeps(s: Seq<char>, c: char, x: char)
    requires
        x != c,
        s.contains(x),
    ensures
        trim_char_back(s, c).contains(x),
    decreases s.len(),
{
    if s.len() > 0 && s[s.len() - 1] == c {
        let i = choose|i: int| 0 <= i < s.len() && s[i] == x;
        assert(i != s.len() - 1);
        assert(s.take(s.len() - 1)[i] == x);
        assert(s.take(s.len() - 1).contains(x));
        lemma_trim_back_keeps(s.take(s.len() - 1), c, x);
    }
}

/// A character other than `c` survives trimming of `c` from both ends.
pub proof fn lemma_trim_keeps(s: Seq<char>, c: char, x: char)
    requires
        x != c,
        s.contains(x),
    ensures
        trim_char(s, c).contains(x),
{
    lemma_trim_front_keeps(s, c, x);
    lemma_trim_back_keeps(trim_char_front(s, c), c, x);
}

/// Trimming a string that does not contain `c` leaves it unchanged.
pub proof fn lemma_trim_noop(s: Seq<char>, c: char)
    requires
        !s.contains(c),
    ensures
        trim_char(s, c) == s,
{
    assert forall|i: int| 0 <= i < s.len() implies s[i] != c by {
        if s[i] == c {
            assert(s.contains(c));
        }
    }
    assert(trim_char_front(s, c) == s);
    assert(trim_char_back(s, c) == s);
}

/// Trimming quotes from `"` + `s` + `"` yields `s` when `s` itself holds no quote.
pub proof fn lemma_trim_quoted(s: Seq<char>, c: char)
    requires
        !s.contains(c),
    ensures
        trim_char(seq![c] + s + seq![c], c) == s,
{
    assert forall|i: int| 0 <= i < s.len() implies s[i] != c by {
        if s[i] == c {
            assert(s.contains(c));
        }
    }
    let w = seq![c] + s + seq![c];
    assert(w[0] == c);
    if s.len() == 0 {
        let e = Seq::<char>::empty();
        assert(w.skip(1) =~= seq![c]);
        assert(trim_char_front(w, c) == trim_char_front(seq![c], c));
        assert(seq![c][0] == c);
        assert(seq![c].skip(1) =~= e);
        assert(trim_char_front(seq![c], c) == trim_char_front(e, c));
        assert(trim_char_front(e, c) == e);
        assert(trim_char_back(e, c) == e);
        assert(trim_char(w, c) =~= s);
    } else {
        let t = s + seq![c];
        assert(w.skip(1) =~= t);
        assert(trim_char_front(w, c) == trim_char_front(t, c));
        assert(t[0] == s[0]);
        assert(s[0] != c);
        assert(trim_char_front(t, c) == t);
        assert(t[t.len() - 1] == c);
        assert(trim_char_back(t, c) == trim_char_back(t.take(t.len() - 1), c));
        assert(t.take(t.len() - 1) =~= s);
        assert(s[s.len() - 1] != c);
        assert(trim_char_back(s, c) == s);
    }
}

} // verus!
