//! Character-level utilities over string slices: first occurrences of
//! single characters and two-character separators, exact single splits,
//! substring search, and whitespace trimming. Each executable function is
//! specified against a recursive spec function over the `Seq<char>` view.

use vstd::prelude::*;

verus! {

/// Index of the first occurrence of `c` in `s`, if any.
pub open spec fn first_ch(s: Seq<char>, c: char) -> Option<int>
    decreases s.len(),
{
    if s.len() == 0 {
        None
    } else if s[0] == c {
        Some(0int)
    } else {
        match first_ch(s.drop_first(), c) {
            Some(i) => Some(i + 1),
            None => None,
        }
    }
}

pub proof fn lemma_first_ch(s: Seq<char>, c: char)
    ensures
        match first_ch(s, c) {
            Some(i) => 0 <= i < s.len() && s[i] == c && (forall|j: int| 0 <= j < i ==> s[j] != c),
            None => forall|j: int| 0 <= j < s.len() ==> s[j] != c,
        },
    decreases s.len(),
{
    if s.len() > 0 && s[0] != c {
        lemma_first_ch(s.drop_first(), c);
        assert(forall|j: int| 1 <= j < s.len() ==> s[j] == s.drop_first()[j - 1]);
    }
}

/// `c0` immediately followed by `c1` at index `i` of `s`.
pub open spec fn pair_at(s: Seq<char>, i: int, c0: char, c1: char) -> bool {
    0 <= i && i + 1 < s.len() && s[i] == c0 && s[i + 1] == c1
}

/// Index of the first occurrence of the two-character separator `c0 c1`.
pub open spec fn first_pair(s: Seq<char>, c0: char, c1: char) -> Option<int>
    decreases s.len(),
{
    if s.len() < 2 {
        None
    } else if s[0] == c0 && s[1] == c1 {
        Some(0int)
    } else {
        match first_pair(s.drop_first(), c0, c1) {
            Some(i) => Some(i + 1),
            None => None,
        }
    }
}

pub proof fn lemma_first_pair(s: Seq<char>, c0: char, c1: char)
    ensures
        match first_pair(s, c0, c1) {
            Some(i) => pair_at(s, i, c0, c1) && (forall|j: int| 0 <= j < i ==> !pair_at(s, j, c0, c1)),
            None => forall|j: int| !pair_at(s, j, c0, c1),
        },
    decreases s.len(),
{
    if s.len() >= 2 && !(s[0] == c0 && s[1] == c1) {
        lemma_first_pair(s.drop_first(), c0, c1);
        assert(forall|j: int| 1 <= j < s.len() ==> s[j] == s.drop_first()[j - 1]);
        assert(forall|j: int| pair_at(s, j, c0, c1) ==> j >= 1 && pair_at(s.drop_first(), j - 1, c0, c1));
        assert(forall|j: int| pair_at(s.drop_first(), j, c0, c1) ==> pair_at(s, j + 1, c0, c1));
    }
    if s.len() < 2 {
        assert(forall|j: int| !pair_at(s, j, c0, c1));
    }
}

/// The two parts around a two-character separator that occurs exactly once,
/// in the left-to-right non-overlapping scan that `str::split` performs.
pub open spec fn split_pair_spec(s: Seq<char>, c0: char, c1: char) -> Option<(Seq<char>, Seq<char>)> {
    match first_pair(s, c0, c1) {
        Some(i) => {
            if first_pair(s.skip(i + 2), c0, c1) is None {
                Some((s.take(i), s.skip(i + 2)))
            } else {
                None
            }
        },
        None => None,
    }
}

/// The two parts around a single character that occurs exactly once.
pub open spec fn split_ch_spec(s: Seq<char>, c: char) -> Option<(Seq<char>, Seq<char>)> {
    match first_ch(s, c) {
        Some(i) => {
            if first_ch(s.skip(i + 1), c) is None {
                Some((s.take(i), s.skip(i + 1)))
            } else {
                None
            }
        },
        None => None,
    }
}

/// The prefix of `s` before the first occurrence of `c`, or all of `s`.
pub open spec fn take_until(s: Seq<char>, c: char) -> Seq<char> {
    match first_ch(s, c) {
        Some(i) => s.take(i),
        None => s,
    }
}

/// Finds the first occurrence of `c` in `s`.
pub fn find_ch(s: &str, c: char) -> (r: Option<usize>)
    ensures
        match r {
            Some(i) => first_ch(s@, c) == Some(i as int),
            None => first_ch(s@, c) is None,
        },
{
    let n = s.unicode_len();
    let mut i: usize = 0;
    while i < n
        invariant
            n == s@.len(),
            0 <= i <= n,
            forall|j: int| 0 <= j < i ==> s@[j] != c,
        decreases n - i,
    {
        if s.get_char(i) == c {
            proof {
                lemma_first_ch(s@, c);
            }
            return Some(i);
        }
        i += 1;
    }
    proof {
        lemma_first_ch(s@, c);
    }
    None
}

/// Finds the first occurrence of the separator `c0 c1` in `s`, scanning
/// from index `from` on.
fn find_pair_from(s: &str, from: usize, c0: char, c1: char) -> (r: Option<usize>)
    requires
        from <= s@.len(),
    ensures
        match r {
            Some(i) => from <= i && pair_at(s@, i as int, c0, c1) && (forall|j: int|
                from <= j < i ==> !pair_at(s@, j, c0, c1)),
            None => forall|j: int| from <= j ==> !pair_at(s@, j, c0, c1),
        },
{
    let n = s.unicode_len();
    if n < 2 {
        return None;
    }
    let mut i: usize = from;
    while i < n - 1
        invariant
            2 <= n == s@.len(),
            from <= i <= n,
            forall|j: int| from <= j < i ==> !pair_at(s@, j, c0, c1),
        decreases n - i,
    {
        if s.get_char(i) == c0 && s.get_char(i + 1) == c1 {
            return Some(i);
        }
        i += 1;
    }
    None
}

/// Splits `s` around a two-character separator that occurs exactly once,
/// as `str::split` would when it yields exactly two parts. Only separators
/// whose two characters differ are given to this function, so occurrences
/// cannot overlap.
pub fn split_pair_once<'a>(s: &'a str, c0: char, c1: char) -> (r: Option<(&'a str, &'a str)>)
    requires
        c0 != c1,
    ensures
        r is Some <==> split_pair_spec(s@, c0, c1) is Some,
        r matches Some(p) ==> {
            &&& split_pair_spec(s@, c0, c1) matches Some(q)
            &&& p.0@ == q.0
            &&& p.1@ == q.1
        },
{
    proof {
        lemma_first_pair(s@, c0, c1);
    }
    let n = s.unicode_len();
    match find_pair_from(s, 0, c0, c1) {
        None => {
            assert(first_pair(s@, c0, c1) is None);
            None
        },
        Some(i) => {
            proof {
                lemma_first_pair(s@.skip(i + 2), c0, c1);
                assert(forall|j: int|
                    0 <= j && #[trigger] pair_at(s@.skip(i + 2), j, c0, c1) ==> pair_at(s@, j + i + 2, c0, c1));
                assert(forall|j: int|
                    i + 2 <= j && #[trigger] pair_at(s@, j, c0, c1) ==> pair_at(s@.skip(i + 2), j - i - 2, c0, c1));
            }
            assert(first_pair(s@, c0, c1) == Some(i as int));
            match find_pair_from(s, i + 2, c0, c1) {
                Some(_) => {
                    assert(first_pair(s@.skip(i + 2), c0, c1) is Some);
                    None
                },
                None => {
                    assert(first_pair(s@.skip(i + 2), c0, c1) is None);
                    let a = s.substring_char(0, i);
                    let b = s.substring_char(i + 2, n);
                    assert(a@ == s@.take(i as int));
                    assert(b@ == s@.skip(i + 2));
                    Some((a, b))
                },
            }
        },
    }
}

/// Splits `s` around a character that occurs exactly once, as
/// `str::split` would when it yields exactly two parts.
pub fn split_ch_once<'a>(s: &'a str, c: char) -> (r: Option<(&'a str, &'a str)>)
    ensures
        r is Some <==> split_ch_spec(s@, c) is Some,
        r matches Some(p) ==> {
            &&& split_ch_spec(s@, c) matches Some(q)
            &&& p.0@ == q.0
            &&& p.1@ == q.1
        },
{
    proof {
        lemma_first_ch(s@, c);
    }
    let n = s.unicode_len();
    match find_ch(s, c) {
        None => None,
        Some(i) => {
            let rest = s.substring_char(i + 1, n);
            assert(rest@ == s@.skip(i + 1));
            match find_ch(rest, c) {
                Some(_) => None,
                None => {
                    let a = s.substring_char(0, i);
                    assert(a@ == s@.take(i as int));
                    Some((a, rest))
                },
            }
        },
    }
}

/// The prefix of `s` before the first occurrence of `c`, or all of `s`.
pub fn prefix_until<'a>(s: &'a str, c: char) -> (r: &'a str)
    ensures
        r@ == take_until(s@, c),
{
    let n = s.unicode_len();
    match find_ch(s, c) {
        Some(i) => {
            proof {
                lemma_first_ch(s@, c);
            }
            let a = s.substring_char(0, i);
            assert(a@ == s@.take(i as int));
            a
        },
        None => s,
    }
}

/// Three consecutive characters `c0 c1 c2` occur somewhere in `s`.
pub open spec fn has_triple(s: Seq<char>, c0: char, c1: char, c2: char) -> bool {
    exists|i: int| 0 <= i && i + 2 < s.len() && #[trigger] s[i] == c0 && s[i + 1] == c1 && s[i + 2] == c2
}

/// Whether `s` contains the three-character substring `c0 c1 c2`.
pub fn contains_triple(s: &str, c0: char, c1: char, c2: char) -> (r: bool)
    ensures
        r == has_triple(s@, c0, c1, c2),
{
    let n = s.unicode_len();
    if n < 3 {
        return false;
    }
    let mut i: usize = 0;
    while i < n - 2
        invariant
            3 <= n == s@.len(),
            0 <= i <= n,
            forall|j: int|
                0 <= j < i ==> !(#[trigger] s@[j] == c0 && s@[j + 1] == c1 && s@[j + 2] == c2),
        decreases n - i,
    {
        if s.get_char(i) == c0 && s.get_char(i + 1) == c1 && s.get_char(i + 2) == c2 {
            assert(has_triple(s@, c0, c1, c2));
            return true;
        }
        i += 1;
    }
    false
}

/// Index of the last occurrence of `c` in `s`, if any.
pub open spec fn last_ch(s: Seq<char>, c: char) -> Option<int>
    decreases s.len(),
{
    if s.len() == 0 {
        None
    } else if s[s.len() - 1] == c {
        Some(s.len() - 1)
    } else {
        last_ch(s.drop_last(), c)
    }
}

pub proof fn lemma_last_ch(s: Seq<char>, c: char)
    ensures
        match last_ch(s, c) {
            Some(i) => 0 <= i < s.len() && s[i] == c && (forall|j: int|
                i < j < s.len() ==> s[j] != c),
            None => forall|j: int| 0 <= j < s.len() ==> s[j] != c,
        },
    decreases s.len(),
{
    if s.len() > 0 && s[s.len() - 1] != c {
        lemma_last_ch(s.drop_last(), c);
        assert(forall|j: int| 0 <= j < s.len() - 1 ==> s[j] == s.drop_last()[j]);
    }
}

/// The suffix of `s` after the last occurrence of `c`, or all of `s`.
pub open spec fn suffix_after_last(s: Seq<char>, c: char) -> Seq<char> {
    match last_ch(s, c) {
        Some(i) => s.skip(i + 1),
        None => s,
    }
}

/// Finds the last occurrence of `c` in `s`.
pub fn find_last_ch(s: &str, c: char) -> (r: Option<usize>)
    ensures
        match r {
            Some(i) => last_ch(s@, c) == Some(i as int),
            None => last_ch(s@, c) is None,
        },
{
    let n = s.unicode_len();
    let mut b: usize = n;
    while b > 0
        invariant
            n == s@.len(),
            0 <= b <= n,
            forall|j: int| b <= j < n ==> s@[j] != c,
        decreases b,
    {
        if s.get_char(b - 1) == c {
            proof {
                lemma_last_ch(s@, c);
            }
            return Some(b - 1);
        }
        b -= 1;
    }
    proof {
        lemma_last_ch(s@, c);
    }
    None
}

/// The characters `str::trim` removes: the Unicode white-space characters.
pub open spec fn is_wsp(c: char) -> bool {
    ||| c == '\u{0009}'
    ||| c == '\u{000A}'
    ||| c == '\u{000B}'
    ||| c == '\u{000C}'
    ||| c == '\u{000D}'
    ||| c == ' '
    ||| c == '\u{0085}'
    ||| c == '\u{00A0}'
    ||| c == '\u{1680}'
    ||| ('\u{2000}' <= c && c <= '\u{200A}')
    ||| c == '\u{2028}'
    ||| c == '\u{2029}'
    ||| c == '\u{202F}'
    ||| c == '\u{205F}'
    ||| c == '\u{3000}'
}

/// Whether `c` is one of the white-space characters `str::trim` removes.
pub fn is_wsp_ch(c: char) -> (r: bool)
    ensures
        r == is_wsp(c),
{
    c == '\u{0009}' || c == '\u{000A}' || c == '\u{000B}' || c == '\u{000C}' || c == '\u{000D}'
        || c == ' ' || c == '\u{0085}' || c == '\u{00A0}' || c == '\u{1680}'
        || ('\u{2000}' <= c && c <= '\u{200A}') || c == '\u{2028}' || c == '\u{2029}'
        || c == '\u{202F}' || c == '\u{205F}' || c == '\u{3000}'
}

pub open spec fn trim_front(s: Seq<char>) -> Seq<char>
    decreases s.len(),
{
    if s.len() > 0 && is_wsp(s[0]) {
        trim_front(s.drop_first())
    } else {
        s
    }
}

pub open spec fn trim_back(s: Seq<char>) -> Seq<char>
    decreases s.len(),
{
    if s.len() > 0 && is_wsp(s[s.len() - 1]) {
        trim_back(s.drop_last())
    } else {
        s
    }
}

/// `s` with leading and trailing white space removed, as `str::trim` does.
pub open spec fn trim_spec(s: Seq<char>) -> Seq<char> {
    trim_back(trim_front(s))
}

/// Removes leading and trailing white space.
pub fn trim_str<'a>(s: &'a str) -> (r: &'a str)
    ensures
        r@ == trim_spec(s@),
{
    let n = s.unicode_len();
    proof {
        assert(s@.skip(0) =~= s@);
    }
    let mut a: usize = 0;
    while a < n && is_wsp_ch(s.get_char(a))
        invariant
            n == s@.len(),
            0 <= a <= n,
            trim_front(s@) == trim_front(s@.skip(a as int)),
        decreases n - a,
    {
        proof {
            assert(s@.skip(a as int).drop_first() =~= s@.skip(a + 1));
        }
        a += 1;
    }
    proof {
        assert(trim_front(s@.skip(a as int)) == s@.skip(a as int));
        assert(s@.subrange(a as int, n as int) =~= s@.skip(a as int));
    }
    let mut b: usize = n;
    while b > a && is_wsp_ch(s.get_char(b - 1))
        invariant
            n == s@.len(),
            0 <= a <= b <= n,
            trim_front(s@) == s@.skip(a as int),
            trim_back(s@.skip(a as int)) == trim_back(s@.subrange(a as int, b as int)),
        decreases b,
    {
        proof {
            assert(s@.subrange(a as int, b as int).drop_last() =~= s@.subrange(a as int, b - 1));
        }
        b -= 1;
    }
    proof {
        assert(trim_back(s@.subrange(a as int, b as int)) == s@.subrange(a as int, b as int));
    }
    let r = s.substring_char(a, b);
    assert(r@ == s@.subrange(a as int, b as int));
    r
}

} // verus!
