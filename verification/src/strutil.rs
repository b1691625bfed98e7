//! Small fully verified helpers over `&str` / `String`, used by the parsers
//! and folders in the rest of the crate.

use vstd::prelude::*;

verus! {

/// True for the two characters this crate treats as in-line whitespace
/// (token separators inside a configuration line).
pub open spec fn is_ws(c: char) -> bool {
    c == ' ' || c == '\t'
}

/// True for whitespace that may also end a file (trailing trim).
pub open spec fn is_ws_or_nl(c: char) -> bool {
    c == ' ' || c == '\t' || c == '\n' || c == '\r'
}

/// Executable twin of [`is_ws`].
pub fn ws_char(c: char) -> (r: bool)
    ensures
        r == is_ws(c),
{
    c == ' ' || c == '\t'
}

/// Executable twin of [`is_ws_or_nl`].
pub fn ws_or_nl_char(c: char) -> (r: bool)
    ensures
        r == is_ws_or_nl(c),
{
    c == ' ' || c == '\t' || c == '\n' || c == '\r'
}

/// Character-wise equality of two string slices.
pub fn str_eq(a: &str, b: &str) -> (r: bool)
    ensures
        r == (a@ == b@),
{
    let na: usize = a.unicode_len();
    let nb: usize = b.unicode_len();
    if na != nb {
        return false;
    }
    let mut i: usize = 0;
    while i < na
        invariant
            na == a@.len(),
            na == b@.len(),
            i <= na,
            forall|j: int| 0 <= j < i ==> a@[j] == b@[j],
        decreases na - i,
    {
        if a.get_char(i) != b.get_char(i) {
            return false;
        }
        i = i + 1;
    }
    proof {
        assert(a@ =~= b@);
    }
    true
}

/// Equality of two strings, character-wise.
pub fn string_eq(a: &String, b: &String) -> (r: bool)
    ensures
        r == (a@ == b@),
{
    str_eq(a.as_str(), b.as_str())
}

/// Does `s` start with prefix `p`?
pub open spec fn spec_starts_with(s: Seq<char>, p: Seq<char>) -> bool {
    p.len() <= s.len() && s.take(p.len() as int) == p
}

/// Executable prefix test.
pub fn str_starts_with(s: &str, p: &str) -> (r: bool)
    ensures
        r == spec_starts_with(s@, p@),
{
    let ns: usize = s.unicode_len();
    let np: usize = p.unicode_len();
    if np > ns {
        assert(!spec_starts_with(s@, p@));
        return false;
    }
    let mut i: usize = 0;
    while i < np
        invariant
            ns == s@.len(),
            np == p@.len(),
            np <= ns,
            i <= np,
            forall|j: int| 0 <= j < i ==> s@[j] == p@[j],
        decreases np - i,
    {
        if s.get_char(i) != p.get_char(i) {
            assert(s@.take(np as int)[i as int] != p@[i as int]);
            return false;
        }
        i = i + 1;
    }
    proof {
        assert(s@.take(np as int) =~= p@);
    }
    true
}

/// The sequence of `n` space characters.
pub open spec fn spec_spaces(n: nat) -> Seq<char> {
    Seq::new(n, |i: int| ' ')
}

/// Builds a string of `n` spaces.
pub fn spaces(n: usize) -> (s: String)
    ensures
        s@ == spec_spaces(n as nat),
{
    let mut s = String::new();
    let mut i: usize = 0;
    while i < n
        invariant
            i <= n,
            s@ =~= spec_spaces(i as nat),
        decreases n - i,
    {
        s.append(" ");
        proof {
            reveal_strlit(" ");
            assert(s@ =~= spec_spaces((i + 1) as nat));
        }
        i = i + 1;
    }
    proof {
        assert(s@ =~= spec_spaces(n as nat));
    }
    s
}

/// Copies a vector of strings.
pub fn clone_strings(v: &Vec<String>) -> (r: Vec<String>)
    ensures
        r.deep_view() == v.deep_view(),
        r@.map_values(|s: String| s@) == v@.map_values(|s: String| s@),
{
    let mut r: Vec<String> = Vec::new();
    let mut i: usize = 0;
    while i < v.len()
        invariant
            i <= v.len(),
            r@.len() == i,
            forall|j: int| 0 <= j < i ==> r@[j]@ == v@[j]@,
        decreases v.len() - i,
    {
        r.push(v[i].clone());
        i = i + 1;
    }
    proof {
        assert(r.deep_view() =~~= v.deep_view());
        assert(r@.map_values(|s: String| s@) =~~= v@.map_values(|s: String| s@));
    }
    r
}

/// `parts` joined with the separator `sep` between consecutive parts.
pub open spec fn join_with(parts: Seq<Seq<char>>, sep: Seq<char>) -> Seq<char>
    decreases parts.len(),
{
    if parts.len() == 0 {
        Seq::empty()
    } else if parts.len() == 1 {
        parts[0]
    } else {
        join_with(parts.drop_last(), sep) + sep + parts.last()
    }
}

/// Joins the strings of `v` with `sep` between consecutive elements.
pub fn join(v: &Vec<String>, sep: &str) -> (r: String)
    ensures
        r@ == join_with(v.deep_view(), sep@),
{
    let mut r = String::new();
    let mut i: usize = 0;
    while i < v.len()
        invariant
            i <= v.len(),
            r@ == join_with(v.deep_view().take(i as int), sep@),
        decreases v.len() - i,
    {
        if i > 0 {
            r.append(sep);
        }
        r.append(v[i].as_str());
        proof {
            let parts = v.deep_view();
            assert(parts.take(i + 1).drop_last() =~= parts.take(i as int));
            assert(parts.take(i + 1).last() == parts[i as int]);
        }
        i = i + 1;
    }
    proof {
        assert(v.deep_view().take(v.len() as int) =~= v.deep_view());
    }
    r
}

/// Splitting on a separator character, dropping empty segments, carrying
/// the partially read segment `cur`.
pub open spec fn split_sep_acc(s: Seq<char>, sep: char, cur: Seq<char>) -> Seq<Seq<char>>
    decreases s.len(),
{
    if s.len() == 0 {
        if cur.len() == 0 {
            Seq::empty()
        } else {
            seq![cur]
        }
    } else if s[0] == sep {
        if cur.len() == 0 {
            split_sep_acc(s.drop_first(), sep, Seq::empty())
        } else {
            seq![cur] + split_sep_acc(s.drop_first(), sep, Seq::empty())
        }
    } else {
        split_sep_acc(s.drop_first(), sep, cur.push(s[0]))
    }
}

/// The non-empty segments of `s` separated by `sep`.
pub open spec fn spec_split_sep(s: Seq<char>, sep: char) -> Seq<Seq<char>> {
    split_sep_acc(s, sep, Seq::empty())
}

/// Splits `s` on `sep`, dropping empty segments.
pub fn split_sep(s: &str, sep: char) -> (v: Vec<String>)
    ensures
        v.deep_view() == spec_split_sep(s@, sep),
{
    let n: usize = s.unicode_len();
    let mut v: Vec<String> = Vec::new();
    let mut cur = String::new();
    let mut i: usize = 0;
    proof {
        assert(s@.skip(0) =~= s@);
        assert(Seq::<Seq<char>>::empty() + spec_split_sep(s@, sep) =~~= spec_split_sep(s@, sep));
    }
    while i < n
        invariant
            n == s@.len(),
            i <= n,
            spec_split_sep(s@, sep) == v.deep_view() + split_sep_acc(s@.skip(i as int), sep, cur@),
        decreases n - i,
    {
        let ghost pref = v.deep_view();
        let ghost oldcur = cur@;
        let c = s.get_char(i);
        proof {
            assert(s@.skip(i as int)[0] == c);
            assert(s@.skip(i as int).drop_first() =~= s@.skip(i + 1));
        }
        if c == sep {
            if cur.unicode_len() > 0 {
                v.push(cur);
                cur = String::new();
                proof {
                    assert(cur@ =~= Seq::<char>::empty());
                    assert(v.deep_view() =~~= pref.push(oldcur));
                    assert(v.deep_view() + split_sep_acc(s@.skip(i + 1), sep, cur@) =~~= pref + (
                    seq![oldcur] + split_sep_acc(s@.skip(i + 1), sep, Seq::empty())));
                }
            } else {
                proof {
                    assert(oldcur =~= Seq::<char>::empty());
                }
            }
        } else {
            let one = s.substring_char(i, i + 1);
            cur.append(one);
            proof {
                assert(one@ =~= seq![c]);
                assert(cur@ =~= oldcur.push(c));
            }
        }
        i = i + 1;
    }
    proof {
        assert(s@.skip(i as int).len() == 0);
    }
    if cur.unicode_len() > 0 {
        let ghost pref = v.deep_view();
        let ghost oldcur = cur@;
        v.push(cur);
        proof {
            assert(v.deep_view() =~~= pref.push(oldcur));
            assert(split_sep_acc(s@.skip(i as int), sep, oldcur) == seq![oldcur]);
            assert(v.deep_view() =~~= spec_split_sep(s@, sep));
        }
    } else {
        proof {
            assert(cur@.len() == 0);
            assert(split_sep_acc(s@.skip(i as int), sep, cur@) == Seq::<Seq<char>>::empty());
            assert(v.deep_view() + Seq::<Seq<char>>::empty() =~~= v.deep_view());
            assert(v.deep_view() =~~= spec_split_sep(s@, sep));
        }
    }
    v
}

/// Index of the first occurrence of `c` in `s` at or after `from`, if any.
pub open spec fn spec_find_char(s: Seq<char>, c: char, from: int) -> Option<int>
    decreases s.len() - from,
{
    if from < 0 || from >= s.len() {
        None
    } else if s[from] == c {
        Some(from)
    } else {
        spec_find_char(s, c, from + 1)
    }
}

/// Executable search for a character.
pub fn find_char(s: &str, c: char, from: usize) -> (r: Option<usize>)
    requires
        from <= s@.len(),
    ensures
        match r {
            Some(i) => from <= i < s@.len() && s@[i as int] == c
                && spec_find_char(s@, c, from as int) == Some(i as int),
            None => spec_find_char(s@, c, from as int).is_none(),
        },
{
    let n: usize = s.unicode_len();
    let mut i: usize = from;
    while i < n
        invariant
            n == s@.len(),
            from <= i <= n,
            spec_find_char(s@, c, from as int) == spec_find_char(s@, c, i as int),
        decreases n - i,
    {
        if s.get_char(i) == c {
            return Some(i);
        }
        i = i + 1;
    }
    None
}

} // verus!
