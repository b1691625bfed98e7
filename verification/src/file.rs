//! Path-string helpers: the final component of a path, and the
//! home-abbreviated form used in diagnostics.

use vstd::prelude::*;

use crate::strutil::{spec_starts_with, str_starts_with};

verus! {

/// A finished path component counts unless it is empty or `"."`.
pub open spec fn close_comp(cur: Seq<char>) -> Seq<Seq<char>> {
    if cur.len() == 0 || cur == "."@ {
        Seq::empty()
    } else {
        seq![cur]
    }
}

/// The meaningful components of a slash-separated path, front to back,
/// carrying the partially read component `cur`.
pub open spec fn comps_acc(s: Seq<char>, cur: Seq<char>) -> Seq<Seq<char>>
    decreases s.len(),
{
    if s.len() == 0 {
        close_comp(cur)
    } else if s[0] == '/' {
        close_comp(cur) + comps_acc(s.drop_first(), Seq::empty())
    } else {
        comps_acc(s.drop_first(), cur.push(s[0]))
    }
}

/// The meaningful components of a path: empty and `"."` segments dropped.
pub open spec fn spec_components(p: Seq<char>) -> Seq<Seq<char>> {
    comps_acc(p, Seq::empty())
}

/// The final component of a path: none for an empty or root path, none
/// when the path ends in `".."`, otherwise the last meaningful segment.
pub open spec fn spec_file_name(p: Seq<char>) -> Option<Seq<char>> {
    let cs = spec_components(p);
    if cs.len() == 0 {
        Option::None
    } else if cs.last() == ".."@ {
        Option::None
    } else {
        Option::Some(cs.last())
    }
}

/// The final component of `path`, if it has one.
pub fn file_name(path: &str) -> (r: Option<String>)
    ensures
        match r {
            Option::Some(name) => spec_file_name(path@) == Option::Some(name@),
            Option::None => spec_file_name(path@).is_none(),
        },
{
    let n: usize = path.unicode_len();
    let mut comps: Vec<String> = Vec::new();
    let mut cur = String::new();
    let mut i: usize = 0;
    proof {
        assert(path@.skip(0) =~= path@);
        assert(Seq::<Seq<char>>::empty() + spec_components(path@) =~~= spec_components(path@));
    }
    while i < n
        invariant
            n == path@.len(),
            i <= n,
            spec_components(path@) == comps.deep_view() + comps_acc(path@.skip(i as int), cur@),
        decreases n - i,
    {
        let ghost pref = comps.deep_view();
        let ghost oldcur = cur@;
        let c = path.get_char(i);
        proof {
            assert(path@.skip(i as int)[0] == c);
            assert(path@.skip(i as int).drop_first() =~= path@.skip(i + 1));
        }
        if c == '/' {
            let keep = cur.unicode_len() > 0 && !crate::strutil::str_eq(cur.as_str(), ".");
            if keep {
                v_push_comp(&mut comps, cur);
                cur = String::new();
                proof {
                    assert(cur@ =~= Seq::<char>::empty());
                    assert(close_comp(oldcur) =~= seq![oldcur]);
                    assert(comps.deep_view() =~~= pref.push(oldcur));
                    assert(comps.deep_view() + comps_acc(path@.skip(i + 1), cur@) =~~= pref + (
                    close_comp(oldcur) + comps_acc(path@.skip(i + 1), Seq::empty())));
                }
            } else {
                cur = String::new();
                proof {
                    assert(cur@ =~= Seq::<char>::empty());
                    assert(close_comp(oldcur) =~= Seq::<Seq<char>>::empty());
                    assert(comps.deep_view() + comps_acc(path@.skip(i + 1), cur@) =~~= pref + (
                    close_comp(oldcur) + comps_acc(path@.skip(i + 1), Seq::empty())));
                }
            }
        } else {
            let one = path.substring_char(i, i + 1);
            cur.append(one);
            proof {
                assert(one@ =~= seq![c]);
                assert(cur@ =~= oldcur.push(c));
            }
        }
        i = i + 1;
    }
    proof {
        assert(path@.skip(i as int).len() == 0);
    }
    let keep = cur.unicode_len() > 0 && !crate::strutil::str_eq(cur.as_str(), ".");
    if keep {
        let ghost pref = comps.deep_view();
        let ghost oldcur = cur@;
        v_push_comp(&mut comps, cur);
        proof {
            assert(close_comp(oldcur) =~= seq![oldcur]);
            assert(comps.deep_view() =~~= pref.push(oldcur));
            assert(comps.deep_view() =~~= spec_components(path@));
        }
    } else {
        proof {
            assert(close_comp(cur@) =~= Seq::<Seq<char>>::empty());
            assert(comps.deep_view() + Seq::<Seq<char>>::empty() =~~= comps.deep_view());
            assert(comps.deep_view() =~~= spec_components(path@));
        }
    }
    if comps.len() == 0 {
        return None;
    }
    let last = comps.pop().unwrap();
    if crate::strutil::str_eq(last.as_str(), "..") {
        None
    } else {
        Some(last)
    }
}

/// Appends one component (helper keeping borrow shapes simple).
fn v_push_comp(comps: &mut Vec<String>, cur: String)
    ensures
        final(comps)@ == old(comps)@.push(cur),
{
    comps.push(cur);
}

/// A path shown to the user: the home directory prefix abbreviated to
/// `~`.  The match is a plain prefix match on the path text.
pub open spec fn spec_display_path(p: Seq<char>, home: Seq<char>) -> Seq<char> {
    if home.len() > 0 && spec_starts_with(p, home) {
        "~"@ + p.skip(home.len() as int)
    } else {
        p
    }
}

/// Abbreviates the home directory in `path` to `~`.
pub fn display_path(path: &str, home: &str) -> (r: String)
    ensures
        r@ == spec_display_path(path@, home@),
{
    let hn: usize = home.unicode_len();
    let n: usize = path.unicode_len();
    if hn > 0 && str_starts_with(path, home) {
        let rest = path.substring_char(hn, n);
        let r = String::from_str("~").concat(rest);
        proof {
            assert(rest@ =~= path@.skip(hn as int));
        }
        r
    } else {
        String::from_str(path)
    }
}

} // verus!
