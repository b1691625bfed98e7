//! Version resolution: turning a symbolic version request into a concrete
//! version against a plugin's listed versions (ascending order).

use vstd::prelude::*;

use crate::error::{Error, ErrorModel};
use crate::strutil::{
    clone_strings, find_char, spec_find_char, spec_starts_with, str_eq, str_starts_with, string_eq,
};

verus! {

/// An ASCII decimal digit.
pub open spec fn is_digit(c: char) -> bool {
    0x30 <= c as u32 <= 0x39
}

/// Executable digit test.
pub fn digit_char(c: char) -> (r: bool)
    ensures
        r == is_digit(c),
{
    let u = c as u32;
    0x30 <= u && u <= 0x39
}

/// A non-empty run of digits.
pub open spec fn all_digits(s: Seq<char>) -> bool {
    s.len() > 0 && forall|i: int| 0 <= i < s.len() ==> is_digit(#[trigger] s[i])
}

/// Are the characters of `t` in `[from, to)` a non-empty run of digits?
pub fn digits_range(t: &str, from: usize, to: usize) -> (r: bool)
    requires
        from <= to <= t@.len(),
    ensures
        r == all_digits(t@.subrange(from as int, to as int)),
{
    if from == to {
        return false;
    }
    let mut i: usize = from;
    while i < to
        invariant
            from <= i <= to <= t@.len(),
            forall|j: int| from <= j < i ==> is_digit(#[trigger] t@[j]),
        decreases to - i,
    {
        if !digit_char(t.get_char(i)) {
            assert(t@.subrange(from as int, to as int)[i - from] == t@[i as int]);
            return false;
        }
        i = i + 1;
    }
    proof {
        assert(forall|j: int|
            0 <= j < to - from ==> t@.subrange(from as int, to as int)[j] == t@[from + j]);
    }
    true
}

/// Three dot-separated runs of digits (`20.1.0`).
pub open spec fn spec_triple(t: Seq<char>) -> bool {
    match spec_find_char(t, '.', 0) {
        Option::Some(i) => match spec_find_char(t, '.', i + 1) {
            Option::Some(j) => all_digits(t.take(i)) && all_digits(t.subrange(i + 1, j))
                && all_digits(t.skip(j + 1)),
            Option::None => false,
        },
        Option::None => false,
    }
}

/// A full concrete version: `x.y.z`, optionally `v`-prefixed; the value
/// is the version with the prefix removed.
pub open spec fn spec_full_version(s: Seq<char>) -> Option<Seq<char>> {
    let t = if s.len() > 0 && s[0] == 'v' {
        s.drop_first()
    } else {
        s
    };
    if spec_triple(t) {
        Option::Some(t)
    } else {
        Option::None
    }
}

/// Recognizes a full concrete version and returns it verbatim (without
/// any `v` prefix).
pub fn full_version(s: &str) -> (r: Option<String>)
    ensures
        match r {
            Option::Some(t) => spec_full_version(s@) == Option::Some(t@),
            Option::None => spec_full_version(s@).is_none(),
        },
{
    let n: usize = s.unicode_len();
    let t: &str = if n > 0 && s.get_char(0) == 'v' {
        s.substring_char(1, n)
    } else {
        s
    };
    proof {
        if n > 0 && s@[0] == 'v' {
            assert(t@ =~= s@.drop_first());
        }
    }
    let tn: usize = t.unicode_len();
    match find_char(t, '.', 0) {
        Some(i) => {
            match find_char(t, '.', i + 1) {
                Some(j) => {
                    let ok = digits_range(t, 0, i) && digits_range(t, i + 1, j) && digits_range(
                        t,
                        j + 1,
                        tn,
                    );
                    proof {
                        assert(t@.take(i as int) =~= t@.subrange(0, i as int));
                        assert(t@.skip(j + 1) =~= t@.subrange(j + 1, tn as int));
                    }
                    if ok {
                        Some(String::from_str(t))
                    } else {
                        None
                    }
                },
                None => None,
            }
        },
        None => None,
    }
}

/// Does a listed version satisfy a filter: exactly equal, or extending it
/// at a version-segment boundary (so `1` never matches `10.0.0`).
pub open spec fn version_matches(v: Seq<char>, f: Seq<char>) -> bool {
    v == f || spec_starts_with(v, f + "."@)
}

/// A filter with a `v` prefix before digits removed (`v20` means `20`).
pub open spec fn strip_v_filter(f: Seq<char>) -> Seq<char> {
    if f.len() >= 2 && f[0] == 'v' && is_digit(f[1]) {
        f.drop_first()
    } else {
        f
    }
}

/// The listed versions that satisfy filter `f2`, in listed order.
pub open spec fn spec_filter_vm(vs: Seq<Seq<char>>, f2: Seq<char>) -> Seq<Seq<char>> {
    vs.filter(|v: Seq<char>| version_matches(v, f2))
}

/// One step of [`spec_filter_vm`].
pub proof fn lemma_filter_vm_step(vs: Seq<Seq<char>>, f2: Seq<char>, i: int)
    requires
        0 <= i < vs.len(),
    ensures
        spec_filter_vm(vs.take(i + 1), f2) == if version_matches(vs[i], f2) {
            spec_filter_vm(vs.take(i), f2).push(vs[i])
        } else {
            spec_filter_vm(vs.take(i), f2)
        },
{
    assert(vs.take(i + 1).drop_last() =~= vs.take(i));
    assert(vs.take(i + 1).last() == vs[i]);
    reveal(Seq::filter);
}

/// What filtering with an optional filter keeps: everything under no
/// filter, else the matches of the normalized filter.
pub open spec fn spec_filtered(vs: Seq<Seq<char>>, f: Option<Seq<char>>) -> Seq<Seq<char>> {
    match f {
        Option::None => vs,
        Option::Some(fl) => spec_filter_vm(vs, strip_v_filter(fl)),
    }
}

/// The listed versions that satisfy `filter` (all of them when there is
/// none), in listed order.
pub fn filtered_versions(versions: &Vec<String>, filter: &Option<String>) -> (r: Vec<String>)
    ensures
        r.deep_view() == spec_filtered(
            versions.deep_view(),
            match filter {
                Option::Some(f) => Option::Some(f@),
                Option::None => Option::None,
            },
        ),
{
    match filter {
        None => {
            let r = clone_strings(versions);
            proof {
                assert(r.deep_view() =~~= versions.deep_view());
            }
            r
        },
        Some(f) => {
            let fn_: usize = f.as_str().unicode_len();
            let f2: String = if fn_ >= 2 && f.as_str().get_char(0) == 'v' && digit_char(
                f.as_str().get_char(1),
            ) {
                String::from_str(f.as_str().substring_char(1, fn_))
            } else {
                f.clone()
            };
            proof {
                if fn_ >= 2 && f@[0] == 'v' && is_digit(f@[1]) {
                    assert(f2@ =~= f@.drop_first());
                }
                assert(f2@ == strip_v_filter(f@));
            }
            let fdot = f2.clone().concat(".");
            let ghost vs = versions.deep_view();
            let mut r: Vec<String> = Vec::new();
            let mut i: usize = 0;
            proof {
                assert(vs.take(0) =~= Seq::<Seq<char>>::empty());
                reveal(Seq::filter);
                assert(r.deep_view() =~~= spec_filter_vm(vs.take(0), f2@));
            }
            while i < versions.len()
                invariant
                    vs == versions.deep_view(),
                    i <= versions.len(),
                    fdot@ == f2@ + "."@,
                    r.deep_view() == spec_filter_vm(vs.take(i as int), f2@),
                decreases versions.len() - i,
            {
                let ghost pref = r.deep_view();
                let keep = string_eq(&versions[i], &f2) || str_starts_with(
                    versions[i].as_str(),
                    fdot.as_str(),
                );
                proof {
                    assert(keep == version_matches(vs[i as int], f2@));
                    lemma_filter_vm_step(vs, f2@, i as int);
                }
                if keep {
                    r.push(versions[i].clone());
                    proof {
                        assert(r.deep_view() =~~= pref.push(vs[i as int]));
                    }
                }
                i = i + 1;
            }
            proof {
                assert(vs.take(versions.len() as int) =~= vs);
            }
            r
        },
    }
}

/// What resolution yields when it succeeds: a full concrete version is
/// returned verbatim, `latest` selects the highest listed version, any
/// other request filters the list and selects the highest match.
pub open spec fn spec_resolve(vs: Seq<Seq<char>>, request: Seq<char>) -> Option<Seq<char>> {
    match spec_full_version(request) {
        Option::Some(t) => Option::Some(t),
        Option::None => {
            let f = if request == "latest"@ {
                Option::None
            } else {
                Option::Some(request)
            };
            let m = spec_filtered(vs, f);
            if m.len() > 0 {
                Option::Some(m.last())
            } else {
                Option::None
            }
        },
    }
}

/// Resolves a symbolic request against a plugin's listed versions
/// (ascending).  Fails with a resolution error, naming the plugin and the
/// request, exactly when [`spec_resolve`] has no answer.
pub fn resolve_version(plugin: &str, versions: &Vec<String>, request: &str) -> (r: Result<
    String,
    Error,
>)
    ensures
        match r {
            Result::Ok(v) => spec_resolve(versions.deep_view(), request@) == Option::Some(v@),
            Result::Err(e) => spec_resolve(versions.deep_view(), request@).is_none() && e@
                == (ErrorModel::Resolution { plugin: plugin@, requested: request@ }),
        },
{
    match full_version(request) {
        Some(t) => Ok(t),
        None => {
            let filter: Option<String> = if str_eq(request, "latest") {
                None
            } else {
                Some(String::from_str(request))
            };
            let matches = filtered_versions(versions, &filter);
            if matches.len() > 0 {
                let last = matches[matches.len() - 1].clone();
                proof {
                    assert(last@ == matches.deep_view().last());
                }
                Ok(last)
            } else {
                Err(
                    Error::Resolution {
                        plugin: String::from_str(plugin),
                        requested: String::from_str(request),
                    },
                )
            }
        },
    }
}

/// The first index at or after `from` holding a non-digit (or the length).
pub open spec fn first_non_digit(s: Seq<char>, from: int) -> int
    decreases s.len() - from,
{
    if from < 0 || from >= s.len() {
        s.len() as int
    } else if is_digit(s[from]) {
        first_non_digit(s, from + 1)
    } else {
        from
    }
}

/// A remote list entry that carries a `v` prefix before its numeric
/// version (`v18.` ...), which normalization removes.
pub open spec fn has_v_num_prefix(v: Seq<char>) -> bool {
    v.len() >= 3 && v[0] == 'v' && is_digit(v[1]) && first_non_digit(v, 1) < v.len() && v[
        first_non_digit(v, 1)
    ] == '.'
}

/// One normalized remote list entry.
pub open spec fn spec_normalize_one(v: Seq<char>) -> Seq<char> {
    if has_v_num_prefix(v) {
        v.drop_first()
    } else {
        v
    }
}

/// A remote version list normalized: `v` prefixes stripped, order
/// reversed (remote lists arrive newest first; resolution wants
/// ascending).
pub open spec fn spec_normalize_remote(vs: Seq<Seq<char>>) -> Seq<Seq<char>> {
    vs.map_values(|v: Seq<char>| spec_normalize_one(v)).reverse()
}

/// Tests the `v`-number-dot shape of one entry.
fn has_v_num_prefix_exec(v: &str) -> (r: bool)
    ensures
        r == has_v_num_prefix(v@),
{
    let n: usize = v.unicode_len();
    if n < 3 || v.get_char(0) != 'v' || !digit_char(v.get_char(1)) {
        return false;
    }
    let mut i: usize = 1;
    while i < n && digit_char(v.get_char(i))
        invariant
            n == v@.len(),
            1 <= i <= n,
            first_non_digit(v@, 1) == first_non_digit(v@, i as int),
        decreases n - i,
    {
        i = i + 1;
    }
    if i < n {
        proof {
            assert(first_non_digit(v@, i as int) == i as int);
        }
        v.get_char(i) == '.'
    } else {
        proof {
            assert(first_non_digit(v@, i as int) == n as int);
        }
        false
    }
}

/// Normalizes a remote version list for resolution: strips `v` prefixes
/// from numeric versions and reverses into ascending order.
pub fn normalize_remote_versions(versions: &Vec<String>) -> (r: Vec<String>)
    ensures
        r.deep_view() == spec_normalize_remote(versions.deep_view()),
{
    let ghost vs = versions.deep_view();
    let mut r: Vec<String> = Vec::new();
    let mut i: usize = versions.len();
    proof {
        assert(r.deep_view() =~~= vs.map_values(|v: Seq<char>| spec_normalize_one(v)).reverse()
            .take(0));
    }
    while i > 0
        invariant
            vs == versions.deep_view(),
            i <= versions.len(),
            r.deep_view() == vs.map_values(|v: Seq<char>| spec_normalize_one(v)).reverse().take(
                (versions.len() - i) as int,
            ),
        decreases i,
    {
        let ghost pref = r.deep_view();
        i = i - 1;
        let entry = versions[i].as_str();
        let n: usize = entry.unicode_len();
        if has_v_num_prefix_exec(entry) {
            r.push(String::from_str(entry.substring_char(1, n)));
            proof {
                assert(entry@.subrange(1, n as int) =~= vs[i as int].drop_first());
            }
        } else {
            r.push(versions[i].clone());
        }
        proof {
            let mapped = vs.map_values(|v: Seq<char>| spec_normalize_one(v));
            assert(r.deep_view() =~~= pref.push(spec_normalize_one(vs[i as int])));
            assert(mapped.reverse()[(versions.len() - i - 1) as int] == mapped[i as int]);
            assert(mapped.reverse().take((versions.len() - i) as int) =~~= pref.push(
                mapped[i as int],
            ));
        }
    }
    proof {
        let mapped = vs.map_values(|v: Seq<char>| spec_normalize_one(v));
        assert(mapped.reverse().take(versions.len() as int) =~= mapped.reverse());
    }
    r
}

} // verus!
