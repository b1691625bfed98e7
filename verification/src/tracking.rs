//! The change tracker: the record of watched config files and the
//! fast-path decision that lets the shell hook skip a full resolution.
//!
//! Computing a file's fingerprint and persisting the record are I/O and
//! live with the caller; the decision itself is a pure comparison.

use vstd::prelude::*;

use crate::config::contains_string;
use crate::kv::{has_key, key_index, uniq_keys, value_of};
use crate::strutil::string_eq;

verus! {

/// The in-memory record of watched config file paths.
#[derive(Debug)]
pub struct Tracker {
    pub paths: Vec<String>,
}

impl Tracker {
    /// An empty record.
    pub fn new() -> (r: Tracker)
        ensures
            r.paths@.len() == 0,
    {
        Tracker { paths: Vec::new() }
    }

    /// Records one path; a path already recorded stays recorded once.
    pub fn track(&mut self, path: &String)
        ensures
            final(self).paths.deep_view() == if old(self).paths.deep_view().contains(path@) {
                old(self).paths.deep_view()
            } else {
                old(self).paths.deep_view().push(path@)
            },
    {
        if !contains_string(&self.paths, path) {
            self.paths.push(path.clone());
        }
    }

    /// The recorded paths, in recording order.
    pub fn list_all(&self) -> (r: &Vec<String>)
        ensures
            r.deep_view() == self.paths.deep_view(),
    {
        &self.paths
    }
}

/// Does every watched path's current fingerprint match the recorded one?
pub open spec fn spec_fingerprints_match(
    watched: Seq<(Seq<char>, u64)>,
    recorded: Seq<(Seq<char>, u64)>,
) -> bool {
    forall|i: int|
        0 <= i < watched.len() ==> has_key(recorded, (#[trigger] watched[i]).0) && value_of(
            recorded,
            watched[i].0,
        ) == watched[i].1
}

/// The shell-hook fast path: resolution may be skipped only when every
/// watched path's current fingerprint matches the last recorded one.
pub fn should_exit_early(watched: &Vec<(String, u64)>, recorded: &Vec<(String, u64)>) -> (r: bool)
    ensures
        r == spec_fingerprints_match(watched.deep_view(), recorded.deep_view()),
{
    let ghost wv = watched.deep_view();
    let ghost rv = recorded.deep_view();
    let mut i: usize = 0;
    while i < watched.len()
        invariant
            wv == watched.deep_view(),
            rv == recorded.deep_view(),
            i <= watched.len(),
            forall|j: int|
                0 <= j < i ==> has_key(rv, (#[trigger] wv[j]).0) && value_of(rv, wv[j].0)
                    == wv[j].1,
        decreases watched.len() - i,
    {
        match lookup_fingerprint(recorded, &watched[i].0) {
            Some(fp) => {
                if fp != watched[i].1 {
                    proof {
                        assert(!(value_of(rv, wv[i as int].0) == wv[i as int].1));
                    }
                    return false;
                }
            },
            None => {
                proof {
                    assert(wv[i as int].0 == watched@[i as int].0@);
                    assert(!has_key(rv, wv[i as int].0));
                }
                return false;
            },
        }
        i = i + 1;
    }
    true
}

/// Looks up the recorded fingerprint of a path (first record wins).
fn lookup_fingerprint(recorded: &Vec<(String, u64)>, path: &String) -> (r: Option<u64>)
    ensures
        match r {
            Option::Some(fp) => has_key(recorded.deep_view(), path@) && value_of(
                recorded.deep_view(),
                path@,
            ) == fp,
            Option::None => !has_key(recorded.deep_view(), path@),
        },
{
    let ghost rv = recorded.deep_view();
    let mut i: usize = 0;
    while i < recorded.len()
        invariant
            rv == recorded.deep_view(),
            i <= recorded.len(),
            forall|j: int| 0 <= j < i ==> rv[j].0 != path@,
        decreases recorded.len() - i,
    {
        if string_eq(&recorded[i].0, path) {
            proof {
                assert(rv[i as int].0 == path@);
                assert(has_key(rv, path@));
                crate::kv::lemma_key_index(rv, path@);
                assert(key_index(rv, path@) == i as int);
            }
            return Some(recorded[i].1);
        }
        i = i + 1;
    }
    proof {
        if has_key(rv, path@) {
            let j = choose|j: int| 0 <= j < rv.len() && rv[j].0 == path@;
            assert(rv[j].0 != path@);
        }
    }
    None
}

/// An unchanged run needs no resolution: when the watched set is
/// recorded unchanged (each path once), every fingerprint matches its
/// own record, so the fast path reports that resolution may be skipped.
pub proof fn lemma_unchanged_run_exits_early(w: Seq<(Seq<char>, u64)>)
    requires
        uniq_keys(w),
    ensures
        spec_fingerprints_match(w, w),
{
    assert forall|i: int|
        0 <= i < w.len() implies has_key(w, (#[trigger] w[i]).0) && value_of(w, w[i].0)
        == w[i].1 by {
        assert(has_key(w, w[i].0));
        crate::kv::lemma_key_index(w, w[i].0);
        let k = key_index(w, w[i].0);
        assert(w[k].0 == w[i].0);
        assert(k == i) by {
            if k < i {
                assert(w[k].0 != w[i].0);
            } else if k > i {
                assert(w[i].0 != w[k].0);
            }
        }
    }
}

} // verus!
