//! The flat `.tool-versions` configuration file: parsing, round-trip
//! preserving dumping, and the toolset slice it contributes.
//!
//! A file is a leading block of comment lines (the prologue), then data
//! lines of the form `plugin-name version...`, each optionally followed by
//! an inline `# comment`; comment lines after a data line are filed with
//! the preceding plugin so a dump can reproduce them.  A trailing colon on
//! a plugin name is tolerated and stripped, and historical plugin names
//! are canonicalized.
//!
//! Trusted sources are expected to have template expressions expanded
//! before the text reaches [`ToolVersions::parse_str`]; untrusted sources
//! are parsed literally, never expanded.

use vstd::prelude::*;

use crate::lines::{
    is_comment_line, spec_is_comment_line, spec_split_lines, spec_trim_end, split_lines, tokens,
    spec_tokens, trim_end,
};
use crate::pad::{measure_width, pad_left, printable_ascii, text_width};
use crate::plugins::{spec_unalias_plugin, unalias_plugin};
use crate::strutil::{
    clone_strings, find_char, join, join_with, spec_find_char, spec_spaces, string_eq,
};
use crate::toolset::{
    spec_request, toolset_add, toolset_wf, SourceModel, ToolSource, Toolset, ToolsetModel,
    ToolVersionRequest,
};

verus! {

/// The versions and surrounding text one plugin has in a file.
#[derive(Debug)]
pub struct ToolVersionPlugin {
    /// The plugin name as written in the file (trailing colons stripped).
    pub orig_name: String,
    /// The versions listed for the plugin, in file order.
    pub versions: Vec<String>,
    /// The text that follows the versions: the inline comment (if any),
    /// the line's newline, and any comment lines that follow the line.
    pub post: String,
}

/// Spec model of one plugin entry.
#[verifier::ext_equal]
pub ghost struct EntryModel {
    pub key: Seq<char>,
    pub orig: Seq<char>,
    pub versions: Seq<Seq<char>>,
    pub post: Seq<char>,
}

/// Spec model of a parsed file.
#[verifier::ext_equal]
pub ghost struct TvModel {
    pub pre: Seq<char>,
    pub entries: Seq<EntryModel>,
}

/// A parsed flat tool-versions file.
#[derive(Debug)]
pub struct ToolVersions {
    /// Where the file lives.
    pub path: String,
    /// Whether the source counts as trusted (see the module doc).
    pub is_trusted: bool,
    /// The leading comment lines, kept verbatim.
    pub pre: String,
    /// Per-plugin entries, keyed by canonical plugin name, in file order.
    pub plugins: Vec<(String, ToolVersionPlugin)>,
    /// The toolset slice this file contributes.
    pub toolset: Toolset,
}

/// The entries a plugin vector stands for.
pub open spec fn entries_of(ps: Seq<(String, ToolVersionPlugin)>) -> Seq<EntryModel> {
    ps.map_values(
        |p: (String, ToolVersionPlugin)| EntryModel {
            key: p.0@,
            orig: p.1.orig_name@,
            versions: p.1.versions@.map_values(|v: String| v@),
            post: p.1.post@,
        },
    )
}

impl View for ToolVersions {
    type V = TvModel;

    open spec fn view(&self) -> TvModel {
        TvModel { pre: self.pre@, entries: entries_of(self.plugins@) }
    }
}

/// No plugin is filed twice.
pub open spec fn entries_uniq(es: Seq<EntryModel>) -> bool {
    forall|i: int, j: int| 0 <= i < j < es.len() ==> es[i].key != es[j].key
}

/// Every entry is keyed by the canonical form of its written name.
pub open spec fn entries_linked(es: Seq<EntryModel>) -> bool {
    forall|i: int| 0 <= i < es.len() ==> (#[trigger] es[i]).key == spec_unalias_plugin(es[i].orig)
}

/// Is some entry keyed `k`?
pub open spec fn entries_has_key(es: Seq<EntryModel>, k: Seq<char>) -> bool {
    exists|i: int| 0 <= i < es.len() && es[i].key == k
}

/// Index of the first entry keyed `k` (meaningful only when present).
pub open spec fn entry_index(es: Seq<EntryModel>, k: Seq<char>) -> int
    decreases es.len(),
{
    if es.len() == 0 {
        0
    } else if es[0].key == k {
        0
    } else {
        1 + entry_index(es.drop_first(), k)
    }
}

/// When `k` is present, `entry_index` points at its first entry.
pub proof fn lemma_entry_index(es: Seq<EntryModel>, k: Seq<char>)
    requires
        entries_has_key(es, k),
    ensures
        0 <= entry_index(es, k) < es.len(),
        es[entry_index(es, k)].key == k,
        forall|j: int| 0 <= j < entry_index(es, k) ==> es[j].key != k,
    decreases es.len(),
{
    if es.len() > 0 && es[0].key != k {
        assert(entries_has_key(es.drop_first(), k)) by {
            let i = choose|i: int| 0 <= i < es.len() && es[i].key == k;
            assert(es.drop_first()[i - 1].key == k);
        }
        lemma_entry_index(es.drop_first(), k);
        assert forall|j: int| 0 <= j < entry_index(es, k) implies es[j].key != k by {
            if j >= 1 {
                assert(es.drop_first()[j - 1].key != k);
            }
        }
    }
}

/// Filing an entry: a plugin already present keeps its position and is
/// replaced wholly; a new plugin is appended.
pub open spec fn entries_upsert(es: Seq<EntryModel>, e: EntryModel) -> Seq<EntryModel> {
    if entries_has_key(es, e.key) {
        es.update(entry_index(es, e.key), e)
    } else {
        es.push(e)
    }
}

/// Filing preserves key uniqueness.
pub proof fn lemma_entries_upsert_uniq(es: Seq<EntryModel>, e: EntryModel)
    requires
        entries_uniq(es),
    ensures
        entries_uniq(entries_upsert(es, e)),
{
    if entries_has_key(es, e.key) {
        lemma_entry_index(es, e.key);
        let i = entry_index(es, e.key);
        let es2 = entries_upsert(es, e);
        assert forall|a: int, b: int| 0 <= a < b < es2.len() implies es2[a].key != es2[b].key by {
            if a != i && b != i {
                assert(es2[a].key == es[a].key && es2[b].key == es[b].key);
            } else if a == i {
                assert(es2[b].key == es[b].key && es[b].key != k_of(es, i));
            } else {
                assert(es2[a].key == es[a].key && es[a].key != k_of(es, i));
            }
        }
    } else {
        let es2 = es.push(e);
        assert forall|a: int, b: int| 0 <= a < b < es2.len() implies es2[a].key != es2[b].key by {
            if b == es.len() {
                if es[a].key == e.key {
                    assert(entries_has_key(es, e.key));
                }
            }
        }
    }
}

/// The key stored at position `i` (helper for the proof above).
pub open spec fn k_of(es: Seq<EntryModel>, i: int) -> Seq<char> {
    es[i].key
}

/// The part of a data line before its inline comment.
pub open spec fn data_of_line(l: Seq<char>) -> Seq<char> {
    match spec_find_char(l, '#', 0) {
        Option::Some(i) => l.take(i),
        Option::None => l,
    }
}

/// The stored tail of a data line: the inline comment re-serialized, and
/// the line's newline.  A line without a comment (or with an empty one)
/// stores a bare newline.
pub open spec fn post_of_line(l: Seq<char>) -> Seq<char> {
    match spec_find_char(l, '#', 0) {
        Option::Some(i) => if l.skip(i + 1).len() == 0 {
            "\n"@
        } else {
            " #"@ + l.skip(i + 1) + "\n"@
        },
        Option::None => "\n"@,
    }
}

/// A token without its trailing colons.
pub open spec fn strip_colons(t: Seq<char>) -> Seq<char>
    decreases t.len(),
{
    if t.len() > 0 && t.last() == ':' {
        strip_colons(t.drop_last())
    } else {
        t
    }
}

/// Copies a token without its trailing colons.
pub fn strip_colons_exec(t: &str) -> (r: String)
    ensures
        r@ == strip_colons(t@),
{
    let n: usize = t.unicode_len();
    let mut e: usize = n;
    proof {
        assert(t@.take(n as int) =~= t@);
    }
    while e > 0 && t.get_char(e - 1) == ':'
        invariant
            n == t@.len(),
            e <= n,
            strip_colons(t@) == strip_colons(t@.take(e as int)),
        decreases e,
    {
        proof {
            assert(t@.take(e as int).last() == t@[e - 1]);
            assert(t@.take(e as int).drop_last() =~= t@.take(e - 1));
        }
        e = e - 1;
    }
    let r = String::from_str(t.substring_char(0, e));
    proof {
        if e > 0 {
            assert(t@.take(e as int).last() == t@[e - 1]);
        }
        assert(strip_colons(t@.take(e as int)) == t@.take(e as int));
        assert(r@ =~= t@.take(e as int));
    }
    r
}

/// The entry a data line declares, if it declares one: the first token
/// names the plugin (colons stripped, name canonicalized), the remaining
/// tokens are its versions.
pub open spec fn entry_of_line(l: Seq<char>) -> Option<EntryModel> {
    let toks = spec_tokens(data_of_line(l));
    if toks.len() == 0 {
        Option::None
    } else {
        let orig = strip_colons(toks[0]);
        Option::Some(
            EntryModel {
                key: spec_unalias_plugin(orig),
                orig,
                versions: toks.drop_first(),
                post: post_of_line(l),
            },
        )
    }
}

/// An entry with a comment line appended to its stored tail.
pub open spec fn append_post(e: EntryModel, l: Seq<char>) -> EntryModel {
    EntryModel { key: e.key, orig: e.orig, versions: e.versions, post: e.post + l + "\n"@ }
}

/// How one line changes the accumulated entries: comment lines are filed
/// with the last entry (and dropped before the first), data lines file an
/// entry, blank lines are dropped.
pub open spec fn parse_step(es: Seq<EntryModel>, l: Seq<char>) -> Seq<EntryModel> {
    if spec_is_comment_line(l) {
        if es.len() > 0 {
            es.update(es.len() - 1, append_post(es.last(), l))
        } else {
            es
        }
    } else {
        match entry_of_line(l) {
            Option::Some(e) => entries_upsert(es, e),
            Option::None => es,
        }
    }
}

/// Lines folded over an already-accumulated entry list.
pub open spec fn fold_lines(acc: Seq<EntryModel>, lines: Seq<Seq<char>>) -> Seq<EntryModel> {
    lines.fold_left(acc, |es: Seq<EntryModel>, l: Seq<char>| parse_step(es, l))
}

/// The entries of a file, line by line.
pub open spec fn parse_entries(lines: Seq<Seq<char>>) -> Seq<EntryModel> {
    fold_lines(Seq::<EntryModel>::empty(), lines)
}

/// Folding over concatenated line lists composes.
pub proof fn lemma_fold_lines_concat(acc: Seq<EntryModel>, a: Seq<Seq<char>>, b: Seq<Seq<char>>)
    ensures
        fold_lines(acc, a + b) == fold_lines(fold_lines(acc, a), b),
    decreases b.len(),
{
    if b.len() == 0 {
        assert(a + b =~= a);
        assert(fold_lines(fold_lines(acc, a), b) == fold_lines(acc, a));
    } else {
        assert((a + b).drop_last() =~= a + b.drop_last());
        assert((a + b).last() == b.last());
        lemma_fold_lines_concat(acc, a, b.drop_last());
    }
}

/// The prologue: the leading run of comment lines, kept verbatim.
pub open spec fn parse_pre(lines: Seq<Seq<char>>) -> Seq<char>
    decreases lines.len(),
{
    if lines.len() == 0 {
        Seq::empty()
    } else if spec_is_comment_line(lines[0]) {
        lines[0] + "\n"@ + parse_pre(lines.drop_first())
    } else {
        Seq::empty()
    }
}

/// What parsing a whole file yields.
pub open spec fn parse_model(s: Seq<char>) -> TvModel {
    TvModel { pre: parse_pre(spec_split_lines(s)), entries: parse_entries(spec_split_lines(s)) }
}

/// Requests for every version in `vs`, filed under plugin `k`, in order,
/// starting from toolset `m`.
pub open spec fn ts_add_versions(m: ToolsetModel, k: Seq<char>, vs: Seq<Seq<char>>) -> ToolsetModel {
    vs.fold_left(m, |m2: ToolsetModel, v: Seq<char>| toolset_add(m2, spec_request(k, v)))
}

/// All of one entry's versions filed in a toolset.
pub open spec fn ts_add_entry(m: ToolsetModel, e: EntryModel) -> ToolsetModel {
    ts_add_versions(m, e.key, e.versions)
}

/// The toolset slice of a file: every version of every entry becomes one
/// request, filed in file order.
pub open spec fn toolset_of_entries(es: Seq<EntryModel>) -> ToolsetModel {
    es.fold_left(
        Seq::<(Seq<char>, Seq<crate::toolset::ReqModel>)>::empty(),
        |m: ToolsetModel, e: EntryModel| ts_add_entry(m, e),
    )
}

/// One step of [`ts_add_versions`].
pub proof fn lemma_tav_step(m: ToolsetModel, k: Seq<char>, vs: Seq<Seq<char>>, b: int)
    requires
        0 <= b < vs.len(),
    ensures
        ts_add_versions(m, k, vs.take(b + 1)) == toolset_add(
            ts_add_versions(m, k, vs.take(b)),
            spec_request(k, vs[b]),
        ),
{
    assert(vs.take(b + 1).drop_last() =~= vs.take(b));
    assert(vs.take(b + 1).last() == vs[b]);
}

/// One step of [`toolset_of_entries`].
pub proof fn lemma_toe_step(es: Seq<EntryModel>, a: int)
    requires
        0 <= a < es.len(),
    ensures
        toolset_of_entries(es.take(a + 1)) == ts_add_entry(toolset_of_entries(es.take(a)), es[a]),
{
    assert(es.take(a + 1).drop_last() =~= es.take(a));
    assert(es.take(a + 1).last() == es[a]);
}

/// One step of [`parse_entries`].
pub proof fn lemma_parse_entries_step(lines: Seq<Seq<char>>, i: int)
    requires
        0 <= i < lines.len(),
    ensures
        parse_entries(lines.take(i + 1)) == parse_step(parse_entries(lines.take(i)), lines[i]),
{
    assert(lines.take(i + 1).drop_last() =~= lines.take(i));
    assert(lines.take(i + 1).last() == lines[i]);
}

/// Position of the entry keyed `key`, if one is filed.
fn find_plugin_index(ps: &Vec<(String, ToolVersionPlugin)>, key: &String) -> (r: Option<usize>)
    ensures
        match r {
            Option::Some(i) => i < ps.len() && entries_of(ps@)[i as int].key == key@ && forall|
                t: int,
            | 0 <= t < i ==> entries_of(ps@)[t].key != key@,
            Option::None => !entries_has_key(entries_of(ps@), key@),
        },
{
    let ghost es = entries_of(ps@);
    let mut idx: usize = 0;
    while idx < ps.len()
        invariant
            es == entries_of(ps@),
            idx <= ps.len(),
            forall|t: int| 0 <= t < idx ==> es[t].key != key@,
        decreases ps.len() - idx,
    {
        if string_eq(&ps[idx].0, key) {
            return Some(idx);
        }
        idx = idx + 1;
    }
    proof {
        if entries_has_key(es, key@) {
            let t = choose|t: int| 0 <= t < es.len() && es[t].key == key@;
            assert(es[t].key != key@);
        }
    }
    None
}

impl ToolVersions {
    /// An empty file at `path`.
    pub fn init(path: String, is_trusted: bool) -> (tv: ToolVersions)
        ensures
            tv@.pre =~= Seq::<char>::empty(),
            tv@.entries =~= Seq::<EntryModel>::empty(),
            tv.path@ == path@,
            tv.is_trusted == is_trusted,
            tv.toolset@ =~= Seq::<(Seq<char>, Seq<crate::toolset::ReqModel>)>::empty(),
    {
        let toolset = Toolset::new(ToolSource::ToolVersions(path.clone()));
        let tv = ToolVersions {
            path,
            is_trusted,
            pre: String::new(),
            plugins: Vec::new(),
            toolset,
        };
        proof {
            assert(tv@.entries =~= Seq::<EntryModel>::empty());
        }
        tv
    }

    /// Parses the text of a flat tool-versions file.  Trusted content must
    /// already have its template expressions expanded; the text itself is
    /// always taken literally.
    pub fn parse_str(s: &str, path: String, is_trusted: bool) -> (tv: ToolVersions)
        ensures
            tv@ == parse_model(s@),
            tv.path@ == path@,
            tv.is_trusted == is_trusted,
            entries_uniq(tv@.entries),
            entries_linked(tv@.entries),
            tv.toolset@ == toolset_of_entries(parse_model(s@).entries),
            toolset_wf(tv.toolset@),
            tv.toolset.source@ == (SourceModel::ToolVersions { path: path@ }),
    {
        let lines_v = split_lines(s);
        let ghost lv = lines_v.deep_view();
        // the prologue: leading comment lines, kept verbatim
        let mut pre = String::new();
        let mut li: usize = 0;
        proof {
            assert(lv.skip(0) =~= lv);
            assert(Seq::<char>::empty() + parse_pre(lv) =~= parse_pre(lv));
        }
        while li < lines_v.len() && is_comment_line(lines_v[li].as_str())
            invariant
                lv == lines_v.deep_view(),
                li <= lines_v.len(),
                parse_pre(lv) == pre@ + parse_pre(lv.skip(li as int)),
            decreases lines_v.len() - li,
        {
            let ghost oldpre = pre@;
            pre.append(lines_v[li].as_str());
            pre.append("\n");
            proof {
                assert(lines_v[li as int]@ == lv[li as int]);
                assert(lv.skip(li as int)[0] == lv[li as int]);
                assert(lv.skip(li as int).drop_first() =~= lv.skip(li + 1));
                assert(spec_is_comment_line(lv.skip(li as int)[0]));
                assert(parse_pre(lv.skip(li as int)) == lv[li as int] + "\n"@ + parse_pre(
                    lv.skip(li + 1),
                ));
                assert(pre@ + parse_pre(lv.skip(li + 1)) =~= oldpre + parse_pre(
                    lv.skip(li as int),
                ));
            }
            li = li + 1;
        }
        proof {
            if li < lines_v.len() {
                assert(lines_v[li as int]@ == lv[li as int]);
                assert(lv.skip(li as int)[0] == lv[li as int]);
                assert(!spec_is_comment_line(lv.skip(li as int)[0]));
            } else {
                assert(lv.skip(li as int).len() == 0);
            }
            assert(parse_pre(lv.skip(li as int)) =~= Seq::<char>::empty());
            assert(pre@ + Seq::<char>::empty() =~= pre@);
            assert(pre@ == parse_pre(lv));
        }
        // the entries, line by line
        let mut plugins_v: Vec<(String, ToolVersionPlugin)> = Vec::new();
        let mut i: usize = 0;
        proof {
            assert(lv.take(0) =~= Seq::<Seq<char>>::empty());
            assert(entries_of(plugins_v@) =~= parse_entries(lv.take(0)));
        }
        while i < lines_v.len()
            invariant
                lv == lines_v.deep_view(),
                i <= lines_v.len(),
                entries_of(plugins_v@) == parse_entries(lv.take(i as int)),
                entries_uniq(entries_of(plugins_v@)),
                entries_linked(entries_of(plugins_v@)),
            decreases lines_v.len() - i,
        {
            let ghost es = entries_of(plugins_v@);
            let ghost l = lv[i as int];
            let line = lines_v[i].as_str();
            proof {
                assert(line@ == l);
                lemma_parse_entries_step(lv, i as int);
                lemma_parse_step_uniq(es, l);
                lemma_parse_step_linked(es, l);
            }
            if is_comment_line(line) {
                if plugins_v.len() > 0 {
                    let pair = plugins_v.pop().unwrap();
                    let (k, tvp) = pair;
                    let ToolVersionPlugin { orig_name, versions, post } = tvp;
                    let mut post = post;
                    post.append(line);
                    post.append("\n");
                    plugins_v.push((k, ToolVersionPlugin { orig_name, versions, post }));
                    proof {
                        assert(entries_of(plugins_v@) =~~= es.update(
                            es.len() - 1,
                            append_post(es.last(), l),
                        ));
                    }
                } else {
                    proof {
                        assert(parse_step(es, l) == es);
                    }
                }
            } else {
                let n: usize = line.unicode_len();
                let data_s: String;
                let post_s: String;
                match find_char(line, '#', 0) {
                    Some(h) => {
                        data_s = String::from_str(line.substring_char(0, h));
                        let after = line.substring_char(h + 1, n);
                        if after.unicode_len() == 0 {
                            post_s = String::from_str("\n");
                        } else {
                            post_s = String::from_str(" #").concat(after).concat("\n");
                        }
                        proof {
                            assert(data_s@ =~= data_of_line(l));
                            assert(after@ =~= l.skip(h + 1));
                            assert(post_s@ =~= post_of_line(l));
                        }
                    },
                    None => {
                        data_s = String::from_str(line);
                        post_s = String::from_str("\n");
                        proof {
                            assert(data_s@ =~= data_of_line(l));
                            assert(post_s@ =~= post_of_line(l));
                        }
                    },
                }
                let toks = tokens(data_s.as_str());
                if toks.len() > 0 {
                    let orig = strip_colons_exec(toks[0].as_str());
                    let key = String::from_str(unalias_plugin(orig.as_str()));
                    let mut versions: Vec<String> = Vec::new();
                    let mut j: usize = 1;
                    proof {
                        assert(versions@.map_values(|v: String| v@) =~= toks.deep_view().subrange(
                            1,
                            1,
                        ));
                    }
                    while j < toks.len()
                        invariant
                            1 <= j <= toks.len(),
                            toks.deep_view() == spec_tokens(data_of_line(l)),
                            versions@.map_values(|v: String| v@) == toks.deep_view().subrange(
                                1,
                                j as int,
                            ),
                        decreases toks.len() - j,
                    {
                        let ghost vsv = versions@.map_values(|v: String| v@);
                        versions.push(toks[j].clone());
                        proof {
                            assert(versions@.map_values(|v: String| v@) =~= vsv.push(
                                toks.deep_view()[j as int],
                            ));
                            assert(toks.deep_view().subrange(1, j + 1) =~= toks.deep_view().subrange(
                                1,
                                j as int,
                            ).push(toks.deep_view()[j as int]));
                        }
                        j = j + 1;
                    }
                    let ghost e = entry_of_line(l).unwrap();
                    proof {
                        assert(toks.deep_view()[0] == spec_tokens(data_of_line(l))[0]);
                        assert(orig@ == e.orig);
                        assert(key@ == e.key);
                        assert(versions@.map_values(|v: String| v@) =~= toks.deep_view().drop_first());
                        assert(versions@.map_values(|v: String| v@) == e.versions);
                        assert(post_s@ == e.post);
                    }
                    let tvp = ToolVersionPlugin { orig_name: orig, versions, post: post_s };
                    // file the entry: replace in place, or append
                    match find_plugin_index(&plugins_v, &key) {
                        Some(idx) => {
                            proof {
                                assert(entries_has_key(es, e.key));
                                lemma_entry_index(es, e.key);
                                assert(entry_index(es, e.key) == idx as int);
                            }
                            let _old = plugins_v.remove(idx);
                            plugins_v.insert(idx, (key, tvp));
                            proof {
                                assert(entries_of(plugins_v@) =~~= entries_upsert(es, e));
                            }
                        },
                        None => {
                            plugins_v.push((key, tvp));
                            proof {
                                assert(entries_of(plugins_v@) =~~= entries_upsert(es, e));
                            }
                        },
                    }
                } else {
                    proof {
                        assert(parse_step(es, l) == es);
                    }
                }
            }
            i = i + 1;
        }
        proof {
            assert(lv.take(lines_v.len() as int) =~= lv);
        }
        // the toolset slice
        let ghost es = entries_of(plugins_v@);
        let mut toolset = Toolset::new(ToolSource::ToolVersions(path.clone()));
        let mut a: usize = 0;
        proof {
            assert(es.take(0) =~= Seq::<EntryModel>::empty());
        }
        while a < plugins_v.len()
            invariant
                es == entries_of(plugins_v@),
                a <= plugins_v.len(),
                toolset@ == toolset_of_entries(es.take(a as int)),
                toolset_wf(toolset@),
                toolset.source@ == (SourceModel::ToolVersions { path: path@ }),
            decreases plugins_v.len() - a,
        {
            let ghost outer = toolset@;
            let ghost ent = es[a as int];
            let vlen = plugins_v[a].1.versions.len();
            let mut b: usize = 0;
            proof {
                assert(ent.versions.take(0) =~= Seq::<Seq<char>>::empty());
                assert(ts_add_versions(outer, ent.key, ent.versions.take(0)) == outer);
            }
            while b < vlen
                invariant
                    es == entries_of(plugins_v@),
                    a < plugins_v.len(),
                    ent == es[a as int],
                    vlen == plugins_v[a as int].1.versions.len(),
                    b <= vlen,
                    ent.versions.len() == vlen,
                    toolset@ == ts_add_versions(outer, ent.key, ent.versions.take(b as int)),
                    toolset_wf(toolset@),
                    toolset.source@ == (SourceModel::ToolVersions { path: path@ }),
                decreases vlen - b,
            {
                let req = ToolVersionRequest::new(
                    plugins_v[a].0.clone(),
                    plugins_v[a].1.versions[b].as_str(),
                );
                proof {
                    assert(plugins_v@[a as int].0@ == ent.key);
                    assert(plugins_v@[a as int].1.versions@.map_values(|v: String| v@)[b as int]
                        == ent.versions[b as int]);
                    assert(req@ == spec_request(ent.key, ent.versions[b as int]));
                }
                toolset.add_version(req);
                proof {
                    lemma_tav_step(outer, ent.key, ent.versions, b as int);
                }
                b = b + 1;
            }
            proof {
                assert(ent.versions.take(vlen as int) =~= ent.versions);
                lemma_toe_step(es, a as int);
            }
            a = a + 1;
        }
        proof {
            assert(es.take(plugins_v.len() as int) =~= es);
        }
        let tv = ToolVersions { path, is_trusted, pre, plugins: plugins_v, toolset };
        proof {
            assert(tv@ =~~= parse_model(s@));
        }
        tv
    }

    /// The toolset slice this file contributes.
    pub fn to_toolset(&self) -> (r: &Toolset)
        ensures
            r@ == self.toolset@,
    {
        &self.toolset
    }

    /// Serializes the file back to text.  The prologue, the written plugin
    /// names, the inline comments and the interleaved comment lines come
    /// back verbatim; names are padded into one column sized by the widest
    /// canonical name.
    pub fn dump(&self) -> (r: String)
        ensures
            r@ == spec_dump_tw(self@),
            entries_printable(self@.entries) ==> r@ == spec_dump(self@),
    {
        let ghost es = self@.entries;
        let mut w: usize = 0;
        let mut a: usize = 0;
        proof {
            assert(es.take(0) =~= Seq::<EntryModel>::empty());
        }
        while a < self.plugins.len()
            invariant
                es == self@.entries,
                a <= self.plugins.len(),
                w as nat == spec_max_width_tw(es.take(a as int)),
                entries_printable(es) ==> w as nat == spec_max_width(es.take(a as int)),
            decreases self.plugins.len() - a,
        {
            let kw = measure_width(self.plugins[a].0.as_str());
            if kw > w {
                w = kw;
            }
            proof {
                assert(self.plugins@[a as int].0@ == es[a as int].key);
                assert(es.take(a + 1).drop_last() =~= es.take(a as int));
                assert(es.take(a + 1).last() == es[a as int]);
            }
            a = a + 1;
        }
        proof {
            assert(es.take(self.plugins.len() as int) =~= es);
        }
        let mut out = String::new();
        out.append(self.pre.as_str());
        let mut b: usize = 0;
        proof {
            assert(es.take(0) =~= Seq::<EntryModel>::empty());
            assert(out@ =~= self@.pre + spec_dump_body_tw(es.take(0), w as nat));
            if entries_printable(es) {
                assert(out@ =~= self@.pre + spec_dump_body(es.take(0), w as nat));
            }
        }
        while b < self.plugins.len()
            invariant
                es == self@.entries,
                b <= self.plugins.len(),
                w as nat == spec_max_width_tw(es),
                entries_printable(es) ==> w as nat == spec_max_width(es),
                out@ == self@.pre + spec_dump_body_tw(es.take(b as int), w as nat),
                entries_printable(es) ==> out@ == self@.pre + spec_dump_body(
                    es.take(b as int),
                    w as nat,
                ),
            decreases self.plugins.len() - b,
        {
            let ghost before = out@;
            let padded = pad_left(self.plugins[b].1.orig_name.as_str(), w);
            out.append(padded.as_str());
            out.append(" ");
            let joined = join(&self.plugins[b].1.versions, " ");
            out.append(joined.as_str());
            out.append(self.plugins[b].1.post.as_str());
            proof {
                let e = es[b as int];
                assert(self.plugins@[b as int].1.orig_name@ == e.orig);
                assert(self.plugins@[b as int].1.post@ == e.post);
                assert(self.plugins@[b as int].1.versions.deep_view() =~~= e.versions);
                assert(padded@ == spec_pad_to_tw(e.orig, w as nat));
                assert(out@ =~= before + spec_entry_line_tw(e, w as nat));
                assert(es.take(b + 1).drop_last() =~= es.take(b as int));
                assert(es.take(b + 1).last() == e);
                assert(out@ =~= self@.pre + spec_dump_body_tw(es.take(b + 1), w as nat));
                if entries_printable(es) {
                    assert(printable_ascii(e.orig));
                    assert(padded@ == spec_pad_to(e.orig, w as nat));
                    assert(out@ =~= self@.pre + spec_dump_body(es.take(b + 1), w as nat));
                }
            }
            b = b + 1;
        }
        proof {
            assert(es.take(self.plugins.len() as int) =~= es);
        }
        let trimmed = trim_end(out.as_str());
        let r = trimmed.concat("\n");
        r
    }

    /// One line describing the file: its abbreviated path and, for each
    /// plugin, `name@versions` with the versions joined by `|`.
    pub fn describe(&self, home: &str) -> (r: String)
        ensures
            r@ == "ToolVersions("@ + crate::file::spec_display_path(self.path@, home@) + "): "@
                + join_with(
                self@.entries.map_values(|e: EntryModel| spec_describe_entry(e)),
                ", "@,
            ),
    {
        let ghost es = self@.entries;
        let mut labels: Vec<String> = Vec::new();
        let mut i: usize = 0;
        proof {
            assert(labels.deep_view() =~~= es.take(0).map_values(
                |e: EntryModel| spec_describe_entry(e),
            ));
        }
        while i < self.plugins.len()
            invariant
                es == self@.entries,
                i <= self.plugins.len(),
                labels.deep_view() == es.take(i as int).map_values(
                    |e: EntryModel| spec_describe_entry(e),
                ),
            decreases self.plugins.len() - i,
        {
            let ghost pref = labels.deep_view();
            let joined = join(&self.plugins[i].1.versions, "|");
            let lab = self.plugins[i].0.clone().concat("@").concat(joined.as_str());
            labels.push(lab);
            proof {
                let e = es[i as int];
                assert(self.plugins@[i as int].0@ == e.key);
                assert(self.plugins@[i as int].1.versions.deep_view() =~~= e.versions);
                assert(labels.deep_view() =~~= pref.push(spec_describe_entry(e)));
                assert(es.take(i + 1).map_values(|e2: EntryModel| spec_describe_entry(e2)) =~~= es
                    .take(i as int).map_values(|e2: EntryModel| spec_describe_entry(e2)).push(
                    spec_describe_entry(e),
                ));
            }
            i = i + 1;
        }
        proof {
            assert(es.take(self.plugins.len() as int) =~= es);
        }
        let disp = crate::file::display_path(self.path.as_str(), home);
        let r = String::from_str("ToolVersions(").concat(disp.as_str()).concat("): ").concat(
            join(&labels, ", ").as_str(),
        );
        r
    }

    /// Removes a plugin's entry, keeping the remaining entries in order.
    pub fn remove_plugin(&mut self, plugin: &String)
        ensures
            final(self)@.entries == spec_remove_entry(old(self)@.entries, plugin@),
            final(self)@.pre == old(self)@.pre,
            final(self).path@ == old(self).path@,
            final(self).is_trusted == old(self).is_trusted,
            final(self).toolset@ == old(self).toolset@,
    {
        let ghost es = self@.entries;
        match find_plugin_index(&self.plugins, plugin) {
            Some(idx) => {
                proof {
                    assert(entries_has_key(es, plugin@));
                    lemma_entry_index(es, plugin@);
                    assert(entry_index(es, plugin@) == idx as int);
                }
                let _old = self.plugins.remove(idx);
                proof {
                    assert(entries_of(self.plugins@) =~~= es.remove(idx as int));
                }
            },
            None => {},
        }
    }

    /// Replaces the version list of a plugin, keeping its written name and
    /// surrounding comments; a plugin not yet filed is appended with the
    /// given name and no stored tail.  The toolset slice is not refreshed.
    pub fn replace_versions(&mut self, plugin: &String, versions: &Vec<String>)
        ensures
            final(self)@.entries == spec_replace_versions(
                old(self)@.entries,
                plugin@,
                versions@.map_values(|v: String| v@),
            ),
            final(self)@.pre == old(self)@.pre,
            final(self).path@ == old(self).path@,
            final(self).is_trusted == old(self).is_trusted,
            final(self).toolset@ == old(self).toolset@,
    {
        let ghost es = self@.entries;
        let vs = clone_strings(versions);
        match find_plugin_index(&self.plugins, plugin) {
            Some(idx) => {
                proof {
                    assert(entries_has_key(es, plugin@));
                    lemma_entry_index(es, plugin@);
                    assert(entry_index(es, plugin@) == idx as int);
                }
                let pair = self.plugins.remove(idx);
                let (k, tvp) = pair;
                let ToolVersionPlugin { orig_name, versions: _discarded, post } = tvp;
                self.plugins.insert(idx, (k, ToolVersionPlugin { orig_name, versions: vs, post }));
                proof {
                    assert(entries_of(self.plugins@) =~~= spec_replace_versions(
                        es,
                        plugin@,
                        versions@.map_values(|v: String| v@),
                    ));
                }
            },
            None => {
                self.plugins.push(
                    (
                        plugin.clone(),
                        ToolVersionPlugin {
                            orig_name: plugin.clone(),
                            versions: vs,
                            post: String::new(),
                        },
                    ),
                );
                proof {
                    assert(entries_of(self.plugins@) =~~= spec_replace_versions(
                        es,
                        plugin@,
                        versions@.map_values(|v: String| v@),
                    ));
                }
            },
        }
    }
}

/// The label an entry is described under: `name@versions`, versions
/// joined by `|`.
pub open spec fn spec_describe_entry(e: EntryModel) -> Seq<char> {
    e.key + "@"@ + join_with(e.versions, "|"@)
}

/// Entries without the one keyed `k` (unchanged when `k` is absent).
pub open spec fn spec_remove_entry(es: Seq<EntryModel>, k: Seq<char>) -> Seq<EntryModel> {
    if entries_has_key(es, k) {
        es.remove(entry_index(es, k))
    } else {
        es
    }
}

/// Entries with the version list under `k` replaced, the rest of that
/// entry kept; a missing plugin is appended with `k` as its written name
/// and an empty stored tail.
pub open spec fn spec_replace_versions(
    es: Seq<EntryModel>,
    k: Seq<char>,
    vs: Seq<Seq<char>>,
) -> Seq<EntryModel> {
    if entries_has_key(es, k) {
        let i = entry_index(es, k);
        es.update(
            i,
            EntryModel { key: es[i].key, orig: es[i].orig, versions: vs, post: es[i].post },
        )
    } else {
        es.push(EntryModel { key: k, orig: k, versions: vs, post: Seq::empty() })
    }
}

/// Widest canonical plugin name, counted in characters.
pub open spec fn spec_max_width(es: Seq<EntryModel>) -> nat
    decreases es.len(),
{
    if es.len() == 0 {
        0
    } else {
        let rest = spec_max_width(es.drop_last());
        if es.last().key.len() > rest {
            es.last().key.len()
        } else {
            rest
        }
    }
}

/// Widest canonical plugin name, by displayed width.
pub open spec fn spec_max_width_tw(es: Seq<EntryModel>) -> nat
    decreases es.len(),
{
    if es.len() == 0 {
        0
    } else {
        let rest = spec_max_width_tw(es.drop_last());
        if text_width(es.last().key) > rest {
            text_width(es.last().key)
        } else {
            rest
        }
    }
}

/// `s` padded with spaces to `w` characters (never truncated).
pub open spec fn spec_pad_to(s: Seq<char>, w: nat) -> Seq<char> {
    if s.len() >= w {
        s
    } else {
        s + spec_spaces((w - s.len()) as nat)
    }
}

/// `s` padded with spaces to displayed width `w` (never truncated).
pub open spec fn spec_pad_to_tw(s: Seq<char>, w: nat) -> Seq<char> {
    if text_width(s) >= w {
        s
    } else {
        s + spec_spaces((w - text_width(s)) as nat)
    }
}

/// One dumped entry: the padded written name, one space, the versions
/// joined by spaces, then the stored tail.
pub open spec fn spec_entry_line(e: EntryModel, w: nat) -> Seq<char> {
    spec_pad_to(e.orig, w) + " "@ + join_with(e.versions, " "@) + e.post
}

/// As [`spec_entry_line`], with displayed-width padding.
pub open spec fn spec_entry_line_tw(e: EntryModel, w: nat) -> Seq<char> {
    spec_pad_to_tw(e.orig, w) + " "@ + join_with(e.versions, " "@) + e.post
}

/// The dumped entries, in order.
pub open spec fn spec_dump_body(es: Seq<EntryModel>, w: nat) -> Seq<char>
    decreases es.len(),
{
    if es.len() == 0 {
        Seq::empty()
    } else {
        spec_dump_body(es.drop_last(), w) + spec_entry_line(es.last(), w)
    }
}

/// As [`spec_dump_body`], with displayed-width padding.
pub open spec fn spec_dump_body_tw(es: Seq<EntryModel>, w: nat) -> Seq<char>
    decreases es.len(),
{
    if es.len() == 0 {
        Seq::empty()
    } else {
        spec_dump_body_tw(es.drop_last(), w) + spec_entry_line_tw(es.last(), w)
    }
}

/// All plugin names (written and canonical) are printable ASCII, so that
/// displayed width and character count agree.
pub open spec fn entries_printable(es: Seq<EntryModel>) -> bool {
    forall|i: int|
        0 <= i < es.len() ==> printable_ascii((#[trigger] es[i]).key) && printable_ascii(
            es[i].orig,
        )
}

/// The dumped file: prologue, entries, trailing whitespace trimmed, one
/// final newline.
pub open spec fn spec_dump(m: TvModel) -> Seq<char> {
    spec_trim_end(m.pre + spec_dump_body(m.entries, spec_max_width(m.entries))) + "\n"@
}

/// As [`spec_dump`], with displayed-width padding.
pub open spec fn spec_dump_tw(m: TvModel) -> Seq<char> {
    spec_trim_end(m.pre + spec_dump_body_tw(m.entries, spec_max_width_tw(m.entries))) + "\n"@
}

/// Parse steps keep every entry keyed canonically.
pub proof fn lemma_parse_step_linked(es: Seq<EntryModel>, l: Seq<char>)
    requires
        entries_linked(es),
    ensures
        entries_linked(parse_step(es, l)),
{
    let es2 = parse_step(es, l);
    if spec_is_comment_line(l) {
        assert forall|i: int| 0 <= i < es2.len() implies (#[trigger] es2[i]).key
            == spec_unalias_plugin(es2[i].orig) by {
            if es.len() > 0 && i < es.len() - 1 {
                assert(es2[i] == es[i]);
            }
        }
    } else {
        match entry_of_line(l) {
            Option::Some(e) => {
                if entries_has_key(es, e.key) {
                    lemma_entry_index(es, e.key);
                }
                assert forall|i: int| 0 <= i < es2.len() implies (#[trigger] es2[i]).key
                    == spec_unalias_plugin(es2[i].orig) by {
                    if i < es.len() && es2[i] == es[i] {
                    }
                }
            },
            Option::None => {},
        }
    }
}

/// Parse steps keep keys unique.
pub proof fn lemma_parse_step_uniq(es: Seq<EntryModel>, l: Seq<char>)
    requires
        entries_uniq(es),
    ensures
        entries_uniq(parse_step(es, l)),
{
    if spec_is_comment_line(l) {
        if es.len() > 0 {
            let es2 = parse_step(es, l);
            assert(forall|i: int| 0 <= i < es2.len() ==> es2[i].key == es[i].key);
        }
    } else {
        match entry_of_line(l) {
            Option::Some(e) => {
                lemma_entries_upsert_uniq(es, e);
            },
            Option::None => {},
        }
    }
}


/// What filing one request does to a plugin's lookup: its own plugin's
/// list gains the request at the end, every other plugin is untouched.
proof fn lemma_toolset_add_value(m: ToolsetModel, r: crate::toolset::ReqModel, p: Seq<char>)
    ensures
        crate::toolset::req_plugin(r) == p ==> crate::kv::has_key(toolset_add(m, r), p)
            && crate::kv::value_of(toolset_add(m, r), p) == if crate::kv::has_key(m, p) {
            crate::kv::value_of(m, p).push(r)
        } else {
            seq![r]
        },
        crate::toolset::req_plugin(r) != p ==> crate::kv::has_key(toolset_add(m, r), p)
            == crate::kv::has_key(m, p) && (crate::kv::has_key(m, p)
            ==> crate::kv::value_of(toolset_add(m, r), p) == crate::kv::value_of(m, p)),
{
    let k = crate::toolset::req_plugin(r);
    let m2 = toolset_add(m, r);
    if crate::kv::has_key(m, k) {
        crate::kv::lemma_key_index(m, k);
        let i = crate::kv::key_index(m, k);
        assert(forall|j: int| 0 <= j < m2.len() ==> (#[trigger] m2[j]).0 == m[j].0);
        lemma_key_index_same_keys(m2, m, p);
        if k == p {
            assert(m2[crate::kv::key_index(m2, p)].1 == crate::kv::value_of(m, p).push(r));
        } else if crate::kv::has_key(m, p) {
            crate::kv::lemma_key_index(m, p);
            assert(crate::kv::key_index(m, p) != i);
        }
    } else {
        if k == p {
            assert(crate::kv::has_key(m2, p)) by {
                assert(m2[m.len() as int].0 == p);
            }
            crate::kv::lemma_key_index(m2, p);
            assert(forall|j: int| 0 <= j < m.len() ==> (#[trigger] m[j]).0 != p);
            assert(crate::kv::key_index(m2, p) == m.len() as int) by {
                if crate::kv::key_index(m2, p) < m.len() {
                    assert(m[crate::kv::key_index(m2, p)].0 == p);
                }
            }
        } else {
            assert(crate::kv::has_key(m2, p) == crate::kv::has_key(m, p)) by {
                if crate::kv::has_key(m2, p) {
                    let j = choose|j: int| 0 <= j < m2.len() && m2[j].0 == p;
                    assert(j < m.len());
                    assert(m[j].0 == p);
                }
                if crate::kv::has_key(m, p) {
                    let j = choose|j: int| 0 <= j < m.len() && m[j].0 == p;
                    assert(m2[j].0 == p);
                }
            }
            if crate::kv::has_key(m, p) {
                crate::kv::lemma_key_index(m, p);
                crate::kv::lemma_key_index(m2, p);
                lemma_key_index_prefix(m, (k, seq![r]), p);
            }
        }
    }
}

/// Key-wise equal maps look keys up at the same place.
proof fn lemma_key_index_same_keys<V>(
    m1: Seq<(Seq<char>, V)>,
    m2: Seq<(Seq<char>, V)>,
    p: Seq<char>,
)
    requires
        m1.len() == m2.len(),
        forall|i: int| 0 <= i < m1.len() ==> (#[trigger] m1[i]).0 == m2[i].0,
    ensures
        crate::kv::has_key(m1, p) == crate::kv::has_key(m2, p),
        crate::kv::key_index(m1, p) == crate::kv::key_index(m2, p),
    decreases m1.len(),
{
    if m1.len() > 0 {
        assert(forall|i: int|
            0 <= i < m1.drop_first().len() ==> (#[trigger] m1.drop_first()[i]).0 == m1[i + 1].0
                && m2.drop_first()[i].0 == m2[i + 1].0);
        lemma_key_index_same_keys(m1.drop_first(), m2.drop_first(), p);
        assert(crate::kv::has_key(m1, p) == crate::kv::has_key(m2, p)) by {
            if crate::kv::has_key(m1, p) {
                let i = choose|i: int| 0 <= i < m1.len() && m1[i].0 == p;
                assert(m2[i].0 == p);
            }
            if crate::kv::has_key(m2, p) {
                let i = choose|i: int| 0 <= i < m2.len() && m2[i].0 == p;
                assert(m1[i].0 == p);
            }
        }
    }
}

/// Lookup of an existing key ignores an appended pair.
proof fn lemma_key_index_prefix<V>(m: Seq<(Seq<char>, V)>, e: (Seq<char>, V), p: Seq<char>)
    requires
        crate::kv::has_key(m, p),
    ensures
        crate::kv::key_index(m.push(e), p) == crate::kv::key_index(m, p),
    decreases m.len(),
{
    crate::kv::lemma_key_index(m, p);
    if m.len() > 0 && m[0].0 != p {
        assert(crate::kv::has_key(m.drop_first(), p)) by {
            let i = choose|i: int| 0 <= i < m.len() && m[i].0 == p;
            assert(m.drop_first()[i - 1].0 == p);
        }
        lemma_key_index_prefix(m.drop_first(), e, p);
        assert(m.push(e).drop_first() =~= m.drop_first().push(e));
    }
}

/// What filing one entry's versions does to a plugin's lookup.
proof fn lemma_tav_value(m: ToolsetModel, k: Seq<char>, vs: Seq<Seq<char>>, p: Seq<char>)
    ensures
        k == p ==> crate::kv::has_key(ts_add_versions(m, k, vs), p) == (crate::kv::has_key(m, p)
            || vs.len() > 0) && (crate::kv::has_key(m, p) ==> crate::kv::value_of(
            ts_add_versions(m, k, vs),
            p,
        ) == crate::kv::value_of(m, p) + crate::toolset::reqs_of_specs(p, vs)) && (!crate::kv::has_key(
            m,
            p,
        ) && vs.len() > 0 ==> crate::kv::value_of(ts_add_versions(m, k, vs), p)
            == crate::toolset::reqs_of_specs(p, vs)),
        k != p ==> crate::kv::has_key(ts_add_versions(m, k, vs), p) == crate::kv::has_key(m, p) && (
        crate::kv::has_key(m, p) ==> crate::kv::value_of(ts_add_versions(m, k, vs), p)
            == crate::kv::value_of(m, p)),
    decreases vs.len(),
{
    if vs.len() == 0 {
        if k == p && crate::kv::has_key(m, p) {
            assert(crate::kv::value_of(m, p) + crate::toolset::reqs_of_specs(p, vs)
                =~= crate::kv::value_of(m, p));
        }
    } else {
        let front = vs.drop_last();
        lemma_tav_value(m, k, front, p);
        assert(ts_add_versions(m, k, vs) == toolset_add(
            ts_add_versions(m, k, front),
            spec_request(k, vs.last()),
        )) by {
            assert(vs.drop_last() =~= front);
        }
        assert(crate::toolset::req_plugin(spec_request(k, vs.last())) == k) by {
            reveal_strlit("ref");
            reveal_strlit("prefix");
            reveal_strlit("path");
            reveal_strlit("system");
        }
        lemma_toolset_add_value(ts_add_versions(m, k, front), spec_request(k, vs.last()), p);
        if k == p {
            assert(crate::toolset::reqs_of_specs(p, vs) =~= crate::toolset::reqs_of_specs(
                p,
                front,
            ).push(spec_request(p, vs.last())));
            if crate::kv::has_key(m, p) {
                assert(crate::kv::value_of(ts_add_versions(m, k, vs), p) =~= crate::kv::value_of(
                    m,
                    p,
                ) + crate::toolset::reqs_of_specs(p, vs));
            } else if front.len() > 0 {
                assert(crate::kv::value_of(ts_add_versions(m, k, vs), p)
                    =~= crate::toolset::reqs_of_specs(p, vs));
            } else {
                assert(crate::kv::value_of(ts_add_versions(m, k, vs), p) =~= seq![
                    spec_request(p, vs.last()),
                ]);
                assert(crate::kv::value_of(ts_add_versions(m, k, vs), p)
                    =~= crate::toolset::reqs_of_specs(p, vs));
            }
        }
    }
}

/// Multi-version order: in the toolset slice of a parsed file, a plugin
/// declared with several versions holds one request per version, in file
/// order; a plugin with no version (or none at all) holds no entry.
pub proof fn lemma_toolset_of_entries_value(es: Seq<EntryModel>, p: Seq<char>)
    requires
        entries_uniq(es),
    ensures
        entries_has_key(es, p) && es[entry_index(es, p)].versions.len() > 0
            ==> crate::kv::has_key(toolset_of_entries(es), p) && crate::kv::value_of(
            toolset_of_entries(es),
            p,
        ) == crate::toolset::reqs_of_specs(p, es[entry_index(es, p)].versions),
        !entries_has_key(es, p) ==> !crate::kv::has_key(toolset_of_entries(es), p),
    decreases es.len(),
{
    if es.len() == 0 {
        if crate::kv::has_key(toolset_of_entries(es), p) {
            let j = choose|j: int|
                0 <= j < toolset_of_entries(es).len() && toolset_of_entries(es)[j].0 == p;
        }
    } else {
        let front = es.drop_last();
        let e = es.last();
        assert(entries_uniq(front)) by {
            assert(forall|i: int| 0 <= i < front.len() ==> front[i] == es[i]);
        }
        lemma_toolset_of_entries_value(front, p);
        lemma_toe_step(es, es.len() as int - 1);
        assert(es.take(es.len() as int) =~= es);
        assert(es.take(es.len() as int - 1) =~= front);
        lemma_tav_value(toolset_of_entries(front), e.key, e.versions, p);
        if entries_has_key(es, p) {
            lemma_entry_index(es, p);
            let i = entry_index(es, p);
            if i == es.len() - 1 {
                assert(!entries_has_key(front, p)) by {
                    if entries_has_key(front, p) {
                        let j = choose|j: int| 0 <= j < front.len() && front[j].key == p;
                        assert(es[j].key == p);
                    }
                }
            } else {
                assert(front[i].key == p);
                assert(entries_has_key(front, p));
                lemma_entry_index(front, p);
                assert(entry_index(front, p) == i) by {
                    if entry_index(front, p) < i {
                        assert(es[entry_index(front, p)].key == p);
                    } else if entry_index(front, p) > i {
                        assert(front[i].key == p);
                    }
                }
                assert(e.key != p);
            }
        } else {
            assert(!entries_has_key(front, p)) by {
                if entries_has_key(front, p) {
                    let j = choose|j: int| 0 <= j < front.len() && front[j].key == p;
                    assert(es[j].key == p);
                }
            }
            assert(e.key != p);
        }
    }
}

} // verus!
