//! The resolved toolset: per-plugin ordered lists of version requests, each
//! carrying the source it came from.

use vstd::prelude::*;

use crate::kv::{has_key, key_index, uniq_keys, value_of};
use crate::strutil::{find_char, join, join_with, spec_find_char, str_eq, string_eq};

verus! {

/// Name of a tool plugin (`node`, `ruby`, ...).
pub type PluginName = String;

/// Where a fragment of configuration came from.
#[derive(Debug)]
pub enum ToolSource {
    /// A flat `.tool-versions` file at the given path.
    ToolVersions(String),
    /// A native configuration file at the given path.
    RtxToml(String),
    /// A legacy per-tool version file at the given path.
    LegacyVersionFile(String),
    /// A command-line argument.
    Argument,
    /// No particular source.
    Unknown,
}

/// Spec model of a [`ToolSource`].
pub ghost enum SourceModel {
    ToolVersions { path: Seq<char> },
    RtxToml { path: Seq<char> },
    LegacyVersionFile { path: Seq<char> },
    Argument,
    Unknown,
}

impl View for ToolSource {
    type V = SourceModel;

    open spec fn view(&self) -> SourceModel {
        match self {
            ToolSource::ToolVersions(p) => SourceModel::ToolVersions { path: p@ },
            ToolSource::RtxToml(p) => SourceModel::RtxToml { path: p@ },
            ToolSource::LegacyVersionFile(p) => SourceModel::LegacyVersionFile { path: p@ },
            ToolSource::Argument => SourceModel::Argument,
            ToolSource::Unknown => SourceModel::Unknown,
        }
    }
}

impl ToolSource {
    /// A copy of this source.
    pub fn duplicate(&self) -> (r: ToolSource)
        ensures
            r@ == self@,
    {
        match self {
            ToolSource::ToolVersions(p) => ToolSource::ToolVersions(p.clone()),
            ToolSource::RtxToml(p) => ToolSource::RtxToml(p.clone()),
            ToolSource::LegacyVersionFile(p) => ToolSource::LegacyVersionFile(p.clone()),
            ToolSource::Argument => ToolSource::Argument,
            ToolSource::Unknown => ToolSource::Unknown,
        }
    }
}

/// One symbolic request for a tool version, as written in a config source.
#[derive(Debug)]
pub enum ToolVersionRequest {
    /// A version string taken literally (possibly partial, e.g. `20`).
    Version(PluginName, String),
    /// An explicit prefix filter, written `prefix:20`.
    Prefix(PluginName, String),
    /// A git ref, written `ref:deadbeef`.
    Ref(PluginName, String),
    /// A local path, written `path:~/src/tool`.
    Path(PluginName, String),
    /// Whatever is already installed on `PATH`, written `system`.
    System(PluginName),
}

/// Spec model of a [`ToolVersionRequest`].
pub ghost enum ReqModel {
    Version { plugin: Seq<char>, version: Seq<char> },
    Prefix { plugin: Seq<char>, prefix: Seq<char> },
    Ref { plugin: Seq<char>, ref_name: Seq<char> },
    Path { plugin: Seq<char>, path: Seq<char> },
    System { plugin: Seq<char> },
}

impl View for ToolVersionRequest {
    type V = ReqModel;

    open spec fn view(&self) -> ReqModel {
        match self {
            ToolVersionRequest::Version(p, v) => ReqModel::Version { plugin: p@, version: v@ },
            ToolVersionRequest::Prefix(p, v) => ReqModel::Prefix { plugin: p@, prefix: v@ },
            ToolVersionRequest::Ref(p, v) => ReqModel::Ref { plugin: p@, ref_name: v@ },
            ToolVersionRequest::Path(p, v) => ReqModel::Path { plugin: p@, path: v@ },
            ToolVersionRequest::System(p) => ReqModel::System { plugin: p@ },
        }
    }
}

/// The plugin a request belongs to.
pub open spec fn req_plugin(r: ReqModel) -> Seq<char> {
    match r {
        ReqModel::Version { plugin, .. } => plugin,
        ReqModel::Prefix { plugin, .. } => plugin,
        ReqModel::Ref { plugin, .. } => plugin,
        ReqModel::Path { plugin, .. } => plugin,
        ReqModel::System { plugin } => plugin,
    }
}

/// How a raw version spec is classified into a request: `ref:R`, `prefix:P`
/// and `path:P` select their variants, the bare word `system` selects
/// [`ReqModel::System`], anything else is a literal version.
pub open spec fn spec_request(plugin: Seq<char>, s: Seq<char>) -> ReqModel {
    let plain = if s == "system"@ {
        ReqModel::System { plugin }
    } else {
        ReqModel::Version { plugin, version: s }
    };
    match spec_find_char(s, ':', 0) {
        Some(i) => {
            let head = s.take(i);
            let tail = s.skip(i + 1);
            if head == "ref"@ {
                ReqModel::Ref { plugin, ref_name: tail }
            } else if head == "prefix"@ {
                ReqModel::Prefix { plugin, prefix: tail }
            } else if head == "path"@ {
                ReqModel::Path { plugin, path: tail }
            } else {
                plain
            }
        },
        None => plain,
    }
}

/// The label a request is displayed under: `plugin@version`, with the
/// `prefix:`/`ref:`/`path:` markers and the bare `system` kept.
pub open spec fn spec_req_label(r: ReqModel) -> Seq<char> {
    match r {
        ReqModel::Version { plugin, version } => plugin + "@"@ + version,
        ReqModel::Prefix { plugin, prefix } => plugin + "@prefix:"@ + prefix,
        ReqModel::Ref { plugin, ref_name } => plugin + "@ref:"@ + ref_name,
        ReqModel::Path { plugin, path } => plugin + "@path:"@ + path,
        ReqModel::System { plugin } => plugin + "@system"@,
    }
}

impl ToolVersionRequest {
    /// Classifies a raw version spec from a config source.
    pub fn new(plugin: PluginName, s: &str) -> (r: ToolVersionRequest)
        ensures
            r@ == spec_request(plugin@, s@),
    {
        let n: usize = s.unicode_len();
        match find_char(s, ':', 0) {
            Some(i) => {
                let head = s.substring_char(0, i);
                let tail_str = s.substring_char(i + 1, n);
                let tail = String::from_str(tail_str);
                proof {
                    assert(head@ =~= s@.take(i as int));
                    assert(tail@ =~= s@.skip(i + 1));
                }
                if str_eq(head, "ref") {
                    ToolVersionRequest::Ref(plugin, tail)
                } else if str_eq(head, "prefix") {
                    ToolVersionRequest::Prefix(plugin, tail)
                } else if str_eq(head, "path") {
                    ToolVersionRequest::Path(plugin, tail)
                } else if str_eq(s, "system") {
                    ToolVersionRequest::System(plugin)
                } else {
                    ToolVersionRequest::Version(plugin, String::from_str(s))
                }
            },
            None => {
                if str_eq(s, "system") {
                    ToolVersionRequest::System(plugin)
                } else {
                    ToolVersionRequest::Version(plugin, String::from_str(s))
                }
            },
        }
    }

    /// The plugin this request is for.
    pub fn plugin_name(&self) -> (r: &PluginName)
        ensures
            r@ == req_plugin(self@),
    {
        match self {
            ToolVersionRequest::Version(p, _) => p,
            ToolVersionRequest::Prefix(p, _) => p,
            ToolVersionRequest::Ref(p, _) => p,
            ToolVersionRequest::Path(p, _) => p,
            ToolVersionRequest::System(p) => p,
        }
    }

    /// A copy of this request.
    pub fn duplicate(&self) -> (r: ToolVersionRequest)
        ensures
            r@ == self@,
    {
        match self {
            ToolVersionRequest::Version(p, v) => ToolVersionRequest::Version(p.clone(), v.clone()),
            ToolVersionRequest::Prefix(p, v) => ToolVersionRequest::Prefix(p.clone(), v.clone()),
            ToolVersionRequest::Ref(p, v) => ToolVersionRequest::Ref(p.clone(), v.clone()),
            ToolVersionRequest::Path(p, v) => ToolVersionRequest::Path(p.clone(), v.clone()),
            ToolVersionRequest::System(p) => ToolVersionRequest::System(p.clone()),
        }
    }

    /// The display label of this request.
    pub fn label(&self) -> (r: String)
        ensures
            r@ == spec_req_label(self@),
    {
        match self {
            ToolVersionRequest::Version(p, v) => {
                p.clone().concat("@").concat(v.as_str())
            },
            ToolVersionRequest::Prefix(p, v) => {
                p.clone().concat("@prefix:").concat(v.as_str())
            },
            ToolVersionRequest::Ref(p, v) => {
                p.clone().concat("@ref:").concat(v.as_str())
            },
            ToolVersionRequest::Path(p, v) => {
                p.clone().concat("@path:").concat(v.as_str())
            },
            ToolVersionRequest::System(p) => {
                p.clone().concat("@system")
            },
        }
    }
}

/// The ordered list of requests one plugin has in a toolset.
#[derive(Debug)]
pub struct ToolVersionList {
    pub requests: Vec<ToolVersionRequest>,
    pub source: ToolSource,
}

impl View for ToolVersionList {
    type V = Seq<ReqModel>;

    open spec fn view(&self) -> Seq<ReqModel> {
        self.requests@.map_values(|r: ToolVersionRequest| r@)
    }
}

/// Spec model of a toolset: an insertion-ordered map from plugin name to
/// that plugin's request list.
pub type ToolsetModel = Seq<(Seq<char>, Seq<ReqModel>)>;

/// The fully resolved, per-plugin set of version requests for a run.
#[derive(Debug)]
pub struct Toolset {
    pub versions: Vec<(PluginName, ToolVersionList)>,
    pub source: ToolSource,
}

impl View for Toolset {
    type V = ToolsetModel;

    open spec fn view(&self) -> ToolsetModel {
        self.versions@.map_values(
            |p: (PluginName, ToolVersionList)| (p.0@, p.1@),
        )
    }
}

/// Adding one request to a toolset model: appended to its plugin's list if
/// the plugin is present, else a new singleton entry at the end.
pub open spec fn toolset_add(m: ToolsetModel, r: ReqModel) -> ToolsetModel {
    let k = req_plugin(r);
    if has_key(m, k) {
        let i = key_index(m, k);
        m.update(i, (k, m[i].1.push(r)))
    } else {
        m.push((k, seq![r]))
    }
}

/// Every request in the model belongs to the plugin it is filed under.
pub open spec fn toolset_reqs_match(m: ToolsetModel) -> bool {
    forall|i: int, j: int|
        0 <= i < m.len() && 0 <= j < m[i].1.len() ==> req_plugin(#[trigger] m[i].1[j]) == m[i].0
}

/// A well-formed toolset files each plugin once, in insertion order.
pub open spec fn toolset_wf(m: ToolsetModel) -> bool {
    uniq_keys(m) && toolset_reqs_match(m)
}

/// Filing one request preserves well-formedness.
pub proof fn lemma_toolset_add_wf(m: ToolsetModel, r: ReqModel)
    requires
        toolset_wf(m),
    ensures
        toolset_wf(toolset_add(m, r)),
{
    let k = req_plugin(r);
    let m2 = toolset_add(m, r);
    if has_key(m, k) {
        crate::kv::lemma_key_index(m, k);
        let i = key_index(m, k);
        assert(uniq_keys(m2)) by {
            assert(forall|j: int| 0 <= j < m2.len() ==> m2[j].0 == m[j].0);
        }
        assert forall|a: int, b: int|
            0 <= a < m2.len() && 0 <= b < m2[a].1.len() implies req_plugin(#[trigger] m2[a].1[b])
            == m2[a].0 by {
            if a == i && b == m2[a].1.len() - 1 {
            } else {
                assert(m2[a].1[b] == m[a].1[b]);
            }
        }
    } else {
        assert forall|a: int, b: int| 0 <= a < b < m2.len() implies m2[a].0 != m2[b].0 by {
            if b == m.len() {
                assert(m2[b].0 == k);
                if m[a].0 == k {
                    assert(has_key(m, k));
                }
            }
        }
        assert forall|a: int, b: int|
            0 <= a < m2.len() && 0 <= b < m2[a].1.len() implies req_plugin(#[trigger] m2[a].1[b])
            == m2[a].0 by {
            if a < m.len() {
                assert(m2[a].1[b] == m[a].1[b]);
            } else {
                assert(m2[a].1 == seq![r]);
            }
        }
    }
}

impl Toolset {
    /// An empty toolset attributed to `source`.
    pub fn new(source: ToolSource) -> (r: Toolset)
        ensures
            r@ =~= Seq::<(Seq<char>, Seq<ReqModel>)>::empty(),
            r.source@ == source@,
            toolset_wf(r@),
    {
        let r = Toolset { versions: Vec::new(), source };
        proof {
            assert(r@ =~= Seq::<(Seq<char>, Seq<ReqModel>)>::empty());
        }
        r
    }

    /// Files one request under its plugin, preserving declaration order.
    pub fn add_version(&mut self, tvr: ToolVersionRequest)
        requires
            toolset_wf(old(self)@),
        ensures
            final(self)@ == toolset_add(old(self)@, tvr@),
            toolset_wf(final(self)@),
            final(self).source@ == old(self).source@,
    {
        let ghost m = self@;
        let ghost k = req_plugin(tvr@);
        let key: String = tvr.plugin_name().clone();
        let mut i: usize = 0;
        while i < self.versions.len()
            invariant
                m == self@,
                m == old(self)@,
                toolset_wf(m),
                self.source@ == old(self).source@,
                k == req_plugin(tvr@),
                key@ == k,
                i <= self.versions.len(),
                m.len() == self.versions.len(),
                forall|j: int| 0 <= j < i ==> m[j].0 != k,
            decreases self.versions.len() - i,
        {
            if string_eq(&self.versions[i].0, &key) {
                proof {
                    assert(m[i as int].0 == k);
                    assert(has_key(m, k));
                    crate::kv::lemma_key_index(m, k);
                    assert(key_index(m, k) == i as int);
                }
                let mut pair = self.versions.remove(i);
                pair.1.requests.push(tvr);
                self.versions.insert(i, pair);
                proof {
                    assert(self@ =~~= toolset_add(m, tvr@));
                    lemma_toolset_add_wf(m, tvr@);
                }
                return ;
            }
            i = i + 1;
        }
        proof {
            assert(!has_key(m, k)) by {
                if has_key(m, k) {
                    let j = choose|j: int| 0 <= j < m.len() && m[j].0 == k;
                    assert(m[j].0 != k);
                }
            }
        }
        let src = self.source.duplicate();
        let mut requests: Vec<ToolVersionRequest> = Vec::new();
        requests.push(tvr);
        self.versions.push((key, ToolVersionList { requests, source: src }));
        proof {
            assert(self@ =~~= toolset_add(m, tvr@));
            lemma_toolset_add_wf(m, tvr@);
        }
    }

    /// Replaces `plugin`'s whole request list with `reqs` (an assignment,
    /// not an accumulation): a plugin already filed keeps its position, a
    /// new one is appended.
    pub fn set_versions(&mut self, plugin: &PluginName, reqs: Vec<ToolVersionRequest>, source: ToolSource)
        ensures
            final(self)@ == toolset_set(
                old(self)@,
                plugin@,
                reqs@.map_values(|r: ToolVersionRequest| r@),
            ),
            final(self).source@ == old(self).source@,
    {
        let ghost m = self@;
        let ghost rv = reqs@.map_values(|r: ToolVersionRequest| r@);
        let mut i: usize = 0;
        while i < self.versions.len()
            invariant
                m == self@,
                m == old(self)@,
                self.source@ == old(self).source@,
                rv == reqs@.map_values(|r: ToolVersionRequest| r@),
                i <= self.versions.len(),
                m.len() == self.versions.len(),
                forall|j: int| 0 <= j < i ==> m[j].0 != plugin@,
            decreases self.versions.len() - i,
        {
            if string_eq(&self.versions[i].0, plugin) {
                proof {
                    assert(m[i as int].0 == plugin@);
                    assert(has_key(m, plugin@));
                    crate::kv::lemma_key_index(m, plugin@);
                    assert(key_index(m, plugin@) == i as int);
                }
                let pair = self.versions.remove(i);
                let (k, lst) = pair;
                self.versions.insert(i, (k, ToolVersionList { requests: reqs, source }));
                proof {
                    assert(self@ =~~= toolset_set(m, plugin@, rv));
                }
                return ;
            }
            i = i + 1;
        }
        proof {
            assert(!has_key(m, plugin@)) by {
                if has_key(m, plugin@) {
                    let j = choose|j: int| 0 <= j < m.len() && m[j].0 == plugin@;
                    assert(m[j].0 != plugin@);
                }
            }
        }
        self.versions.push((plugin.clone(), ToolVersionList { requests: reqs, source }));
        proof {
            assert(self@ =~~= toolset_set(m, plugin@, rv));
        }
    }

    /// The labels of all requests, in declaration order.
    pub open spec fn spec_labels(m: ToolsetModel) -> Seq<Seq<char>> {
        m.flat_map(|p: (Seq<char>, Seq<ReqModel>)| p.1.map_values(|r: ReqModel| spec_req_label(r)))
    }

    /// One line describing the toolset: request labels joined by spaces.
    pub fn describe(&self) -> (r: String)
        ensures
            r@ == join_with(Toolset::spec_labels(self@), " "@),
    {
        let mut labels: Vec<String> = Vec::new();
        let mut i: usize = 0;
        while i < self.versions.len()
            invariant
                i <= self.versions.len(),
                labels.deep_view() =~~= Toolset::spec_labels(self@.take(i as int)),
            decreases self.versions.len() - i,
        {
            let reqs = &self.versions[i].1.requests;
            let mut j: usize = 0;
            while j < reqs.len()
                invariant
                    i < self.versions.len(),
                    j <= reqs.len(),
                    reqs == &self.versions[i as int].1.requests,
                    labels.deep_view() =~~= Toolset::spec_labels(self@.take(i as int)) + self@[
                        i as int
                    ].1.take(j as int).map_values(|r: ReqModel| spec_req_label(r)),
                decreases reqs.len() - j,
            {
                let ghost prev = labels.deep_view();
                let lab = reqs[j].label();
                labels.push(lab);
                proof {
                    let inner = self@[i as int].1;
                    assert(labels.deep_view() =~~= prev.push(spec_req_label(inner[j as int])));
                    assert(inner.take(j + 1).map_values(|r: ReqModel| spec_req_label(r))
                        =~= inner.take(j as int).map_values(|r: ReqModel| spec_req_label(r)).push(
                        spec_req_label(inner[j as int]),
                    ));
                    assert(labels.deep_view() =~~= Toolset::spec_labels(self@.take(i as int))
                        + inner.take(j + 1).map_values(|r: ReqModel| spec_req_label(r)));
                }
                j = j + 1;
            }
            proof {
                let m = self@;
                assert(Toolset::spec_labels(m.take(i + 1)) =~= Toolset::spec_labels(
                    m.take(i as int),
                ) + m[i as int].1.map_values(|r: ReqModel| spec_req_label(r))) by {
                    m.lemma_flat_map_take_append(
                        |p: (Seq<char>, Seq<ReqModel>)| p.1.map_values(
                            |r: ReqModel| spec_req_label(r),
                        ),
                        i as int,
                    );
                }
                assert(m[i as int].1.take(m[i as int].1.len() as int) =~= m[i as int].1);
            }
            i = i + 1;
        }
        proof {
            assert(self@.take(self.versions.len() as int) =~= self@);
        }
        join(&labels, " ")
    }
}

/// A plugin's whole request list replaced (position kept), or appended.
pub open spec fn toolset_set(m: ToolsetModel, k: Seq<char>, reqs: Seq<ReqModel>) -> ToolsetModel {
    if has_key(m, k) {
        m.update(key_index(m, k), (k, reqs))
    } else {
        m.push((k, reqs))
    }
}

/// The requests a plugin's raw spec list stands for, in order.
pub open spec fn reqs_of_specs(k: Seq<char>, specs: Seq<Seq<char>>) -> Seq<ReqModel> {
    specs.map_values(|v: Seq<char>| spec_request(k, v))
}

/// The tool declarations of one fragment: plugin name to raw specs.
pub type FragTools = Seq<(Seq<char>, Seq<Seq<char>>)>;

/// One fragment applied to a toolset: each of its plugin entries
/// replaces that plugin's request list wholly.
pub open spec fn apply_tools(m: ToolsetModel, tools: FragTools) -> ToolsetModel {
    tools.fold_left(
        m,
        |m2: ToolsetModel, t: (Seq<char>, Seq<Seq<char>>)| toolset_set(m2, t.0, reqs_of_specs(t.0, t.1)),
    )
}

/// Fragments folded in order (least specific first): the last fragment
/// declaring a plugin owns its request list.
pub open spec fn spec_build(frags: Seq<FragTools>) -> ToolsetModel {
    frags.fold_left(
        Seq::<(Seq<char>, Seq<ReqModel>)>::empty(),
        |m: ToolsetModel, f: FragTools| apply_tools(m, f),
    )
}

/// The raw specs of the last declaration of `p` in one fragment, if any.
pub open spec fn tools_last_value(tools: FragTools, p: Seq<char>) -> Option<Seq<Seq<char>>>
    decreases tools.len(),
{
    if tools.len() == 0 {
        Option::None
    } else if tools.last().0 == p {
        Option::Some(tools.last().1)
    } else {
        tools_last_value(tools.drop_last(), p)
    }
}

/// The raw specs that the most specific fragment declaring `p` gives it.
pub open spec fn frags_last_value(frags: Seq<FragTools>, p: Seq<char>) -> Option<Seq<Seq<char>>>
    decreases frags.len(),
{
    if frags.len() == 0 {
        Option::None
    } else {
        match tools_last_value(frags.last(), p) {
            Option::Some(specs) => Option::Some(specs),
            Option::None => frags_last_value(frags.drop_last(), p),
        }
    }
}

/// Two key-wise equal maps agree on lookup structure.
proof fn lemma_key_index_congruence<V>(
    m1: Seq<(Seq<char>, V)>,
    m2: Seq<(Seq<char>, V)>,
    k: Seq<char>,
)
    requires
        m1.len() == m2.len(),
        forall|i: int| 0 <= i < m1.len() ==> (#[trigger] m1[i]).0 == m2[i].0,
    ensures
        has_key(m1, k) == has_key(m2, k),
        key_index(m1, k) == key_index(m2, k),
    decreases m1.len(),
{
    if m1.len() > 0 {
        assert(forall|i: int|
            0 <= i < m1.drop_first().len() ==> (#[trigger] m1.drop_first()[i]).0 == m1[i + 1].0
                && m2.drop_first()[i].0 == m2[i + 1].0);
        lemma_key_index_congruence(m1.drop_first(), m2.drop_first(), k);
        assert(has_key(m1, k) == has_key(m2, k)) by {
            if has_key(m1, k) {
                let i = choose|i: int| 0 <= i < m1.len() && m1[i].0 == k;
                assert(m2[i].0 == k);
            }
            if has_key(m2, k) {
                let i = choose|i: int| 0 <= i < m2.len() && m2[i].0 == k;
                assert(m1[i].0 == k);
            }
        }
    }
}

/// What one `toolset_set` does to `p`'s lookup.
proof fn lemma_toolset_set_value(m: ToolsetModel, k: Seq<char>, reqs: Seq<ReqModel>, p: Seq<char>)
    ensures
        k == p ==> has_key(toolset_set(m, k, reqs), p) && value_of(toolset_set(m, k, reqs), p)
            == reqs,
        k != p ==> has_key(toolset_set(m, k, reqs), p) == has_key(m, p) && (has_key(m, p)
            ==> value_of(toolset_set(m, k, reqs), p) == value_of(m, p)),
{
    let m2 = toolset_set(m, k, reqs);
    if has_key(m, k) {
        crate::kv::lemma_key_index(m, k);
        let i = key_index(m, k);
        assert(forall|j: int| 0 <= j < m2.len() ==> (#[trigger] m2[j]).0 == m[j].0);
        lemma_key_index_congruence(m2, m, p);
        if k == p {
            assert(m2[key_index(m2, p)].1 == reqs);
        } else {
            if has_key(m, p) {
                crate::kv::lemma_key_index(m, p);
                assert(key_index(m, p) != i);
                assert(m2[key_index(m2, p)].1 == m[key_index(m, p)].1);
            }
        }
    } else {
        if k == p {
            assert(has_key(m2, p)) by {
                assert(m2[m.len() as int].0 == p);
            }
            crate::kv::lemma_key_index(m2, p);
            assert(forall|j: int| 0 <= j < m.len() ==> (#[trigger] m[j]).0 != p);
            assert(m2[m.len() as int].0 == p);
            assert(key_index(m2, p) == m.len() as int) by {
                if key_index(m2, p) < m.len() {
                    assert(m[key_index(m2, p)].0 == p);
                }
            }
        } else {
            assert(has_key(m2, p) == has_key(m, p)) by {
                if has_key(m2, p) {
                    let j = choose|j: int| 0 <= j < m2.len() && m2[j].0 == p;
                    assert(j < m.len());
                    assert(m[j].0 == p);
                }
                if has_key(m, p) {
                    let j = choose|j: int| 0 <= j < m.len() && m[j].0 == p;
                    assert(m2[j].0 == p);
                }
            }
            if has_key(m, p) {
                crate::kv::lemma_key_index(m, p);
                crate::kv::lemma_key_index(m2, p);
                assert(key_index(m2, p) == key_index(m, p)) by {
                    lemma_key_index_congruence_push(m, (k, reqs), p);
                }
            }
        }
    }
}

/// Lookup of an existing key ignores a pushed pair with another key.
proof fn lemma_key_index_congruence_push<V>(m: Seq<(Seq<char>, V)>, e: (Seq<char>, V), k: Seq<char>)
    requires
        has_key(m, k),
    ensures
        key_index(m.push(e), k) == key_index(m, k),
    decreases m.len(),
{
    crate::kv::lemma_key_index(m, k);
    if m.len() > 0 && m[0].0 != k {
        assert(has_key(m.drop_first(), k)) by {
            let i = choose|i: int| 0 <= i < m.len() && m[i].0 == k;
            assert(m.drop_first()[i - 1].0 == k);
        }
        lemma_key_index_congruence_push(m.drop_first(), e, k);
        assert(m.push(e).drop_first() =~= m.drop_first().push(e));
    }
}

/// What applying one fragment does to `p`'s lookup.
proof fn lemma_apply_tools_value(m: ToolsetModel, tools: FragTools, p: Seq<char>)
    ensures
        match tools_last_value(tools, p) {
            Option::Some(specs) => has_key(apply_tools(m, tools), p) && value_of(
                apply_tools(m, tools),
                p,
            ) == reqs_of_specs(p, specs),
            Option::None => has_key(apply_tools(m, tools), p) == has_key(m, p) && (has_key(m, p)
                ==> value_of(apply_tools(m, tools), p) == value_of(m, p)),
        },
    decreases tools.len(),
{
    if tools.len() == 0 {
    } else {
        let front = tools.drop_last();
        let t = tools.last();
        lemma_apply_tools_value(m, front, p);
        assert(apply_tools(m, tools) == toolset_set(
            apply_tools(m, front),
            t.0,
            reqs_of_specs(t.0, t.1),
        ));
        lemma_toolset_set_value(apply_tools(m, front), t.0, reqs_of_specs(t.0, t.1), p);
    }
}

/// Precedence: after the fold, each plugin's request list is exactly the
/// one from the most specific (last applied) fragment that declares it —
/// a whole replacement, never a merge; a plugin no fragment declares is
/// absent.
pub proof fn lemma_precedence(frags: Seq<FragTools>, p: Seq<char>)
    ensures
        match frags_last_value(frags, p) {
            Option::Some(specs) => has_key(spec_build(frags), p) && value_of(
                spec_build(frags),
                p,
            ) == reqs_of_specs(p, specs),
            Option::None => !has_key(spec_build(frags), p),
        },
    decreases frags.len(),
{
    if frags.len() == 0 {
        assert(!has_key(spec_build(frags), p)) by {
            if has_key(spec_build(frags), p) {
                let i = choose|i: int|
                    0 <= i < spec_build(frags).len() && spec_build(frags)[i].0 == p;
            }
        }
    } else {
        let front = frags.drop_last();
        lemma_precedence(front, p);
        assert(spec_build(frags) == apply_tools(spec_build(front), frags.last()));
        lemma_apply_tools_value(spec_build(front), frags.last(), p);
    }
}

} // verus!
