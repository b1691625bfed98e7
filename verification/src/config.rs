//! Config fragments and their folding: environment variables, `PATH`
//! entries, aliases, the plugin registry, candidate config filenames and
//! the project root, all folded under the precedence rules.

use vstd::prelude::*;

use crate::kv::{has_key, key_index, remove_key, upsert, value_of};
use crate::plugins::PluginType;
use crate::settings::{Settings, SettingsPartial};
use crate::strutil::{str_eq, string_eq};
use crate::toolset::{
    apply_tools, reqs_of_specs, spec_build, toolset_set, FragTools, SourceModel, ToolSource,
    Toolset, ToolVersionRequest,
};

verus! {

/// An alias table: plugin name to alias/version pairs, insertion ordered.
pub type AliasMap = Vec<(String, Vec<(String, String)>)>;

/// The normalized data one config source contributes.
#[derive(Debug)]
pub struct ConfigFragment {
    /// Where this fragment came from.
    pub source: ToolSource,
    /// Environment assignments, in file order.
    pub env: Vec<(String, String)>,
    /// Environment removals.
    pub env_remove: Vec<String>,
    /// `PATH` directories, in file order.
    pub path_dirs: Vec<String>,
    /// Alias declarations: plugin name to alias/version pairs.
    pub aliases: Vec<(String, Vec<(String, String)>)>,
    /// Tool declarations: plugin name to raw version specs.
    pub tools: Vec<(String, Vec<String>)>,
    /// Settings overrides this source carries.
    pub settings: SettingsPartial,
}

/// Spec model of a [`ConfigFragment`].
#[verifier::ext_equal]
pub ghost struct FragModel {
    pub source: SourceModel,
    pub env: Seq<(Seq<char>, Seq<char>)>,
    pub env_remove: Seq<Seq<char>>,
    pub path_dirs: Seq<Seq<char>>,
    pub aliases: Seq<(Seq<char>, Seq<(Seq<char>, Seq<char>)>)>,
    pub tools: FragTools,
    pub settings: crate::settings::PartialModel,
}

impl View for ConfigFragment {
    type V = FragModel;

    open spec fn view(&self) -> FragModel {
        FragModel {
            source: self.source@,
            env: self.env.deep_view(),
            env_remove: self.env_remove.deep_view(),
            path_dirs: self.path_dirs.deep_view(),
            aliases: self.aliases.deep_view(),
            tools: self.tools.deep_view(),
            settings: self.settings@,
        }
    }
}

/// The path a source is identified by (empty for non-file sources).
pub open spec fn spec_source_path(s: SourceModel) -> Seq<char> {
    match s {
        SourceModel::ToolVersions { path } => path,
        SourceModel::RtxToml { path } => path,
        SourceModel::LegacyVersionFile { path } => path,
        SourceModel::Argument => Seq::empty(),
        SourceModel::Unknown => Seq::empty(),
    }
}

/// Replaces the first entry for `k`, or appends the pair.
fn kv_upsert(m: &mut Vec<(String, String)>, k: String, v: String)
    ensures
        final(m).deep_view() == upsert(old(m).deep_view(), k@, v@),
{
    let ghost mv = m.deep_view();
    let mut i: usize = 0;
    while i < m.len()
        invariant
            mv == m.deep_view(),
            mv == old(m).deep_view(),
            i <= m.len(),
            forall|j: int| 0 <= j < i ==> mv[j].0 != k@,
        decreases m.len() - i,
    {
        if string_eq(&m[i].0, &k) {
            proof {
                assert(mv[i as int].0 == k@);
                assert(has_key(mv, k@));
                crate::kv::lemma_key_index(mv, k@);
                assert(key_index(mv, k@) == i as int);
            }
            let _old = m.remove(i);
            m.insert(i, (k, v));
            proof {
                assert(m.deep_view() =~~= upsert(mv, k@, v@));
            }
            return ;
        }
        i = i + 1;
    }
    proof {
        assert(!has_key(mv, k@)) by {
            if has_key(mv, k@) {
                let j = choose|j: int| 0 <= j < mv.len() && mv[j].0 == k@;
                assert(mv[j].0 != k@);
            }
        }
    }
    m.push((k, v));
    proof {
        assert(m.deep_view() =~~= upsert(mv, k@, v@));
    }
}

/// Removes the first entry for `k`, if any.
fn kv_remove(m: &mut Vec<(String, String)>, k: &String)
    ensures
        final(m).deep_view() == remove_key(old(m).deep_view(), k@),
{
    let ghost mv = m.deep_view();
    let mut i: usize = 0;
    while i < m.len()
        invariant
            mv == m.deep_view(),
            mv == old(m).deep_view(),
            i <= m.len(),
            forall|j: int| 0 <= j < i ==> mv[j].0 != k@,
        decreases m.len() - i,
    {
        if string_eq(&m[i].0, k) {
            proof {
                assert(mv[i as int].0 == k@);
                assert(has_key(mv, k@));
                crate::kv::lemma_key_index(mv, k@);
                assert(key_index(mv, k@) == i as int);
            }
            let _old = m.remove(i);
            proof {
                assert(m.deep_view() =~~= remove_key(mv, k@));
            }
            return ;
        }
        i = i + 1;
    }
    proof {
        assert(!has_key(mv, k@)) by {
            if has_key(mv, k@) {
                let j = choose|j: int| 0 <= j < mv.len() && mv[j].0 == k@;
                assert(mv[j].0 != k@);
            }
        }
        assert(m.deep_view() =~~= remove_key(mv, k@));
    }
}

/// One fragment's assignments applied over `m`, in order.
pub open spec fn env_upserts(
    m: Seq<(Seq<char>, Seq<char>)>,
    pairs: Seq<(Seq<char>, Seq<char>)>,
) -> Seq<(Seq<char>, Seq<char>)> {
    pairs.fold_left(
        m,
        |m2: Seq<(Seq<char>, Seq<char>)>, p: (Seq<char>, Seq<char>)| upsert(m2, p.0, p.1),
    )
}

/// One fragment's removals applied over `m`, in order.
pub open spec fn env_removes(
    m: Seq<(Seq<char>, Seq<char>)>,
    keys: Seq<Seq<char>>,
) -> Seq<(Seq<char>, Seq<char>)> {
    keys.fold_left(m, |m2: Seq<(Seq<char>, Seq<char>)>, k: Seq<char>| remove_key(m2, k))
}

/// One fragment folded into the environment: its assignments override,
/// then its removals delete.
pub open spec fn apply_frag_env(
    m: Seq<(Seq<char>, Seq<char>)>,
    f: FragModel,
) -> Seq<(Seq<char>, Seq<char>)> {
    env_removes(env_upserts(m, f.env), f.env_remove)
}

/// The resolved environment of fragments in discovery order (most
/// specific first): fragments apply from the least specific up, so the
/// most specific assignment of a variable wins.
pub open spec fn spec_load_env(frags: Seq<FragModel>) -> Seq<(Seq<char>, Seq<char>)>
    decreases frags.len(),
{
    if frags.len() == 0 {
        Seq::empty()
    } else {
        apply_frag_env(spec_load_env(frags.drop_first()), frags[0])
    }
}

/// Which source contributed each variable, most specific winning.
pub open spec fn spec_load_env_sources(frags: Seq<FragModel>) -> Seq<(Seq<char>, Seq<char>)>
    decreases frags.len(),
{
    if frags.len() == 0 {
        Seq::empty()
    } else {
        let rest = spec_load_env_sources(frags.drop_first());
        frags[0].env.fold_left(
            rest,
            |m2: Seq<(Seq<char>, Seq<char>)>, p: (Seq<char>, Seq<char>)|
                upsert(m2, p.0, spec_source_path(frags[0].source)),
        )
    }
}

/// Folds the environment effects of all fragments (given in discovery
/// order, most specific first); also reports which source set each
/// variable.
pub fn load_env(frags: &Vec<ConfigFragment>) -> (r: (
    Vec<(String, String)>,
    Vec<(String, String)>,
))
    ensures
        r.0.deep_view() == spec_load_env(frags@.map_values(|f: ConfigFragment| f@)),
        r.1.deep_view() == spec_load_env_sources(frags@.map_values(|f: ConfigFragment| f@)),
{
    let ghost fm = frags@.map_values(|f: ConfigFragment| f@);
    let mut env: Vec<(String, String)> = Vec::new();
    let mut env_sources: Vec<(String, String)> = Vec::new();
    let mut i: usize = frags.len();
    proof {
        assert(fm.skip(frags.len() as int).len() == 0);
        assert(env.deep_view() =~~= spec_load_env(fm.skip(frags.len() as int)));
        assert(env_sources.deep_view() =~~= spec_load_env_sources(fm.skip(frags.len() as int)));
    }
    while i > 0
        invariant
            fm == frags@.map_values(|f: ConfigFragment| f@),
            i <= frags.len(),
            env.deep_view() == spec_load_env(fm.skip(i as int)),
            env_sources.deep_view() == spec_load_env_sources(fm.skip(i as int)),
        decreases i,
    {
        i = i - 1;
        let ghost f = fm[i as int];
        proof {
            assert(fm.skip(i as int)[0] == f);
            assert(fm.skip(i as int).drop_first() =~= fm.skip(i as int + 1));
        }
        let source_path = source_path_exec(&frags[i].source);
        let ghost base = env.deep_view();
        let ghost sbase = env_sources.deep_view();
        let mut j: usize = 0;
        proof {
            assert(f.env.take(0) =~= Seq::<(Seq<char>, Seq<char>)>::empty());
        }
        while j < frags[i].env.len()
            invariant
                fm == frags@.map_values(|f2: ConfigFragment| f2@),
                i < frags.len(),
                f == fm[i as int],
                j <= frags[i as int].env.len(),
                source_path@ == spec_source_path(f.source),
                env.deep_view() == env_upserts(base, f.env.take(j as int)),
                env_sources.deep_view() == f.env.take(j as int).fold_left(
                    sbase,
                    |m2: Seq<(Seq<char>, Seq<char>)>, p: (Seq<char>, Seq<char>)|
                        upsert(m2, p.0, spec_source_path(f.source)),
                ),
            decreases frags[i as int].env.len() - j,
        {
            let k = frags[i].env[j].0.clone();
            let v = frags[i].env[j].1.clone();
            proof {
                assert(f.env[j as int] == (k@, v@));
                assert(f.env.take(j + 1).drop_last() =~= f.env.take(j as int));
                assert(f.env.take(j + 1).last() == f.env[j as int]);
            }
            kv_upsert(&mut env, k.clone(), v);
            kv_upsert(&mut env_sources, k, source_path.clone());
            j = j + 1;
        }
        proof {
            assert(f.env.take(frags[i as int].env.len() as int) =~= f.env);
        }
        let ghost mid = env.deep_view();
        let mut t: usize = 0;
        proof {
            assert(f.env_remove.take(0) =~= Seq::<Seq<char>>::empty());
        }
        while t < frags[i].env_remove.len()
            invariant
                fm == frags@.map_values(|f2: ConfigFragment| f2@),
                i < frags.len(),
                f == fm[i as int],
                t <= frags[i as int].env_remove.len(),
                env.deep_view() == env_removes(mid, f.env_remove.take(t as int)),
            decreases frags[i as int].env_remove.len() - t,
        {
            proof {
                assert(f.env_remove[t as int] == frags[i as int].env_remove[t as int]@);
                assert(f.env_remove.take(t + 1).drop_last() =~= f.env_remove.take(t as int));
                assert(f.env_remove.take(t + 1).last() == f.env_remove[t as int]);
            }
            kv_remove(&mut env, &frags[i].env_remove[t]);
            t = t + 1;
        }
        proof {
            assert(f.env_remove.take(frags[i as int].env_remove.len() as int) =~= f.env_remove);
        }
    }
    proof {
        assert(fm.skip(0) =~= fm);
    }
    (env, env_sources)
}

/// The identifying path of a source.
pub fn source_path_exec(s: &ToolSource) -> (r: String)
    ensures
        r@ == spec_source_path(s@),
{
    match s {
        ToolSource::ToolVersions(p) => p.clone(),
        ToolSource::RtxToml(p) => p.clone(),
        ToolSource::LegacyVersionFile(p) => p.clone(),
        ToolSource::Argument => String::new(),
        ToolSource::Unknown => String::new(),
    }
}

/// `PATH` directories of all fragments, most specific source's
/// directories first.
pub open spec fn spec_load_path_dirs(frags: Seq<FragModel>) -> Seq<Seq<char>> {
    frags.flat_map(|f: FragModel| f.path_dirs)
}

/// Collects the `PATH` directories (fragments in discovery order, most
/// specific first, so the most specific directories come first).
pub fn load_path_dirs(frags: &Vec<ConfigFragment>) -> (r: Vec<String>)
    ensures
        r.deep_view() == spec_load_path_dirs(frags@.map_values(|f: ConfigFragment| f@)),
{
    let ghost fm = frags@.map_values(|f: ConfigFragment| f@);
    let mut r: Vec<String> = Vec::new();
    let mut i: usize = 0;
    proof {
        assert(fm.take(0) =~= Seq::<FragModel>::empty());
        assert(r.deep_view() =~~= spec_load_path_dirs(fm.take(0)));
    }
    while i < frags.len()
        invariant
            fm == frags@.map_values(|f: ConfigFragment| f@),
            i <= frags.len(),
            r.deep_view() == spec_load_path_dirs(fm.take(i as int)),
        decreases frags.len() - i,
    {
        let ghost f = fm[i as int];
        let mut j: usize = 0;
        while j < frags[i].path_dirs.len()
            invariant
                fm == frags@.map_values(|f2: ConfigFragment| f2@),
                i < frags.len(),
                f == fm[i as int],
                j <= frags[i as int].path_dirs.len(),
                r.deep_view() == spec_load_path_dirs(fm.take(i as int)) + f.path_dirs.take(
                    j as int,
                ),
            decreases frags[i as int].path_dirs.len() - j,
        {
            let ghost pref = r.deep_view();
            r.push(frags[i].path_dirs[j].clone());
            proof {
                assert(r.deep_view() =~~= pref.push(f.path_dirs[j as int]));
                assert(f.path_dirs.take(j + 1) =~= f.path_dirs.take(j as int).push(
                    f.path_dirs[j as int],
                ));
                assert(r.deep_view() =~~= spec_load_path_dirs(fm.take(i as int)) + f.path_dirs.take(
                    j + 1,
                ));
            }
            j = j + 1;
        }
        proof {
            assert(f.path_dirs.take(frags[i as int].path_dirs.len() as int) =~= f.path_dirs);
            fm.lemma_flat_map_take_append(|f2: FragModel| f2.path_dirs, i as int);
            assert(r.deep_view() =~~= spec_load_path_dirs(fm.take(i as int + 1)));
        }
        i = i + 1;
    }
    proof {
        assert(fm.take(frags.len() as int) =~= fm);
    }
    r
}

/// Builds the toolset from fragments in fold order (least specific
/// first): each fragment's plugin entries replace that plugin's request
/// list wholly, so the most specific fragment wins per plugin.  A
/// command-line override is one more fragment, applied after all
/// file-discovered ones.
pub fn build_toolset(frags: &Vec<ConfigFragment>) -> (ts: Toolset)
    ensures
        ts@ == spec_build(frags@.map_values(|f: ConfigFragment| f@.tools)),
{
    let ghost fm = frags@.map_values(|f: ConfigFragment| f@.tools);
    let mut ts = Toolset::new(ToolSource::Unknown);
    let mut i: usize = 0;
    proof {
        assert(fm.take(0) =~= Seq::<FragTools>::empty());
    }
    while i < frags.len()
        invariant
            fm == frags@.map_values(|f: ConfigFragment| f@.tools),
            i <= frags.len(),
            ts@ == spec_build(fm.take(i as int)),
        decreases frags.len() - i,
    {
        let ghost ft = fm[i as int];
        let ghost outer = ts@;
        let mut j: usize = 0;
        proof {
            assert(ft.take(0) =~= Seq::<(Seq<char>, Seq<Seq<char>>)>::empty());
        }
        while j < frags[i].tools.len()
            invariant
                fm == frags@.map_values(|f: ConfigFragment| f@.tools),
                i < frags.len(),
                ft == fm[i as int],
                j <= frags[i as int].tools.len(),
                ts@ == apply_tools(outer, ft.take(j as int)),
            decreases frags[i as int].tools.len() - j,
        {
            let plugin = frags[i].tools[j].0.clone();
            let specs = &frags[i].tools[j].1;
            let mut reqs: Vec<ToolVersionRequest> = Vec::new();
            let mut t: usize = 0;
            proof {
                assert(reqs@.map_values(|r: ToolVersionRequest| r@) =~= reqs_of_specs(
                    plugin@,
                    ft[j as int].1.take(0),
                ));
            }
            while t < specs.len()
                invariant
                    fm == frags@.map_values(|f: ConfigFragment| f@.tools),
                    i < frags.len(),
                    j < frags[i as int].tools.len(),
                    ft == fm[i as int],
                    specs == &frags[i as int].tools[j as int].1,
                    plugin@ == ft[j as int].0,
                    t <= specs.len(),
                    specs.deep_view() == ft[j as int].1,
                    reqs@.map_values(|r: ToolVersionRequest| r@) == reqs_of_specs(
                        plugin@,
                        ft[j as int].1.take(t as int),
                    ),
                decreases specs.len() - t,
            {
                let ghost pref = reqs@.map_values(|r: ToolVersionRequest| r@);
                let req = ToolVersionRequest::new(plugin.clone(), specs[t].as_str());
                reqs.push(req);
                proof {
                    let sv = ft[j as int].1;
                    assert(reqs@.map_values(|r: ToolVersionRequest| r@) =~= pref.push(
                        crate::toolset::spec_request(plugin@, sv[t as int]),
                    ));
                    assert(sv.take(t + 1) =~= sv.take(t as int).push(sv[t as int]));
                    assert(reqs_of_specs(plugin@, sv.take(t + 1)) =~= reqs_of_specs(
                        plugin@,
                        sv.take(t as int),
                    ).push(crate::toolset::spec_request(plugin@, sv[t as int])));
                }
                t = t + 1;
            }
            proof {
                assert(ft[j as int].1.take(specs.len() as int) =~= ft[j as int].1);
            }
            let src = frags[i].source.duplicate();
            ts.set_versions(&plugin, reqs, src);
            proof {
                assert(ft.take(j + 1).drop_last() =~= ft.take(j as int));
                assert(ft.take(j + 1).last() == ft[j as int]);
            }
            j = j + 1;
        }
        proof {
            assert(ft.take(frags[i as int].tools.len() as int) =~= ft);
            assert(fm.take(i + 1).drop_last() =~= fm.take(i as int));
            assert(fm.take(i + 1).last() == ft);
        }
        i = i + 1;
    }
    proof {
        assert(fm.take(frags.len() as int) =~= fm);
    }
    ts
}


/// Spec model of an alias table.
pub type AliasModel = Seq<(Seq<char>, Seq<(Seq<char>, Seq<char>)>)>;

/// One alias declaration filed: the plugin's inner table gets the pair
/// (replacing an equal alias key), a new plugin is appended.
pub open spec fn spec_alias_put(am: AliasModel, p: Seq<char>, f: Seq<char>, t: Seq<char>) -> AliasModel {
    if has_key(am, p) {
        let i = key_index(am, p);
        am.update(i, (p, upsert(am[i].1, f, t)))
    } else {
        am.push((p, seq![(f, t)]))
    }
}

/// A plugin's alias pairs filed in order.
pub open spec fn alias_add_pairs(am: AliasModel, p: Seq<char>, pairs: Seq<(Seq<char>, Seq<char>)>) -> AliasModel {
    pairs.fold_left(am, |am2: AliasModel, pr: (Seq<char>, Seq<char>)| spec_alias_put(am2, p, pr.0, pr.1))
}

/// One source's alias declarations filed in order.
pub open spec fn alias_add_table(am: AliasModel, entries: AliasModel) -> AliasModel {
    entries.fold_left(am, |am2: AliasModel, e: (Seq<char>, Seq<(Seq<char>, Seq<char>)>)| alias_add_pairs(am2, e.0, e.1))
}

/// The config-declared aliases of all fragments, folded in discovery
/// order; a later declaration of the same alias replaces the earlier.
pub open spec fn spec_load_aliases(frags: Seq<FragModel>) -> AliasModel {
    frags.fold_left(Seq::<(Seq<char>, Seq<(Seq<char>, Seq<char>)>)>::empty(), |am: AliasModel, f: FragModel| alias_add_table(am, f.aliases))
}

/// Files one alias declaration.
fn alias_put(am: &mut AliasMap, plugin: &String, from: String, to: String)
    ensures
        final(am).deep_view() == spec_alias_put(old(am).deep_view(), plugin@, from@, to@),
{
    let ghost mv = am.deep_view();
    let mut i: usize = 0;
    while i < am.len()
        invariant
            mv == am.deep_view(),
            mv == old(am).deep_view(),
            i <= am.len(),
            forall|j: int| 0 <= j < i ==> mv[j].0 != plugin@,
        decreases am.len() - i,
    {
        if string_eq(&am[i].0, plugin) {
            proof {
                assert(mv[i as int].0 == plugin@);
                assert(has_key(mv, plugin@));
                crate::kv::lemma_key_index(mv, plugin@);
                assert(key_index(mv, plugin@) == i as int);
            }
            let pair = am.remove(i);
            let (k, mut inner) = pair;
            kv_upsert(&mut inner, from, to);
            am.insert(i, (k, inner));
            proof {
                assert(am.deep_view() =~~= spec_alias_put(mv, plugin@, from@, to@));
            }
            return ;
        }
        i = i + 1;
    }
    proof {
        assert(!has_key(mv, plugin@)) by {
            if has_key(mv, plugin@) {
                let j = choose|j: int| 0 <= j < mv.len() && mv[j].0 == plugin@;
                assert(mv[j].0 != plugin@);
            }
        }
    }
    let mut inner: Vec<(String, String)> = Vec::new();
    inner.push((from, to));
    am.push((plugin.clone(), inner));
    proof {
        assert(am.deep_view() =~~= spec_alias_put(mv, plugin@, from@, to@));
    }
}

/// Files a whole alias table (plugin by plugin, pair by pair).
fn alias_add_table_exec(am: &mut AliasMap, entries: &AliasMap)
    ensures
        final(am).deep_view() == alias_add_table(old(am).deep_view(), entries.deep_view()),
{
    let ghost ev = entries.deep_view();
    let ghost base = am.deep_view();
    let mut i: usize = 0;
    proof {
        assert(ev.take(0) =~= Seq::<(Seq<char>, Seq<(Seq<char>, Seq<char>)>)>::empty());
    }
    while i < entries.len()
        invariant
            ev == entries.deep_view(),
            base == old(am).deep_view(),
            i <= entries.len(),
            am.deep_view() == alias_add_table(base, ev.take(i as int)),
        decreases entries.len() - i,
    {
        let ghost outer = am.deep_view();
        let ghost e = ev[i as int];
        let plugin = entries[i].0.clone();
        let pairs = &entries[i].1;
        let mut j: usize = 0;
        proof {
            assert(e.1.take(0) =~= Seq::<(Seq<char>, Seq<char>)>::empty());
        }
        while j < pairs.len()
            invariant
                ev == entries.deep_view(),
                i < entries.len(),
                e == ev[i as int],
                pairs == &entries[i as int].1,
                pairs.deep_view() == e.1,
                plugin@ == e.0,
                j <= pairs.len(),
                am.deep_view() == alias_add_pairs(outer, e.0, e.1.take(j as int)),
            decreases pairs.len() - j,
        {
            proof {
                assert(e.1.take(j + 1).drop_last() =~= e.1.take(j as int));
                assert(e.1.take(j + 1).last() == e.1[j as int]);
                assert(e.1[j as int] == (pairs[j as int].0@, pairs[j as int].1@));
            }
            alias_put(am, &plugin, pairs[j].0.clone(), pairs[j].1.clone());
            j = j + 1;
        }
        proof {
            assert(e.1.take(pairs.len() as int) =~= e.1);
            assert(ev.take(i + 1).drop_last() =~= ev.take(i as int));
            assert(ev.take(i + 1).last() == e);
        }
        i = i + 1;
    }
    proof {
        assert(ev.take(entries.len() as int) =~= ev);
    }
}

/// Folds the alias declarations of all fragments (discovery order).
pub fn load_aliases(frags: &Vec<ConfigFragment>) -> (r: AliasMap)
    ensures
        r.deep_view() == spec_load_aliases(frags@.map_values(|f: ConfigFragment| f@)),
{
    let ghost fm = frags@.map_values(|f: ConfigFragment| f@);
    let mut am: AliasMap = Vec::new();
    let mut i: usize = 0;
    proof {
        assert(fm.take(0) =~= Seq::<FragModel>::empty());
    }
    while i < frags.len()
        invariant
            fm == frags@.map_values(|f: ConfigFragment| f@),
            i <= frags.len(),
            am.deep_view() == spec_load_aliases(fm.take(i as int)),
        decreases frags.len() - i,
    {
        alias_add_table_exec(&mut am, &frags[i].aliases);
        proof {
            assert(fm.take(i + 1).drop_last() =~= fm.take(i as int));
            assert(fm.take(i + 1).last() == fm[i as int]);
        }
        i = i + 1;
    }
    proof {
        assert(fm.take(frags.len() as int) =~= fm);
    }
    am
}

/// The full alias map: config-declared aliases, with plugin-intrinsic
/// aliases filed underneath (the config declarations are re-applied
/// last, so they win for an equal alias key).
pub fn load_all_aliases(config_aliases: &AliasMap, plugin_tables: &AliasMap) -> (r: AliasMap)
    ensures
        r.deep_view() == alias_add_table(
            alias_add_table(config_aliases.deep_view(), plugin_tables.deep_view()),
            config_aliases.deep_view(),
        ),
{
    let mut am = clone_alias_map(config_aliases);
    alias_add_table_exec(&mut am, plugin_tables);
    alias_add_table_exec(&mut am, config_aliases);
    am
}

/// Copies a pair list.
fn clone_pairs(v: &Vec<(String, String)>) -> (r: Vec<(String, String)>)
    ensures
        r.deep_view() == v.deep_view(),
{
    let mut r: Vec<(String, String)> = Vec::new();
    let mut i: usize = 0;
    while i < v.len()
        invariant
            i <= v.len(),
            r@.len() == i,
            forall|j: int| 0 <= j < i ==> r.deep_view()[j] == v.deep_view()[j],
        decreases v.len() - i,
    {
        r.push((v[i].0.clone(), v[i].1.clone()));
        i = i + 1;
    }
    proof {
        assert(r.deep_view() =~~= v.deep_view());
    }
    r
}

/// Copies an alias table.
fn clone_alias_map(v: &AliasMap) -> (r: AliasMap)
    ensures
        r.deep_view() == v.deep_view(),
{
    let mut r: AliasMap = Vec::new();
    let mut i: usize = 0;
    while i < v.len()
        invariant
            i <= v.len(),
            r@.len() == i,
            forall|j: int| 0 <= j < i ==> r.deep_view()[j] == v.deep_view()[j],
        decreases v.len() - i,
    {
        r.push((v[i].0.clone(), clone_pairs(&v[i].1)));
        i = i + 1;
    }
    proof {
        assert(r.deep_view() =~~= v.deep_view());
    }
    r
}

/// Looks a key up in a pair list (first entry wins).
pub fn kv_get<'a>(m: &'a Vec<(String, String)>, k: &str) -> (r: Option<&'a String>)
    ensures
        match r {
            Option::Some(val) => has_key(m.deep_view(), k@) && val@ == value_of(m.deep_view(), k@),
            Option::None => !has_key(m.deep_view(), k@),
        },
{
    let ghost mv = m.deep_view();
    let mut i: usize = 0;
    while i < m.len()
        invariant
            mv == m.deep_view(),
            i <= m.len(),
            forall|j: int| 0 <= j < i ==> mv[j].0 != k@,
        decreases m.len() - i,
    {
        if str_eq(m[i].0.as_str(), k) {
            proof {
                assert(mv[i as int].0 == k@);
                assert(has_key(mv, k@));
                crate::kv::lemma_key_index(mv, k@);
                assert(key_index(mv, k@) == i as int);
            }
            return Some(&m[i].1);
        }
        i = i + 1;
    }
    proof {
        if has_key(mv, k@) {
            let j = choose|j: int| 0 <= j < mv.len() && mv[j].0 == k@;
            assert(mv[j].0 != k@);
        }
    }
    None
}

/// What alias resolution yields: the config-declared alias for the
/// plugin if one matches, else the plugin's intrinsic alias, else the
/// symbol itself (treated as a literal version).
pub open spec fn spec_resolve_alias(
    am: AliasModel,
    intrinsic: Seq<(Seq<char>, Seq<char>)>,
    p: Seq<char>,
    v: Seq<char>,
) -> Seq<char> {
    if has_key(am, p) && has_key(value_of(am, p), v) {
        value_of(value_of(am, p), v)
    } else if has_key(intrinsic, v) {
        value_of(intrinsic, v)
    } else {
        v
    }
}

/// Resolves a symbolic version through the alias tables: exact,
/// case-sensitive matches only.
pub fn resolve_alias(aliases: &AliasMap, intrinsic: &Vec<(String, String)>, plugin: &str, v: &str) -> (r: String)
    ensures
        r@ == spec_resolve_alias(aliases.deep_view(), intrinsic.deep_view(), plugin@, v@),
{
    let ghost am = aliases.deep_view();
    let mut i: usize = 0;
    while i < aliases.len()
        invariant
            am == aliases.deep_view(),
            i <= aliases.len(),
            forall|j: int| 0 <= j < i ==> am[j].0 != plugin@,
        decreases aliases.len() - i,
    {
        if str_eq(aliases[i].0.as_str(), plugin) {
            proof {
                assert(am[i as int].0 == plugin@);
                assert(has_key(am, plugin@));
                crate::kv::lemma_key_index(am, plugin@);
                assert(key_index(am, plugin@) == i as int);
            }
            match kv_get(&aliases[i].1, v) {
                Some(val) => {
                    return val.clone();
                },
                None => {
                    return fallback_alias(intrinsic, v);
                },
            }
        }
        i = i + 1;
    }
    proof {
        if has_key(am, plugin@) {
            let j = choose|j: int| 0 <= j < am.len() && am[j].0 == plugin@;
            assert(am[j].0 != plugin@);
        }
    }
    fallback_alias(intrinsic, v)
}

/// The intrinsic-table or literal fallback of alias resolution.
fn fallback_alias(intrinsic: &Vec<(String, String)>, v: &str) -> (r: String)
    ensures
        r@ == if has_key(intrinsic.deep_view(), v@) {
            value_of(intrinsic.deep_view(), v@)
        } else {
            v@
        },
{
    match kv_get(intrinsic, v) {
        Some(val) => val.clone(),
        None => String::from_str(v),
    }
}

/// The plugin registry: the compiled-in core plugin, then the discovered
/// external plugins (an external plugin shadows a core one of the same
/// name), with disabled tools removed.
pub open spec fn spec_load_plugins(disable: Seq<Seq<char>>, external: Seq<Seq<char>>) -> Seq<(Seq<char>, PluginType)> {
    let core = seq![("node"@, PluginType::Core)];
    let with_ext = external.fold_left(core, |m: Seq<(Seq<char>, PluginType)>, e: Seq<char>| upsert(m, e, PluginType::External));
    disable.fold_left(with_ext, |m: Seq<(Seq<char>, PluginType)>, d: Seq<char>| remove_key(m, d))
}

/// Builds the plugin registry from the settings and the discovered
/// external plugin names.
pub fn load_plugins(settings: &Settings, external: &Vec<String>) -> (r: Vec<(String, PluginType)>)
    ensures
        r@.map_values(|p: (String, PluginType)| (p.0@, p.1)) == spec_load_plugins(
            settings.disable_tools.deep_view(),
            external.deep_view(),
        ),
{
    let ghost core = seq![("node"@, PluginType::Core)];
    let mut r: Vec<(String, PluginType)> = Vec::new();
    r.push((String::from_str("node"), PluginType::Core));
    proof {
        assert(r@.map_values(|p: (String, PluginType)| (p.0@, p.1)) =~= core);
        assert(external.deep_view().take(0) =~= Seq::<Seq<char>>::empty());
    }
    let ghost ev = external.deep_view();
    let mut i: usize = 0;
    while i < external.len()
        invariant
            ev == external.deep_view(),
            i <= external.len(),
            r@.map_values(|p: (String, PluginType)| (p.0@, p.1)) == ev.take(i as int).fold_left(
                core,
                |m: Seq<(Seq<char>, PluginType)>, e: Seq<char>| upsert(m, e, PluginType::External),
            ),
        decreases external.len() - i,
    {
        plugin_upsert(&mut r, &external[i], PluginType::External);
        proof {
            assert(ev.take(i + 1).drop_last() =~= ev.take(i as int));
            assert(ev.take(i + 1).last() == ev[i as int]);
        }
        i = i + 1;
    }
    proof {
        assert(ev.take(external.len() as int) =~= ev);
    }
    let ghost with_ext = r@.map_values(|p: (String, PluginType)| (p.0@, p.1));
    let ghost dv = settings.disable_tools.deep_view();
    let mut t: usize = 0;
    proof {
        assert(dv.take(0) =~= Seq::<Seq<char>>::empty());
    }
    while t < settings.disable_tools.len()
        invariant
            dv == settings.disable_tools.deep_view(),
            t <= settings.disable_tools.len(),
            r@.map_values(|p: (String, PluginType)| (p.0@, p.1)) == dv.take(t as int).fold_left(
                with_ext,
                |m: Seq<(Seq<char>, PluginType)>, d: Seq<char>| remove_key(m, d),
            ),
        decreases settings.disable_tools.len() - t,
    {
        plugin_remove(&mut r, &settings.disable_tools[t]);
        proof {
            assert(dv.take(t + 1).drop_last() =~= dv.take(t as int));
            assert(dv.take(t + 1).last() == dv[t as int]);
        }
        t = t + 1;
    }
    proof {
        assert(dv.take(settings.disable_tools.len() as int) =~= dv);
    }
    r
}

/// Replaces or appends one plugin registry entry.
fn plugin_upsert(m: &mut Vec<(String, PluginType)>, k: &String, t: PluginType)
    ensures
        final(m)@.map_values(|p: (String, PluginType)| (p.0@, p.1)) == upsert(
            old(m)@.map_values(|p: (String, PluginType)| (p.0@, p.1)),
            k@,
            t,
        ),
{
    let ghost mv = m@.map_values(|p: (String, PluginType)| (p.0@, p.1));
    let mut i: usize = 0;
    while i < m.len()
        invariant
            mv == m@.map_values(|p: (String, PluginType)| (p.0@, p.1)),
            mv == old(m)@.map_values(|p: (String, PluginType)| (p.0@, p.1)),
            i <= m.len(),
            forall|j: int| 0 <= j < i ==> mv[j].0 != k@,
        decreases m.len() - i,
    {
        if string_eq(&m[i].0, k) {
            proof {
                assert(mv[i as int].0 == k@);
                assert(has_key(mv, k@));
                crate::kv::lemma_key_index(mv, k@);
                assert(key_index(mv, k@) == i as int);
            }
            let _old = m.remove(i);
            m.insert(i, (k.clone(), t));
            proof {
                assert(m@.map_values(|p: (String, PluginType)| (p.0@, p.1)) =~~= upsert(mv, k@, t));
            }
            return ;
        }
        i = i + 1;
    }
    proof {
        assert(!has_key(mv, k@)) by {
            if has_key(mv, k@) {
                let j = choose|j: int| 0 <= j < mv.len() && mv[j].0 == k@;
                assert(mv[j].0 != k@);
            }
        }
    }
    m.push((k.clone(), t));
    proof {
        assert(m@.map_values(|p: (String, PluginType)| (p.0@, p.1)) =~~= upsert(mv, k@, t));
    }
}

/// Removes one plugin registry entry, if filed.
fn plugin_remove(m: &mut Vec<(String, PluginType)>, k: &String)
    ensures
        final(m)@.map_values(|p: (String, PluginType)| (p.0@, p.1)) == remove_key(
            old(m)@.map_values(|p: (String, PluginType)| (p.0@, p.1)),
            k@,
        ),
{
    let ghost mv = m@.map_values(|p: (String, PluginType)| (p.0@, p.1));
    let mut i: usize = 0;
    while i < m.len()
        invariant
            mv == m@.map_values(|p: (String, PluginType)| (p.0@, p.1)),
            mv == old(m)@.map_values(|p: (String, PluginType)| (p.0@, p.1)),
            i <= m.len(),
            forall|j: int| 0 <= j < i ==> mv[j].0 != k@,
        decreases m.len() - i,
    {
        if string_eq(&m[i].0, k) {
            proof {
                assert(mv[i as int].0 == k@);
                assert(has_key(mv, k@));
                crate::kv::lemma_key_index(mv, k@);
                assert(key_index(mv, k@) == i as int);
            }
            let _old = m.remove(i);
            proof {
                assert(m@.map_values(|p: (String, PluginType)| (p.0@, p.1)) =~~= remove_key(mv, k@));
            }
            return ;
        }
        i = i + 1;
    }
    proof {
        assert(!has_key(mv, k@)) by {
            if has_key(mv, k@) {
                let j = choose|j: int| 0 <= j < mv.len() && mv[j].0 == k@;
                assert(mv[j].0 != k@);
            }
        }
        assert(m@.map_values(|p: (String, PluginType)| (p.0@, p.1)) =~~= remove_key(mv, k@));
    }
}


/// One legacy filename claimed by a plugin: the filename's plugin list
/// gains the plugin (in order), a new filename is appended.
pub open spec fn spec_legacy_put(m: Seq<(Seq<char>, Seq<Seq<char>>)>, file: Seq<char>, plugin: Seq<char>) -> Seq<(Seq<char>, Seq<Seq<char>>)> {
    if has_key(m, file) {
        let i = key_index(m, file);
        m.update(i, (file, m[i].1.push(plugin)))
    } else {
        m.push((file, seq![plugin]))
    }
}

/// One plugin's legacy filenames filed.
pub open spec fn legacy_add_plugin(m: Seq<(Seq<char>, Seq<Seq<char>>)>, plugin: Seq<char>, files: Seq<Seq<char>>) -> Seq<(Seq<char>, Seq<Seq<char>>)> {
    files.fold_left(m, |m2: Seq<(Seq<char>, Seq<Seq<char>>)>, f: Seq<char>| spec_legacy_put(m2, f, plugin))
}

/// The legacy filename table: empty when the legacy-file setting is off;
/// otherwise each enabled plugin's filenames, each filename mapping to
/// the plugins that claim it.
pub open spec fn spec_load_legacy_files(
    legacy_on: bool,
    disabled: Seq<Seq<char>>,
    tables: Seq<(Seq<char>, Seq<Seq<char>>)>,
) -> Seq<(Seq<char>, Seq<Seq<char>>)>
    decreases tables.len(),
{
    if !legacy_on {
        Seq::empty()
    } else if tables.len() == 0 {
        Seq::empty()
    } else {
        let front = spec_load_legacy_files(legacy_on, disabled, tables.drop_last());
        if disabled.contains(tables.last().0) {
            front
        } else {
            legacy_add_plugin(front, tables.last().0, tables.last().1)
        }
    }
}

/// Groups the legacy filenames of the enabled plugins by filename.
/// `tables` pairs each plugin with the filenames it claims.
pub fn load_legacy_files(settings: &Settings, tables: &Vec<(String, Vec<String>)>) -> (r: Vec<(String, Vec<String>)>)
    ensures
        r.deep_view() == spec_load_legacy_files(
            settings.legacy_version_file,
            settings.legacy_version_file_disable_tools.deep_view(),
            tables.deep_view(),
        ),
{
    let ghost tv = tables.deep_view();
    let ghost dis = settings.legacy_version_file_disable_tools.deep_view();
    let mut r: Vec<(String, Vec<String>)> = Vec::new();
    if !settings.legacy_version_file {
        proof {
            assert(r.deep_view() =~~= spec_load_legacy_files(false, dis, tv));
        }
        return r;
    }
    let mut i: usize = 0;
    proof {
        assert(tv.take(0) =~= Seq::<(Seq<char>, Seq<Seq<char>>)>::empty());
        assert(r.deep_view() =~~= spec_load_legacy_files(true, dis, tv.take(0)));
    }
    while i < tables.len()
        invariant
            settings.legacy_version_file,
            tv == tables.deep_view(),
            dis == settings.legacy_version_file_disable_tools.deep_view(),
            i <= tables.len(),
            r.deep_view() == spec_load_legacy_files(true, dis, tv.take(i as int)),
        decreases tables.len() - i,
    {
        let ghost e = tv[i as int];
        let plugin = &tables[i].0;
        let disabled = contains_string(&settings.legacy_version_file_disable_tools, plugin);
        proof {
            assert(tv.take(i + 1).drop_last() =~= tv.take(i as int));
            assert(tv.take(i + 1).last() == e);
        }
        if !disabled {
            let ghost base = r.deep_view();
            let files = &tables[i].1;
            let mut j: usize = 0;
            proof {
                assert(e.1.take(0) =~= Seq::<Seq<char>>::empty());
            }
            while j < files.len()
                invariant
                    tv == tables.deep_view(),
                    i < tables.len(),
                    e == tv[i as int],
                    files == &tables[i as int].1,
                    files.deep_view() == e.1,
                    j <= files.len(),
                    r.deep_view() == legacy_add_plugin(base, e.0, e.1.take(j as int)),
                decreases files.len() - j,
            {
                proof {
                    assert(e.1.take(j + 1).drop_last() =~= e.1.take(j as int));
                    assert(e.1.take(j + 1).last() == e.1[j as int]);
                }
                legacy_put(&mut r, &files[j], &tables[i].0);
                j = j + 1;
            }
            proof {
                assert(e.1.take(files.len() as int) =~= e.1);
            }
        }
        i = i + 1;
    }
    proof {
        assert(tv.take(tables.len() as int) =~= tv);
    }
    r
}

/// Files one filename/plugin claim.
fn legacy_put(m: &mut Vec<(String, Vec<String>)>, file: &String, plugin: &String)
    ensures
        final(m).deep_view() == spec_legacy_put(old(m).deep_view(), file@, plugin@),
{
    let ghost mv = m.deep_view();
    let mut i: usize = 0;
    while i < m.len()
        invariant
            mv == m.deep_view(),
            mv == old(m).deep_view(),
            i <= m.len(),
            forall|j: int| 0 <= j < i ==> mv[j].0 != file@,
        decreases m.len() - i,
    {
        if string_eq(&m[i].0, file) {
            proof {
                assert(mv[i as int].0 == file@);
                assert(has_key(mv, file@));
                crate::kv::lemma_key_index(mv, file@);
                assert(key_index(mv, file@) == i as int);
            }
            let pair = m.remove(i);
            let (k, mut inner) = pair;
            inner.push(plugin.clone());
            m.insert(i, (k, inner));
            proof {
                assert(m.deep_view() =~~= spec_legacy_put(mv, file@, plugin@));
            }
            return ;
        }
        i = i + 1;
    }
    proof {
        assert(!has_key(mv, file@)) by {
            if has_key(mv, file@) {
                let j = choose|j: int| 0 <= j < mv.len() && mv[j].0 == file@;
                assert(mv[j].0 != file@);
            }
        }
    }
    let mut inner: Vec<String> = Vec::new();
    inner.push(plugin.clone());
    m.push((file.clone(), inner));
    proof {
        assert(m.deep_view() =~~= spec_legacy_put(mv, file@, plugin@));
    }
}

/// Is `k` one of the strings of `v`?
pub fn contains_string(v: &Vec<String>, k: &String) -> (r: bool)
    ensures
        r == v.deep_view().contains(k@),
{
    let mut i: usize = 0;
    while i < v.len()
        invariant
            i <= v.len(),
            forall|j: int| 0 <= j < i ==> v.deep_view()[j] != k@,
        decreases v.len() - i,
    {
        if string_eq(&v[i], k) {
            proof {
                assert(v.deep_view()[i as int] == k@);
            }
            return true;
        }
        i = i + 1;
    }
    proof {
        if v.deep_view().contains(k@) {
            let j = choose|j: int| 0 <= j < v.deep_view().len() && v.deep_view()[j] == k@;
            assert(v.deep_view()[j] != k@);
        }
    }
    false
}

/// The reserved parts of the process environment that steer discovery.
#[derive(Debug)]
pub struct EnvInfo {
    /// The flat tool-versions filename to look for (`.tool-versions`).
    pub default_tool_versions_filename: String,
    /// The native config filename to look for (`.rtx.toml`).
    pub default_config_filename: String,
    /// The environment scope selected, if any.
    pub env_name: Option<String>,
    /// An explicit global config file path, if one is set.
    pub config_file: Option<String>,
    /// Whether the global flat file is disabled in favor of the native
    /// format.
    pub use_toml: bool,
}

/// Spec model of [`EnvInfo`].
#[verifier::ext_equal]
pub ghost struct EnvInfoModel {
    pub default_tool_versions_filename: Seq<char>,
    pub default_config_filename: Seq<char>,
    pub env_name: Option<Seq<char>>,
    pub config_file: Option<Seq<char>>,
    pub use_toml: bool,
}

impl View for EnvInfo {
    type V = EnvInfoModel;

    open spec fn view(&self) -> EnvInfoModel {
        EnvInfoModel {
            default_tool_versions_filename: self.default_tool_versions_filename@,
            default_config_filename: self.default_config_filename@,
            env_name: match self.env_name {
                Option::Some(ref e) => Option::Some(e@),
                Option::None => Option::None,
            },
            config_file: match self.config_file {
                Option::Some(ref p) => Option::Some(p@),
                Option::None => Option::None,
            },
            use_toml: self.use_toml,
        }
    }
}

/// The filenames discovery looks for, in order: the legacy filenames,
/// the flat and native config filenames, and (under the experimental
/// flag, for the stock native filename) the local and environment-scoped
/// variants.
pub open spec fn spec_config_filenames(
    experimental: bool,
    legacy: Seq<(Seq<char>, Seq<Seq<char>>)>,
    env: EnvInfoModel,
) -> Seq<Seq<char>> {
    let base = crate::kv::keys_of(legacy).push(env.default_tool_versions_filename).push(
        env.default_config_filename,
    );
    if experimental && env.default_config_filename == ".rtx.toml"@ {
        let with_local = base.push(".rtx.local.toml"@);
        match env.env_name {
            Option::Some(e) => with_local.push(".rtx."@ + e + ".toml"@).push(
                ".rtx."@ + e + ".local.toml"@,
            ),
            Option::None => with_local,
        }
    } else {
        base
    }
}

/// Lists the candidate config filenames for discovery.
pub fn load_config_filenames(
    settings: &Settings,
    legacy: &Vec<(String, Vec<String>)>,
    env: &EnvInfo,
) -> (r: Vec<String>)
    ensures
        r.deep_view() == spec_config_filenames(settings.experimental, legacy.deep_view(), env@),
{
    let ghost lv = legacy.deep_view();
    let mut r: Vec<String> = Vec::new();
    let mut i: usize = 0;
    proof {
        assert(r.deep_view() =~~= crate::kv::keys_of(lv.take(0)));
    }
    while i < legacy.len()
        invariant
            lv == legacy.deep_view(),
            i <= legacy.len(),
            r.deep_view() == crate::kv::keys_of(lv.take(i as int)),
        decreases legacy.len() - i,
    {
        let ghost pref = r.deep_view();
        r.push(legacy[i].0.clone());
        proof {
            assert(r.deep_view() =~~= pref.push(lv[i as int].0));
            assert(crate::kv::keys_of(lv.take(i + 1)) =~~= crate::kv::keys_of(lv.take(i as int)).push(lv[i as int].0));
        }
        i = i + 1;
    }
    proof {
        assert(lv.take(legacy.len() as int) =~= lv);
    }
    r.push(env.default_tool_versions_filename.clone());
    r.push(env.default_config_filename.clone());
    if settings.experimental && str_eq(env.default_config_filename.as_str(), ".rtx.toml") {
        r.push(String::from_str(".rtx.local.toml"));
        match &env.env_name {
            Some(e) => {
                r.push(String::from_str(".rtx.").concat(e.as_str()).concat(".toml"));
                r.push(String::from_str(".rtx.").concat(e.as_str()).concat(".local.toml"));
                proof {
                    assert(r.deep_view() =~~= spec_config_filenames(settings.experimental, lv, env@));
                }
            },
            None => {
                proof {
                    assert(r.deep_view() =~~= spec_config_filenames(settings.experimental, lv, env@));
                }
            },
        }
    } else {
        proof {
            assert(r.deep_view() =~~= spec_config_filenames(settings.experimental, lv, env@));
        }
    }
    r
}

/// The global native config path: the explicit override, or
/// `config.toml` under the user config directory.
pub open spec fn spec_global_config_path(env: EnvInfoModel, config_dir: Seq<char>) -> Seq<char> {
    match env.config_file {
        Option::Some(p) => p,
        Option::None => config_dir + "/config.toml"@,
    }
}

/// Computes the global native config path.
pub fn global_config_path(env: &EnvInfo, config_dir: &str) -> (r: String)
    ensures
        r@ == spec_global_config_path(env@, config_dir@),
{
    match &env.config_file {
        Some(p) => p.clone(),
        None => String::from_str(config_dir).concat("/config.toml"),
    }
}

/// The fixed global config files, appended after the project-local
/// matches: the home flat file (only without an explicit config path and
/// with the flat format enabled), then the global native file; each only
/// if it exists as a file.
pub open spec fn spec_global_config_files(
    env: EnvInfoModel,
    home: Seq<char>,
    config_dir: Seq<char>,
    home_file_exists: bool,
    global_file_exists: bool,
) -> Seq<Seq<char>> {
    let first: Seq<Seq<char>> = if env.config_file.is_none() && !env.use_toml && home_file_exists {
        seq![home + "/"@ + env.default_tool_versions_filename]
    } else {
        Seq::empty()
    };
    if global_file_exists {
        first.push(spec_global_config_path(env, config_dir))
    } else {
        first
    }
}

/// Lists the global config files.  Whether each candidate exists as a
/// file is the caller's knowledge.
pub fn global_config_files(
    env: &EnvInfo,
    home: &str,
    config_dir: &str,
    home_file_exists: bool,
    global_file_exists: bool,
) -> (r: Vec<String>)
    ensures
        r.deep_view() == spec_global_config_files(
            env@,
            home@,
            config_dir@,
            home_file_exists,
            global_file_exists,
        ),
{
    let mut r: Vec<String> = Vec::new();
    if env.config_file.is_none() && !env.use_toml && home_file_exists {
        r.push(
            String::from_str(home).concat("/").concat(env.default_tool_versions_filename.as_str()),
        );
    }
    if global_file_exists {
        r.push(global_config_path(env, config_dir));
    }
    proof {
        assert(r.deep_view() =~~= spec_global_config_files(
            env@,
            home@,
            config_dir@,
            home_file_exists,
            global_file_exists,
        ));
    }
    r
}

/// The paths with later duplicates dropped (the first occurrence keeps
/// its place).
pub open spec fn spec_dedup(v: Seq<Seq<char>>) -> Seq<Seq<char>>
    decreases v.len(),
{
    if v.len() == 0 {
        Seq::empty()
    } else if v.drop_last().contains(v.last()) {
        spec_dedup(v.drop_last())
    } else {
        spec_dedup(v.drop_last()).push(v.last())
    }
}

/// Deduplication keeps exactly the members.
pub proof fn lemma_dedup_contains(v: Seq<Seq<char>>, x: Seq<char>)
    ensures
        spec_dedup(v).contains(x) == v.contains(x),
    decreases v.len(),
{
    if v.len() > 0 {
        lemma_dedup_contains(v.drop_last(), x);
        assert(v.contains(x) == (v.drop_last().contains(x) || v.last() == x)) by {
            if v.contains(x) {
                let j = choose|j: int| 0 <= j < v.len() && v[j] == x;
                if j < v.len() - 1 {
                    assert(v.drop_last()[j] == x);
                }
            }
            if v.drop_last().contains(x) {
                let j = choose|j: int| 0 <= j < v.drop_last().len() && v.drop_last()[j] == x;
                assert(v[j] == x);
            }
        }
        if !v.drop_last().contains(v.last()) {
            assert(spec_dedup(v).contains(x) == (spec_dedup(v.drop_last()).contains(x) || v.last()
                == x)) by {
                let d = spec_dedup(v.drop_last());
                if spec_dedup(v).contains(x) {
                    let j = choose|j: int| 0 <= j < d.push(v.last()).len() && d.push(v.last())[j]
                        == x;
                    if j < d.len() {
                        assert(d[j] == x);
                    }
                }
                if d.contains(x) {
                    let j = choose|j: int| 0 <= j < d.len() && d[j] == x;
                    assert(d.push(v.last())[j] == x);
                }
                if v.last() == x {
                    assert(d.push(v.last())[d.len() as int] == x);
                }
            }
        }
    }
}

/// Drops later duplicates from a path list.
pub fn dedup_paths(v: &Vec<String>) -> (r: Vec<String>)
    ensures
        r.deep_view() == spec_dedup(v.deep_view()),
{
    let ghost vv = v.deep_view();
    let mut r: Vec<String> = Vec::new();
    let mut i: usize = 0;
    proof {
        assert(vv.take(0) =~= Seq::<Seq<char>>::empty());
        assert(r.deep_view() =~~= spec_dedup(vv.take(0)));
    }
    while i < v.len()
        invariant
            vv == v.deep_view(),
            i <= v.len(),
            r.deep_view() == spec_dedup(vv.take(i as int)),
        decreases v.len() - i,
    {
        let ghost pref = r.deep_view();
        let seen = contains_string(&r, &v[i]);
        proof {
            lemma_dedup_contains(vv.take(i as int), vv[i as int]);
            assert(vv.take(i + 1).drop_last() =~= vv.take(i as int));
            assert(vv.take(i + 1).last() == vv[i as int]);
        }
        if !seen {
            r.push(v[i].clone());
            proof {
                assert(r.deep_view() =~~= pref.push(vv[i as int]));
            }
        }
        i = i + 1;
    }
    proof {
        assert(vv.take(v.len() as int) =~= vv);
    }
    r
}

/// The directory part of a path: the text before the last slash (the
/// root stays `/`; a bare name has an empty parent; the root itself and
/// the empty path have none).
pub open spec fn spec_parent(p: Seq<char>) -> Option<Seq<char>> {
    if p == "/"@ || p.len() == 0 {
        Option::None
    } else {
        match spec_find_last_slash(p, p.len() as int - 1) {
            Option::None => Option::Some(Seq::empty()),
            Option::Some(i) => if i == 0 {
                Option::Some("/"@)
            } else {
                Option::Some(p.take(i))
            },
        }
    }
}

/// The last index at or before `from` holding a slash.
pub open spec fn spec_find_last_slash(p: Seq<char>, from: int) -> Option<int>
    decreases from + 1,
{
    if from < 0 || from >= p.len() {
        Option::None
    } else if p[from] == '/' {
        Option::Some(from)
    } else {
        spec_find_last_slash(p, from - 1)
    }
}

/// The directory part of a path.
pub fn parent_dir(p: &str) -> (r: Option<String>)
    ensures
        match r {
            Option::Some(d) => spec_parent(p@) == Option::Some(d@),
            Option::None => spec_parent(p@).is_none(),
        },
{
    let n: usize = p.unicode_len();
    if n == 0 || str_eq(p, "/") {
        return None;
    }
    let mut i: usize = n;
    while i > 0
        invariant
            n == p@.len(),
            n > 0,
            p@ != "/"@,
            i <= n,
            spec_find_last_slash(p@, n as int - 1) == spec_find_last_slash(p@, i as int - 1),
        decreases i,
    {
        if p.get_char(i - 1) == '/' {
            proof {
                assert(spec_find_last_slash(p@, i as int - 1) == Option::Some(i as int - 1));
            }
            if i - 1 == 0 {
                return Some(String::from_str("/"));
            }
            let d = String::from_str(p.substring_char(0, i - 1));
            proof {
                assert(d@ =~= p@.take(i as int - 1));
            }
            return Some(d);
        }
        i = i - 1;
    }
    proof {
        assert(spec_find_last_slash(p@, n as int - 1).is_none());
    }
    Some(String::new())
}

/// The project root: the directory of the first project-local config
/// source that is a flat or native config file — the global config file
/// is not a project file and is skipped.
pub open spec fn spec_project_root(frags: Seq<FragModel>, global_path: Seq<char>) -> Option<Seq<char>>
    decreases frags.len(),
{
    if frags.len() == 0 {
        Option::None
    } else {
        let f = frags[0];
        let is_project = match f.source {
            SourceModel::ToolVersions { path } => path != global_path,
            SourceModel::RtxToml { path } => path != global_path,
            _ => false,
        };
        if is_project {
            spec_parent(spec_source_path(f.source))
        } else {
            spec_project_root(frags.drop_first(), global_path)
        }
    }
}

/// Finds the project root among the fragments (discovery order).
pub fn get_project_root(frags: &Vec<ConfigFragment>, global_path: &str) -> (r: Option<String>)
    ensures
        match r {
            Option::Some(d) => spec_project_root(
                frags@.map_values(|f: ConfigFragment| f@),
                global_path@,
            ) == Option::Some(d@),
            Option::None => spec_project_root(
                frags@.map_values(|f: ConfigFragment| f@),
                global_path@,
            ).is_none(),
        },
{
    let ghost fm = frags@.map_values(|f: ConfigFragment| f@);
    let mut i: usize = 0;
    proof {
        assert(fm.skip(0) =~= fm);
    }
    while i < frags.len()
        invariant
            fm == frags@.map_values(|f: ConfigFragment| f@),
            i <= frags.len(),
            spec_project_root(fm, global_path@) == spec_project_root(
                fm.skip(i as int),
                global_path@,
            ),
        decreases frags.len() - i,
    {
        proof {
            assert(fm.skip(i as int)[0] == fm[i as int]);
            assert(fm.skip(i as int).drop_first() =~= fm.skip(i as int + 1));
        }
        let is_project = match &frags[i].source {
            ToolSource::ToolVersions(p) => !str_eq(p.as_str(), global_path),
            ToolSource::RtxToml(p) => !str_eq(p.as_str(), global_path),
            _ => false,
        };
        if is_project {
            let sp = source_path_exec(&frags[i].source);
            return parent_dir(sp.as_str());
        }
        i = i + 1;
    }
    proof {
        assert(fm.skip(i as int).len() == 0);
    }
    None
}


/// The aggregated configuration of one run.
#[derive(Debug)]
pub struct Config {
    /// The resolved settings snapshot.
    pub settings: Settings,
    /// The folded environment assignments.
    pub env: Vec<(String, String)>,
    /// Which source path set each variable.
    pub env_sources: Vec<(String, String)>,
    /// The folded `PATH` directories, most specific first.
    pub path_dirs: Vec<String>,
    /// The config-declared aliases.
    pub aliases: AliasMap,
    /// The nearest project directory, if any.
    pub project_root: Option<String>,
    /// Whether the shell-hook fast path may skip resolution.
    pub should_exit_early: bool,
}

impl Config {
    /// Folds parsed fragments (discovery order, most specific first)
    /// into the aggregated configuration.  Reading sources, parsing them
    /// and watching for changes happen before this step; this fold is a
    /// function of its inputs alone, so two runs over unchanged sources
    /// yield identical snapshots.
    pub fn from_fragments(
        settings: Settings,
        frags: &Vec<ConfigFragment>,
        global_path: &str,
        should_exit_early: bool,
    ) -> (c: Config)
        ensures
            c.settings@ == settings@,
            c.env.deep_view() == spec_load_env(frags@.map_values(|f: ConfigFragment| f@)),
            c.env_sources.deep_view() == spec_load_env_sources(
                frags@.map_values(|f: ConfigFragment| f@),
            ),
            c.path_dirs.deep_view() == spec_load_path_dirs(
                frags@.map_values(|f: ConfigFragment| f@),
            ),
            c.aliases.deep_view() == spec_load_aliases(frags@.map_values(|f: ConfigFragment| f@)),
            (match c.project_root {
                Option::Some(ref d) => spec_project_root(
                    frags@.map_values(|f: ConfigFragment| f@),
                    global_path@,
                ) == Option::Some(d@),
                Option::None => spec_project_root(
                    frags@.map_values(|f: ConfigFragment| f@),
                    global_path@,
                ).is_none(),
            }),
            c.should_exit_early == should_exit_early,
    {
        let (env, env_sources) = load_env(frags);
        let path_dirs = load_path_dirs(frags);
        let aliases = load_aliases(frags);
        let project_root = get_project_root(frags, global_path);
        Config { settings, env, env_sources, path_dirs, aliases, project_root, should_exit_early }
    }

    /// Resolves a symbolic version through the aliases (see
    /// [`resolve_alias`]).
    pub fn resolve_alias_for(&self, intrinsic: &Vec<(String, String)>, plugin: &str, v: &str) -> (r: String)
        ensures
            r@ == spec_resolve_alias(self.aliases.deep_view(), intrinsic.deep_view(), plugin@, v@),
    {
        resolve_alias(&self.aliases, intrinsic, plugin, v)
    }
}

/// Idempotence of the fold: the aggregated configuration is a function
/// of the fragment models alone, so two loads over unchanged sources
/// agree on every folded field.
pub proof fn lemma_load_idempotent(f1: Seq<FragModel>, f2: Seq<FragModel>, tools1: Seq<FragTools>, tools2: Seq<FragTools>)
    requires
        f1 == f2,
        tools1 == tools2,
    ensures
        spec_load_env(f1) == spec_load_env(f2),
        spec_load_env_sources(f1) == spec_load_env_sources(f2),
        spec_load_path_dirs(f1) == spec_load_path_dirs(f2),
        spec_load_aliases(f1) == spec_load_aliases(f2),
        spec_build(tools1) == spec_build(tools2),
{
}


/// The names of the discovered external plugins in the registry.
pub fn external_plugins(registry: &Vec<(String, PluginType)>) -> (r: Vec<String>)
    ensures
        r.deep_view() == registry@.map_values(|p: (String, PluginType)| (p.0@, p.1)).filter(
            |p: (Seq<char>, PluginType)| p.1 is External,
        ).map_values(|p: (Seq<char>, PluginType)| p.0),
{
    let ghost rv = registry@.map_values(|p: (String, PluginType)| (p.0@, p.1));
    let mut r: Vec<String> = Vec::new();
    let mut i: usize = 0;
    proof {
        reveal(Seq::filter);
        assert(rv.take(0) =~= Seq::<(Seq<char>, PluginType)>::empty());
        assert(r.deep_view() =~~= rv.take(0).filter(|p: (Seq<char>, PluginType)| p.1 is External)
            .map_values(|p: (Seq<char>, PluginType)| p.0));
    }
    while i < registry.len()
        invariant
            rv == registry@.map_values(|p: (String, PluginType)| (p.0@, p.1)),
            i <= registry.len(),
            r.deep_view() == rv.take(i as int).filter(
                |p: (Seq<char>, PluginType)| p.1 is External,
            ).map_values(|p: (Seq<char>, PluginType)| p.0),
        decreases registry.len() - i,
    {
        let ghost pref = r.deep_view();
        proof {
            reveal(Seq::filter);
            assert(rv.take(i + 1).drop_last() =~= rv.take(i as int));
            assert(rv.take(i + 1).last() == rv[i as int]);
        }
        if matches!(registry[i].1, PluginType::External) {
            r.push(registry[i].0.clone());
            proof {
                assert(r.deep_view() =~~= pref.push(rv[i as int].0));
                assert(rv.take(i + 1).filter(|p: (Seq<char>, PluginType)| p.1 is External)
                    =~= rv.take(i as int).filter(
                    |p: (Seq<char>, PluginType)| p.1 is External,
                ).push(rv[i as int]));
            }
        }
        i = i + 1;
    }
    proof {
        assert(rv.take(registry.len() as int) =~= rv);
    }
    r
}

} // verus!
