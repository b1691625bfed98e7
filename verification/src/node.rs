//! The node core plugin: its intrinsic aliases, its legacy version files
//! and their normalization, and the naming of its install artifacts.

use vstd::prelude::*;

use crate::lines::{spec_trim, trim};
use crate::toolset::PluginName;

verus! {

/// State every core plugin shares: its registry name.
#[derive(Debug)]
pub struct CorePlugin {
    pub name: PluginName,
}

impl CorePlugin {
    /// A core plugin named `name`.
    pub fn new(name: PluginName) -> (r: CorePlugin)
        ensures
            r.name@ == name@,
    {
        CorePlugin { name }
    }
}

/// The compiled-in node plugin.
#[derive(Debug)]
pub struct NodePlugin {
    pub core: CorePlugin,
}

/// The intrinsic alias table of the node plugin: each LTS codename, in
/// both spellings, and the bare `lts` alias.
pub open spec fn spec_node_aliases() -> Seq<(Seq<char>, Seq<char>)> {
    seq![
        ("lts/argon"@, "4"@),
        ("lts/boron"@, "6"@),
        ("lts/carbon"@, "8"@),
        ("lts/dubnium"@, "10"@),
        ("lts/erbium"@, "12"@),
        ("lts/fermium"@, "14"@),
        ("lts/gallium"@, "16"@),
        ("lts/hydrogen"@, "18"@),
        ("lts/iron"@, "20"@),
        ("lts-argon"@, "4"@),
        ("lts-boron"@, "6"@),
        ("lts-carbon"@, "8"@),
        ("lts-dubnium"@, "10"@),
        ("lts-erbium"@, "12"@),
        ("lts-fermium"@, "14"@),
        ("lts-gallium"@, "16"@),
        ("lts-hydrogen"@, "18"@),
        ("lts-iron"@, "20"@),
        ("lts"@, "20"@),
    ]
}

/// The legacy version-file content normalized: trimmed, a `v` prefix
/// stripped (the untrimmed text is kept when there is no such prefix, as
/// the file format always had it), and the sentinel `lts/*` rewritten to
/// the bare alias `lts`.
pub open spec fn spec_parse_legacy(body: Seq<char>) -> Seq<char> {
    let t = spec_trim(body);
    let base = if t.len() > 0 && t[0] == 'v' {
        t.drop_first()
    } else {
        body
    };
    spec_replace_lts(base)
}

/// Every occurrence of `lts/*` rewritten to `lts`.
pub open spec fn spec_replace_lts(s: Seq<char>) -> Seq<char>
    decreases s.len(),
{
    if s.len() < 5 {
        s
    } else if s.take(5) == "lts/*"@ {
        "lts"@ + spec_replace_lts(s.skip(5))
    } else {
        seq![s[0]] + spec_replace_lts(s.drop_first())
    }
}

/// Rewrites every `lts/*` in `s` to `lts`.
fn replace_lts(s: &str) -> (r: String)
    ensures
        r@ == spec_replace_lts(s@),
{
    let n: usize = s.unicode_len();
    let mut out = String::new();
    let mut i: usize = 0;
    proof {
        assert(s@.skip(0) =~= s@);
        assert(Seq::<char>::empty() + spec_replace_lts(s@) =~= spec_replace_lts(s@));
    }
    while i <= n && n - i >= 5
        invariant
            n == s@.len(),
            i <= n,
            spec_replace_lts(s@) == out@ + spec_replace_lts(s@.skip(i as int)),
        decreases n - i,
    {
        let ghost oldout = out@;
        let window = s.substring_char(i, i + 5);
        proof {
            assert(window@ =~= s@.skip(i as int).take(5));
        }
        if crate::strutil::str_eq(window, "lts/*") {
            out.append("lts");
            proof {
                assert(s@.skip(i as int).skip(5) =~= s@.skip(i + 5));
                assert(out@ + spec_replace_lts(s@.skip(i + 5)) =~= oldout + ("lts"@
                    + spec_replace_lts(s@.skip(i as int).skip(5))));
            }
            i = i + 5;
        } else {
            let one = s.substring_char(i, i + 1);
            out.append(one);
            proof {
                assert(one@ =~= seq![s@.skip(i as int)[0]]);
                assert(s@.skip(i as int).drop_first() =~= s@.skip(i + 1));
                assert(out@ + spec_replace_lts(s@.skip(i + 1)) =~= oldout + (seq![
                    s@.skip(i as int)[0],
                ] + spec_replace_lts(s@.skip(i as int).drop_first())));
            }
            i = i + 1;
        }
    }
    let tail = s.substring_char(i, n);
    out.append(tail);
    proof {
        assert(tail@ =~= s@.skip(i as int));
        assert(s@.skip(i as int).len() < 5);
        assert(spec_replace_lts(s@.skip(i as int)) == s@.skip(i as int));
    }
    out
}

impl NodePlugin {
    /// The node plugin under its registry name.
    pub fn new(name: PluginName) -> (r: NodePlugin)
        ensures
            r.core.name@ == name@,
    {
        NodePlugin { core: CorePlugin::new(name) }
    }

    /// This plugin's registry name.
    pub fn name(&self) -> (r: &PluginName)
        ensures
            r@ == self.core.name@,
    {
        &self.core.name
    }

    /// The plugin's intrinsic aliases: LTS codenames to major versions.
    pub fn get_aliases(&self) -> (r: Vec<(String, String)>)
        ensures
            r.deep_view() == spec_node_aliases(),
    {
        let mut r: Vec<(String, String)> = Vec::new();
        r.push((String::from_str("lts/argon"), String::from_str("4")));
        r.push((String::from_str("lts/boron"), String::from_str("6")));
        r.push((String::from_str("lts/carbon"), String::from_str("8")));
        r.push((String::from_str("lts/dubnium"), String::from_str("10")));
        r.push((String::from_str("lts/erbium"), String::from_str("12")));
        r.push((String::from_str("lts/fermium"), String::from_str("14")));
        r.push((String::from_str("lts/gallium"), String::from_str("16")));
        r.push((String::from_str("lts/hydrogen"), String::from_str("18")));
        r.push((String::from_str("lts/iron"), String::from_str("20")));
        r.push((String::from_str("lts-argon"), String::from_str("4")));
        r.push((String::from_str("lts-boron"), String::from_str("6")));
        r.push((String::from_str("lts-carbon"), String::from_str("8")));
        r.push((String::from_str("lts-dubnium"), String::from_str("10")));
        r.push((String::from_str("lts-erbium"), String::from_str("12")));
        r.push((String::from_str("lts-fermium"), String::from_str("14")));
        r.push((String::from_str("lts-gallium"), String::from_str("16")));
        r.push((String::from_str("lts-hydrogen"), String::from_str("18")));
        r.push((String::from_str("lts-iron"), String::from_str("20")));
        r.push((String::from_str("lts"), String::from_str("20")));
        proof {
            assert(r.deep_view() =~~= spec_node_aliases());
        }
        r
    }

    /// The legacy per-tool version files this plugin understands.
    pub fn legacy_filenames(&self) -> (r: Vec<String>)
        ensures
            r.deep_view() =~= seq![".node-version"@, ".nvmrc"@],
    {
        let mut r: Vec<String> = Vec::new();
        r.push(String::from_str(".node-version"));
        r.push(String::from_str(".nvmrc"));
        r
    }

    /// Normalizes the content of a legacy version file (see
    /// [`spec_parse_legacy`]).  Reading the file is the caller's concern.
    pub fn parse_legacy_version(&self, body: &str) -> (r: String)
        ensures
            r@ == spec_parse_legacy(body@),
    {
        let t = trim(body);
        let tn: usize = t.as_str().unicode_len();
        if tn > 0 && t.as_str().get_char(0) == 'v' {
            let stripped = t.as_str().substring_char(1, tn);
            proof {
                assert(stripped@ =~= spec_trim(body@).drop_first());
            }
            replace_lts(stripped)
        } else {
            replace_lts(body)
        }
    }
}

/// The install directory name for a version on a platform:
/// `node-v{version}-{os}-{arch}`.
pub fn slug(v: &str, os: &str, arch: &str) -> (r: String)
    ensures
        r@ == "node-v"@ + v@ + "-"@ + os@ + "-"@ + arch@,
{
    String::from_str("node-v").concat(v).concat("-").concat(os).concat("-").concat(arch)
}

/// The name of the source tarball for a version.
pub fn source_tarball_name(v: &str) -> (r: String)
    ensures
        r@ == "node-v"@ + v@ + ".tar.gz"@,
{
    String::from_str("node-v").concat(v).concat(".tar.gz")
}

/// The name of the prebuilt binary tarball for a version on a platform.
pub fn binary_tarball_name(v: &str, os: &str, arch: &str) -> (r: String)
    ensures
        r@ == "node-v"@ + v@ + "-"@ + os@ + "-"@ + arch@ + ".tar.gz"@,
{
    slug(v, os, arch).concat(".tar.gz")
}

/// The path of the `node` executable under an install directory.
pub fn node_path(install_path: &str) -> (r: String)
    ensures
        r@ == install_path@ + "/bin/node"@,
{
    String::from_str(install_path).concat("/bin/node")
}

/// The path of the `npm` executable under an install directory.
pub fn npm_path(install_path: &str) -> (r: String)
    ensures
        r@ == install_path@ + "/bin/npm"@,
{
    String::from_str(install_path).concat("/bin/npm")
}

} // verus!
