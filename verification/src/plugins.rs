//! Plugin naming and the plugin registry model.

use vstd::prelude::*;

use crate::strutil::str_eq;

verus! {

/// The canonical name of a plugin: historical names are rewritten to the
/// name the registry files the plugin under.
pub open spec fn spec_unalias_plugin(name: Seq<char>) -> Seq<char> {
    if name == "nodejs"@ {
        "node"@
    } else if name == "golang"@ {
        "go"@
    } else {
        name
    }
}

/// Rewrites a historically renamed plugin name to its canonical name.
pub fn unalias_plugin<'a>(name: &'a str) -> (r: &'a str)
    ensures
        r@ == spec_unalias_plugin(name@),
{
    if str_eq(name, "nodejs") {
        "node"
    } else if str_eq(name, "golang") {
        "go"
    } else {
        name
    }
}

/// Whether a plugin is compiled in or discovered on disk.
#[derive(Debug, PartialEq, Eq, Structural, Clone, Copy)]
pub enum PluginType {
    Core,
    External,
}

} // verus!
