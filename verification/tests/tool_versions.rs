use rtx_core::tool_versions::ToolVersions;

#[test]
fn test_parse() {
    let tv = ToolVersions::parse_str(
        "tiny 3\n",
        String::from("/root/cwd/.test-tool-versions"),
        true,
    );
    assert_eq!(tv.path, "/root/cwd/.test-tool-versions");
    assert_eq!(
        tv.describe("/root"),
        "ToolVersions(~/cwd/.test-tool-versions): tiny@3"
    );
}

#[test]
fn test_parse_comments() {
    let orig = "# intro comment\n\
                python 3.11.0 3.10.0 # some comment # more comment\n\
                #shellcheck 0.9.0\n\
                shfmt  3.6.0\n\
                # tail comment\n";
    let path = String::from("/root/cwd/.test-tool-versions");
    let tv = ToolVersions::parse_str(orig, path, false);
    assert_eq!(tv.dump(), orig);
}

#[test]
fn test_parse_colon() {
    let orig = "ruby: 3.0.5\n";
    let path = String::from("/root/cwd/.test-tool-versions");
    let tv = ToolVersions::parse_str(orig, path, false);
    assert_eq!(tv.dump(), "ruby 3.0.5\n");
}

#[test]
fn test_from_toolset() {
    let orig = "ruby: 3.0.5 3.1\n";
    let path = String::from("/root/cwd/.test-tool-versions");
    let tv = ToolVersions::parse_str(orig, path, true);
    assert_eq!(tv.to_toolset().describe(), "ruby@3.0.5 ruby@3.1");
}

#[test]
fn test_round_trip_plain() {
    let orig = "python 3.11.0 3.10.0\nshfmt  3.6.0\n";
    let tv = ToolVersions::parse_str(orig, String::from("/p/.tool-versions"), false);
    assert_eq!(tv.dump(), orig);
}

#[test]
fn test_unalias_on_parse() {
    let tv = ToolVersions::parse_str(
        "nodejs 18.0.0\n",
        String::from("/p/.tool-versions"),
        false,
    );
    assert_eq!(tv.plugins.len(), 1);
    assert_eq!(tv.plugins[0].0, "node");
    assert_eq!(tv.plugins[0].1.orig_name, "nodejs");
    assert_eq!(tv.to_toolset().describe(), "node@18.0.0");
}

#[test]
fn test_comment_preserved_after_replace() {
    let orig = "# intro comment\nnode 18.0.0\n# tail comment\n";
    let path = String::from("/p/.tool-versions");
    let mut tv = ToolVersions::parse_str(orig, path, false);
    tv.replace_versions(&String::from("node"), &vec![String::from("20.1.0")]);
    assert_eq!(tv.dump(), "# intro comment\nnode 20.1.0\n# tail comment\n");
}

#[test]
fn test_duplicate_plugin_replaces() {
    let orig = "node 18\nnode 20\n";
    let tv = ToolVersions::parse_str(orig, String::from("/p/.tool-versions"), false);
    assert_eq!(tv.plugins.len(), 1);
    assert_eq!(tv.plugins[0].1.versions, vec![String::from("20")]);
}

#[test]
fn test_remove_plugin() {
    let orig = "node 18\nruby 3.0.5\n";
    let mut tv = ToolVersions::parse_str(orig, String::from("/p/.tool-versions"), false);
    tv.remove_plugin(&String::from("node"));
    assert_eq!(tv.dump(), "ruby 3.0.5\n");
}

#[test]
fn test_padding_follows_widest_name() {
    // the dumped column is sized by the widest canonical name; the
    // shorter name gains trailing spaces
    let orig = "shellcheck 0.9.0\nsh 1\n";
    let tv = ToolVersions::parse_str(orig, String::from("/p/.tool-versions"), false);
    assert_eq!(tv.dump(), "shellcheck 0.9.0\nsh         1\n");
}

#[test]
fn test_empty_file() {
    let tv = ToolVersions::parse_str("", String::from("/p/.tool-versions"), false);
    assert_eq!(tv.plugins.len(), 0);
    assert_eq!(tv.pre, "");
    assert_eq!(tv.dump(), "\n");
}
