use rtx_core::config::{
    build_toolset, dedup_paths, load_aliases, load_all_aliases, load_config_filenames, load_env,
    load_legacy_files, load_path_dirs, load_plugins, resolve_alias, Config, ConfigFragment,
    EnvInfo,
};
use rtx_core::error::Error;
use rtx_core::file::{display_path, file_name};
use rtx_core::node::NodePlugin;
use rtx_core::plugins::{unalias_plugin, PluginType};
use rtx_core::settings::{
    parse_setting, parse_u64, settings_from_env, Settings, SettingsBuilder, SettingsPartial,
};
use rtx_core::toolset::{ToolSource, ToolVersionRequest};
use rtx_core::tracking::{should_exit_early, Tracker};
use rtx_core::version::{filtered_versions, normalize_remote_versions, resolve_version};

fn remote() -> Vec<String> {
    vec![
        String::from("18.0.0"),
        String::from("18.1.0"),
        String::from("20.0.0"),
        String::from("20.1.0"),
    ]
}

#[test]
fn test_resolve_prefix() {
    let r = resolve_version("node", &remote(), "20").unwrap();
    assert_eq!(r, "20.1.0");
}

#[test]
fn test_resolve_latest() {
    let r = resolve_version("node", &remote(), "latest").unwrap();
    assert_eq!(r, "20.1.0");
}

#[test]
fn test_resolve_full_version_skips_listing() {
    // a full three-component version resolves without any listed versions
    let empty: Vec<String> = vec![];
    let r = resolve_version("node", &empty, "20.1.0").unwrap();
    assert_eq!(r, "20.1.0");
    let r = resolve_version("node", &empty, "v20.1.0").unwrap();
    assert_eq!(r, "20.1.0");
}

#[test]
fn test_resolve_prefix_boundary() {
    // "2" must not match "20.1.0"
    let err = resolve_version("node", &remote(), "2").unwrap_err();
    match err {
        Error::Resolution { ref plugin, ref requested } => {
            assert_eq!(plugin, "node");
            assert_eq!(requested, "2");
        }
        _ => panic!("wrong error variant"),
    }
    assert_eq!(err.message(), "node: no version found matching 2");
}

#[test]
fn test_filtered_versions_strips_v_filter() {
    let vs = filtered_versions(&remote(), &Some(String::from("v18")));
    assert_eq!(vs, vec![String::from("18.0.0"), String::from("18.1.0")]);
}

#[test]
fn test_normalize_remote_versions() {
    let raw = vec![
        String::from("v20.1.0"),
        String::from("v18.0.0"),
        String::from("chakracore-1.0.0"),
    ];
    let out = normalize_remote_versions(&raw);
    assert_eq!(
        out,
        vec![
            String::from("chakracore-1.0.0"),
            String::from("18.0.0"),
            String::from("20.1.0"),
        ]
    );
}

fn frag(source: ToolSource) -> ConfigFragment {
    ConfigFragment {
        source,
        env: vec![],
        env_remove: vec![],
        path_dirs: vec![],
        aliases: vec![],
        tools: vec![],
        settings: SettingsPartial::empty(),
    }
}

#[test]
fn test_precedence_replaces_request_list() {
    // fragments in fold order: global first, project-local last
    let mut global = frag(ToolSource::ToolVersions(String::from("/home/u/.tool-versions")));
    global.tools = vec![(
        String::from("node"),
        vec![String::from("16"), String::from("14")],
    )];
    let mut local = frag(ToolSource::ToolVersions(String::from("/proj/.tool-versions")));
    local.tools = vec![(String::from("node"), vec![String::from("20")])];
    let ts = build_toolset(&vec![global, local]);
    // the project-local list replaced the global one wholly
    assert_eq!(ts.describe(), "node@20");
}

#[test]
fn test_env_fold_and_removal() {
    let mut local = frag(ToolSource::RtxToml(String::from("/proj/.rtx.toml")));
    local.env = vec![(String::from("A"), String::from("local"))];
    local.env_remove = vec![String::from("GONE")];
    let mut global = frag(ToolSource::RtxToml(String::from("/home/u/config.toml")));
    global.env = vec![
        (String::from("A"), String::from("global")),
        (String::from("GONE"), String::from("x")),
        (String::from("B"), String::from("kept")),
    ];
    // discovery order: most specific first
    let (env, sources) = load_env(&vec![local, global]);
    assert_eq!(
        env,
        vec![
            (String::from("A"), String::from("local")),
            (String::from("B"), String::from("kept")),
        ]
    );
    assert_eq!(
        sources,
        vec![
            (String::from("A"), String::from("/proj/.rtx.toml")),
            (String::from("GONE"), String::from("/home/u/config.toml")),
            (String::from("B"), String::from("/home/u/config.toml")),
        ]
    );
}

#[test]
fn test_path_dirs_most_specific_first() {
    let mut local = frag(ToolSource::RtxToml(String::from("/proj/.rtx.toml")));
    local.path_dirs = vec![String::from("/proj/bin")];
    let mut global = frag(ToolSource::RtxToml(String::from("/home/u/config.toml")));
    global.path_dirs = vec![String::from("/home/u/bin")];
    let dirs = load_path_dirs(&vec![local, global]);
    assert_eq!(dirs, vec![String::from("/proj/bin"), String::from("/home/u/bin")]);
}

#[test]
fn test_aliases_and_resolution() {
    let mut f = frag(ToolSource::RtxToml(String::from("/proj/.rtx.toml")));
    f.aliases = vec![(
        String::from("node"),
        vec![(String::from("lts"), String::from("18"))],
    )];
    let aliases = load_aliases(&vec![f]);
    let node = NodePlugin::new(String::from("node"));
    let intrinsic = node.get_aliases();
    // config-declared alias wins over the plugin's intrinsic table
    assert_eq!(resolve_alias(&aliases, &intrinsic, "node", "lts"), "18");
    // an intrinsic alias fills the gap
    assert_eq!(
        resolve_alias(&aliases, &intrinsic, "node", "lts/hydrogen"),
        "18"
    );
    // an unknown symbol is a literal version
    assert_eq!(resolve_alias(&aliases, &intrinsic, "node", "19.1.0"), "19.1.0");
    // the merged map keeps config declarations over intrinsic ones
    let all = load_all_aliases(&aliases, &vec![(String::from("node"), node.get_aliases())]);
    let merged = &all.iter().find(|p| p.0 == "node").unwrap().1;
    assert_eq!(
        merged.iter().find(|p| p.0 == "lts").unwrap().1,
        "18"
    );
}

#[test]
fn test_settings_fold_and_env_override() {
    let mut p1 = SettingsPartial::empty();
    p1.experimental = Some(true);
    let mut p2 = SettingsPartial::empty();
    p2.jobs = Some(8);
    let s = SettingsBuilder::new().preloaded(p1).preloaded(p2).load();
    assert!(s.experimental);
    assert_eq!(s.jobs, 8);
    assert!(s.legacy_version_file);
    // environment overrides always win
    let envp = settings_from_env(&vec![
        (String::from("RTX_JOBS"), String::from("2")),
        (String::from("IRRELEVANT"), String::from("zzz")),
    ])
    .unwrap();
    let s2 = SettingsBuilder::new().preloaded(envp).load();
    assert_eq!(s2.jobs, 2);
}

#[test]
fn test_settings_errors() {
    let err = parse_setting("no_such_setting", "1", "/p/config.toml").unwrap_err();
    assert_eq!(
        err.message(),
        "error parsing config file: /p/config.toml: unknown setting: no_such_setting"
    );
    let err = parse_setting("experimental", "maybe", "/p/config.toml").unwrap_err();
    assert_eq!(
        err.message(),
        "error parsing config file: /p/config.toml: invalid value for setting experimental"
    );
}

#[test]
fn test_parse_u64_bounds() {
    assert_eq!(parse_u64("0"), Some(0));
    assert_eq!(parse_u64("9999999999999999999"), Some(9999999999999999999));
    assert_eq!(parse_u64("12x"), None);
    assert_eq!(parse_u64(""), None);
    assert_eq!(parse_u64("99999999999999999999"), None);
}

#[test]
fn test_load_plugins_registry() {
    let mut s = Settings::default();
    let ext = vec![String::from("shellcheck")];
    let r = load_plugins(&s, &ext);
    assert_eq!(r.len(), 2);
    assert_eq!(r[0].0, "node");
    assert!(matches!(r[0].1, PluginType::Core));
    assert!(matches!(r[1].1, PluginType::External));
    s.disable_tools = vec![String::from("node")];
    let r = load_plugins(&s, &ext);
    assert_eq!(r.len(), 1);
    assert_eq!(r[0].0, "shellcheck");
}

#[test]
fn test_legacy_files_grouping() {
    let s = Settings::default();
    let node = NodePlugin::new(String::from("node"));
    let tables = vec![(String::from("node"), node.legacy_filenames())];
    let legacy = load_legacy_files(&s, &tables);
    assert_eq!(legacy.len(), 2);
    assert_eq!(legacy[0].0, ".node-version");
    assert_eq!(legacy[0].1, vec![String::from("node")]);
    assert_eq!(legacy[1].0, ".nvmrc");
    let mut off = Settings::default();
    off.legacy_version_file = false;
    assert!(load_legacy_files(&off, &tables).is_empty());
}

#[test]
fn test_config_filenames_and_dedup() {
    let s = Settings::default();
    let env = EnvInfo {
        default_tool_versions_filename: String::from(".tool-versions"),
        default_config_filename: String::from(".rtx.toml"),
        env_name: None,
        config_file: None,
        use_toml: false,
    };
    let names = load_config_filenames(&s, &vec![], &env);
    assert_eq!(
        names,
        vec![String::from(".tool-versions"), String::from(".rtx.toml")]
    );
    let paths = vec![
        String::from("/a/.tool-versions"),
        String::from("/b/.tool-versions"),
        String::from("/a/.tool-versions"),
    ];
    assert_eq!(
        dedup_paths(&paths),
        vec![String::from("/a/.tool-versions"), String::from("/b/.tool-versions")]
    );
}

#[test]
fn test_config_load_idempotent() {
    let mut local = frag(ToolSource::ToolVersions(String::from("/proj/.tool-versions")));
    local.tools = vec![(String::from("node"), vec![String::from("20")])];
    let frags = vec![local];
    let c1 = Config::from_fragments(Settings::default(), &frags, "/home/u/config.toml", false);
    let c2 = Config::from_fragments(Settings::default(), &frags, "/home/u/config.toml", false);
    assert_eq!(c1.env, c2.env);
    assert_eq!(c1.path_dirs, c2.path_dirs);
    assert_eq!(c1.project_root, c2.project_root);
    assert_eq!(c1.project_root, Some(String::from("/proj")));
    let t1 = build_toolset(&frags);
    let t2 = build_toolset(&frags);
    assert_eq!(t1.describe(), t2.describe());
    // the tracker reports that nothing needs re-resolution
    let watched = vec![(String::from("/proj/.tool-versions"), 41u64)];
    assert!(should_exit_early(&watched, &watched));
    let changed = vec![(String::from("/proj/.tool-versions"), 42u64)];
    assert!(!should_exit_early(&changed, &watched));
}

#[test]
fn test_tracker_dedups() {
    let mut t = Tracker::new();
    t.track(&String::from("/a"));
    t.track(&String::from("/b"));
    t.track(&String::from("/a"));
    assert_eq!(t.list_all(), &vec![String::from("/a"), String::from("/b")]);
}

#[test]
fn test_file_name() {
    assert_eq!(file_name("/usr/bin/"), Some(String::from("bin")));
    assert_eq!(file_name("tmp/foo.txt"), Some(String::from("foo.txt")));
    assert_eq!(file_name("foo.txt/."), Some(String::from("foo.txt")));
    assert_eq!(file_name("foo.txt/.."), None);
    assert_eq!(file_name("/"), None);
    assert_eq!(file_name(""), None);
}

#[test]
fn test_display_path() {
    assert_eq!(display_path("/root/cwd/x", "/root"), "~/cwd/x");
    assert_eq!(display_path("/etc/hosts", "/root"), "/etc/hosts");
}

#[test]
fn test_unalias() {
    assert_eq!(unalias_plugin("nodejs"), "node");
    assert_eq!(unalias_plugin("golang"), "go");
    assert_eq!(unalias_plugin("ruby"), "ruby");
}

#[test]
fn test_node_legacy_parse() {
    let node = NodePlugin::new(String::from("node"));
    assert_eq!(node.parse_legacy_version("v18.0.0\n"), "18.0.0");
    assert_eq!(node.parse_legacy_version("lts/*\n"), "lts\n");
    assert_eq!(node.parse_legacy_version("v20.1.0"), "20.1.0");
}

#[test]
fn test_node_artifact_names() {
    assert_eq!(
        rtx_core::node::slug("20.1.0", "linux", "x64"),
        "node-v20.1.0-linux-x64"
    );
    assert_eq!(
        rtx_core::node::source_tarball_name("20.1.0"),
        "node-v20.1.0.tar.gz"
    );
    assert_eq!(
        rtx_core::node::binary_tarball_name("20.1.0", "linux", "x64"),
        "node-v20.1.0-linux-x64.tar.gz"
    );
    assert_eq!(rtx_core::node::node_path("/i/node/20.1.0"), "/i/node/20.1.0/bin/node");
    assert_eq!(rtx_core::node::npm_path("/i/node/20.1.0"), "/i/node/20.1.0/bin/npm");
}

#[test]
fn test_request_kinds() {
    let r = ToolVersionRequest::new(String::from("node"), "ref:master");
    assert_eq!(r.label(), "node@ref:master");
    let r = ToolVersionRequest::new(String::from("node"), "prefix:20");
    assert_eq!(r.label(), "node@prefix:20");
    let r = ToolVersionRequest::new(String::from("node"), "path:/opt/node");
    assert_eq!(r.label(), "node@path:/opt/node");
    let r = ToolVersionRequest::new(String::from("node"), "system");
    assert_eq!(r.label(), "node@system");
    let r = ToolVersionRequest::new(String::from("node"), "20.1.0");
    assert_eq!(r.label(), "node@20.1.0");
}
