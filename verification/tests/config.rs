use cpsl::config::{
    find_module, module_registry, valid_module_names, HttpConfig, ModuleConfig, ModuleEntry,
    MountsConfig, PythonConfig, SandboxConfig, SandboxMeta,
};

fn config(modules: Vec<(&str, ModuleEntry)>) -> SandboxConfig {
    let mut modules: Vec<(String, ModuleEntry)> = modules
        .into_iter()
        .map(|(n, e)| (n.to_string(), e))
        .collect();
    modules.sort_by(|a, b| a.0.cmp(&b.0));
    SandboxConfig {
        sandbox: SandboxMeta { name: "test".to_string() },
        modules,
        python: PythonConfig::default(),
        mounts: MountsConfig::default(),
        http: HttpConfig::default(),
    }
}

fn provider(p: &str) -> ModuleEntry {
    ModuleEntry::Config(ModuleConfig {
        source: None,
        provider: Some(p.to_string()),
        extra: vec![],
    })
}

#[test]
fn valid_module_names_include_grep_capability_not_provider_modules() {
    let names = valid_module_names();
    assert!(names.contains(&"grep"), "got: {:?}", names);
    assert!(!names.contains(&"fff"), "got: {:?}", names);
    assert!(!names.contains(&"ripgrep"), "got: {:?}", names);
}

#[test]
fn find_module_looks_up_registry() {
    assert_eq!(find_module("numx").unwrap().cargo_feature, "mod-numpy");
    assert!(find_module("grep").is_none());
    assert!(find_module("foobar").is_none());
}

#[test]
fn reject_unknown_module() {
    let c = config(vec![("json", ModuleEntry::Enabled(true)), ("foobar", ModuleEntry::Enabled(true))]);
    let err = c.validate().unwrap_err();
    assert!(err.contains("unknown module 'foobar'"), "got: {}", err);
    assert!(err.ends_with("valid modules: fs, json, csv, yaml, xml, http, compress, doc, plot, numx, grep"), "got: {}", err);
}

#[test]
fn reject_old_grep_module_name() {
    let c = config(vec![("fs", ModuleEntry::Enabled(true)), ("grep", ModuleEntry::Enabled(true))]);
    let err = c.validate().unwrap_err();
    assert!(err.contains("boolean grep entries are not supported"), "got: {}", err);
}

#[test]
fn reject_grep_false() {
    let c = config(vec![("fs", ModuleEntry::Enabled(true)), ("grep", ModuleEntry::Enabled(false))]);
    let err = c.validate().unwrap_err();
    assert!(err.contains("boolean grep entries are not supported"), "got: {}", err);
}

#[test]
fn reject_grep_missing_provider() {
    let c = config(vec![
        ("fs", ModuleEntry::Enabled(true)),
        ("grep", ModuleEntry::Config(ModuleConfig::default())),
    ]);
    let err = c.validate().unwrap_err();
    assert!(err.contains("requires provider"), "got: {}", err);
}

#[test]
fn reject_grep_unknown_provider() {
    let c = config(vec![("fs", ModuleEntry::Enabled(true)), ("grep", provider("ag"))]);
    let err = c.validate().unwrap_err();
    assert!(err.contains("unknown grep provider 'ag'"), "got: {}", err);
    assert!(err.contains("fff, ripgrep"), "got: {}", err);
}

#[test]
fn reject_grep_without_fs() {
    for c in [
        config(vec![("grep", provider("ripgrep"))]),
        config(vec![("fs", ModuleEntry::Enabled(false)), ("grep", provider("ripgrep"))]),
    ] {
        let err = c.validate().unwrap_err();
        assert!(err.contains("requires fs = true"), "got: {}", err);
    }
}

#[test]
fn reject_standalone_grep_provider_modules() {
    for p in ["fff", "ripgrep"] {
        let c = config(vec![("fs", ModuleEntry::Enabled(true)), (p, ModuleEntry::Enabled(true))]);
        let err = c.validate().unwrap_err();
        assert!(err.contains("standalone grep provider module"), "{} got: {}", p, err);
    }
}

#[test]
fn external_module_source_rejected() {
    let c = config(vec![
        ("json", ModuleEntry::Enabled(true)),
        (
            "csv",
            ModuleEntry::Config(ModuleConfig {
                source: Some("github.com/cpsl/mod-csv".into()),
                provider: None,
                extra: vec![],
            }),
        ),
    ]);
    let err = c.validate().unwrap_err();
    assert!(err.contains("external modules not yet supported"), "got: {}", err);
    assert!(err.contains("csv"), "error should mention module name, got: {}", err);
}

#[test]
fn external_module_entry_parses() {
    let c = config(vec![
        ("json", ModuleEntry::Enabled(true)),
        (
            "csv",
            ModuleEntry::Config(ModuleConfig {
                source: Some("github.com/cpsl/mod-csv".into()),
                provider: None,
                extra: vec![],
            }),
        ),
    ]);
    let csv = &c.modules.iter().find(|(n, _)| n == "csv").unwrap().1;
    assert!(csv.is_external());
    assert!(csv.is_enabled());
    assert!(!ModuleEntry::Enabled(true).is_external());
}

#[test]
fn to_cargo_features_only_enabled() {
    let c = config(vec![
        ("json", ModuleEntry::Enabled(true)),
        ("csv", ModuleEntry::Enabled(false)),
        ("yaml", ModuleEntry::Enabled(true)),
        ("fs", ModuleEntry::Enabled(true)),
        ("grep", provider("ripgrep")),
    ]);
    c.validate().unwrap();
    assert_eq!(
        c.to_cargo_features(),
        vec!["mod-fs", "mod-ripgrep", "mod-json", "mod-yaml"]
    );
}

#[test]
fn to_cargo_features_selects_only_fff_provider() {
    let c = config(vec![("fs", ModuleEntry::Enabled(true)), ("grep", provider("fff"))]);
    c.validate().unwrap();
    let features = c.to_cargo_features();
    assert_eq!(features, vec!["mod-fs", "mod-fff"]);
    assert!(features.iter().all(|f| f != "mod-ripgrep"));
}

#[test]
fn module_display_names_use_public_grep_capability() {
    let c = config(vec![
        ("json", ModuleEntry::Enabled(true)),
        ("fs", ModuleEntry::Enabled(true)),
        ("grep", provider("ripgrep")),
    ]);
    assert_eq!(
        c.module_display_names(),
        vec!["fs".to_string(), "grep(ripgrep)".to_string(), "json".to_string()]
    );
}

#[test]
fn to_cargo_features_empty_modules() {
    let c = config(vec![]);
    c.validate().unwrap();
    assert!(c.to_cargo_features().is_empty());
}

#[test]
fn http_gateway_config_extraction() {
    let mut c = config(vec![]);
    c.http.allowed_domains = vec!["a.com".into(), "b.com".into()];
    c.http.denied_domains = vec!["c.com".into()];
    let (allowed, denied) = c.http_gateway_config();
    assert_eq!(allowed, vec!["a.com", "b.com"]);
    assert_eq!(denied, vec!["c.com"]);
}

#[test]
fn http_gateway_config_defaults_empty() {
    let c = config(vec![]);
    let (allowed, denied) = c.http_gateway_config();
    assert!(allowed.is_empty());
    assert!(denied.is_empty());
}

#[test]
fn all_boolean_modules_accepted() {
    let reg = module_registry();
    let c = config(reg.iter().map(|m| (m.name, ModuleEntry::Enabled(true))).collect());
    c.validate().unwrap();
    assert_eq!(c.to_cargo_features().len(), reg.len());
}

#[test]
fn module_entry_display() {
    assert_eq!(ModuleEntry::Enabled(true).to_string(), "true");
    assert_eq!(ModuleEntry::Enabled(false).to_string(), "false");
    assert_eq!(
        ModuleEntry::Config(ModuleConfig {
            source: Some("github.com/foo".into()),
            provider: None,
            extra: vec![],
        })
        .to_string(),
        "{ source = \"github.com/foo\" }"
    );
    assert_eq!(provider("fff").to_string(), "{ provider = \"fff\" }");
    assert_eq!(
        ModuleEntry::Config(ModuleConfig {
            source: None,
            provider: Some("fff".into()),
            extra: vec!["a".into(), "b".into()],
        })
        .to_string(),
        "{ provider = \"fff\", a = ..., b = ... }"
    );
}

#[test]
fn parse_valid_config_accessors() {
    let mut c = config(vec![
        ("fs", ModuleEntry::Enabled(true)),
        ("json", ModuleEntry::Enabled(true)),
        ("csv", ModuleEntry::Enabled(true)),
        ("yaml", ModuleEntry::Enabled(false)),
    ]);
    c.python.enabled = true;
    c.mounts.volumes = vec!["./data:/data:ro".into()];
    c.validate().unwrap();
    assert!(c.python_enabled());
    assert_eq!(c.mount_volumes(), &["./data:/data:ro".to_string()]);
    assert_eq!(c.modules.len(), 4);
}

#[test]
fn module_must_be_boolean() {
    let c = config(vec![("json", provider("fff"))]);
    assert_eq!(
        c.validate().unwrap_err(),
        "module 'json' must be a boolean entry; only grep supports provider config"
    );
}

#[test]
fn grep_extra_fields_rejected() {
    let c = config(vec![
        ("fs", ModuleEntry::Enabled(true)),
        (
            "grep",
            ModuleEntry::Config(ModuleConfig {
                source: None,
                provider: Some("fff".into()),
                extra: vec!["depth".into()],
            }),
        ),
    ]);
    assert_eq!(
        c.validate().unwrap_err(),
        "module 'grep' only supports a provider field; supported providers: fff, ripgrep"
    );
}

#[test]
fn module_tables_keep_key_order() {
    let mut c = config(vec![("fs", ModuleEntry::Enabled(true)), ("csv", ModuleEntry::Enabled(true))]);
    assert!(c.modules_well_ordered());
    c.modules.swap(0, 1);
    assert!(!c.modules_well_ordered());
    let dup = config(vec![("fs", ModuleEntry::Enabled(true)), ("fs", ModuleEntry::Enabled(false))]);
    assert!(!dup.modules_well_ordered());
    let prefix = config(vec![("http", ModuleEntry::Enabled(true)), ("h", ModuleEntry::Enabled(true))]);
    assert!(prefix.modules_well_ordered());
    assert_eq!(prefix.modules[0].0, "h");
}
