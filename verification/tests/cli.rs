use cpsl::calendar_date::format_date;
use cpsl::cli::{
    build_config_path, build_summary, cargo_build_args, history_file_name, is_incomplete_error,
    removal_confirmed, resolve_language, run_args, webview_pdf_rendering_allowed, BuildProgress,
    Language,
};

// --- Dates ---

#[test]
fn format_date_epoch() {
    assert_eq!(format_date(0), "1970-01-01");
}

#[test]
fn format_date_known_dates() {
    assert_eq!(format_date(1772150400), "2026-02-27");
    assert_eq!(format_date(946684800), "2000-01-01");
    assert_eq!(format_date(1709164800), "2024-02-29");
}

#[test]
fn format_date_within_a_day_and_around_year_ends() {
    assert_eq!(format_date(86399), "1970-01-01");
    assert_eq!(format_date(86400), "1970-01-02");
    assert_eq!(format_date(951782400), "2000-02-29");
    assert_eq!(format_date(978220800), "2000-12-31");
    assert_eq!(format_date(978307200), "2001-01-01");
    assert_eq!(format_date(4107456000), "2100-02-28");
    assert_eq!(format_date(4107542400), "2100-03-01");
}

#[test]
fn format_date_before_the_epoch_and_far_years() {
    assert_eq!(format_date(-1), "1969-12-31");
    assert_eq!(format_date(-86400), "1969-12-31");
    assert_eq!(format_date(-86401), "1969-12-30");
    assert_eq!(format_date(-62135596800), "0001-01-01");
    assert_eq!(format_date(-62135596801), "0000-12-31");
    assert_eq!(format_date(-62167219200), "0000-01-01");
    assert_eq!(format_date(-62167219201), "-001-12-31");
    assert_eq!(format_date(253402300800), "10000-01-01");
}

// --- Language resolution ---

#[test]
fn resolve_language_default_is_bash() {
    assert_eq!(resolve_language(false, false, false), Language::Bash);
}

#[test]
fn resolve_language_explicit_bash() {
    assert_eq!(resolve_language(true, false, false), Language::Bash);
}

#[test]
fn resolve_language_python() {
    assert_eq!(resolve_language(false, true, false), Language::Python);
}

#[test]
fn resolve_language_lua() {
    assert_eq!(resolve_language(false, false, true), Language::Lua);
}

#[test]
fn resolve_language_python_wins_over_lua() {
    assert_eq!(resolve_language(true, true, true), Language::Python);
}

#[test]
fn webview_pdf_rendering_requires_fully_unrestricted_network_policy() {
    assert!(!webview_pdf_rendering_allowed(&[], &[]));
    assert!(!webview_pdf_rendering_allowed(&["example.com".to_string()], &[]));
    assert!(webview_pdf_rendering_allowed(&["*".to_string()], &[]));
    assert!(!webview_pdf_rendering_allowed(
        &["*".to_string()],
        &["private.example".to_string()]
    ));
}

#[test]
fn webview_pdf_rendering_finds_wildcard_anywhere() {
    assert!(webview_pdf_rendering_allowed(
        &["a.com".to_string(), "*".to_string()],
        &[]
    ));
    assert!(!webview_pdf_rendering_allowed(&["**".to_string()], &[]));
}

// --- REPL ---

#[test]
fn incomplete_error_detection() {
    assert!(is_incomplete_error("Expected 'end' (to close 'function' at line 1), got <eof>"));
    assert!(is_incomplete_error("Expected ')' (to close '(' at column 5), got <eof>"));
    assert!(is_incomplete_error("Expected 'end'"));
    assert!(!is_incomplete_error("Expected identifier, got '1'"));
    assert!(!is_incomplete_error("to close"));
    assert!(!is_incomplete_error(""));
}

#[test]
fn history_file_names() {
    assert_eq!(history_file_name(Language::Python), ".cpsl_py_history");
    assert_eq!(history_file_name(Language::Bash), ".cpsl_sh_history");
    assert_eq!(history_file_name(Language::Lua), ".cpsl_history");
}

// --- Build ---

#[test]
fn build_config_path_choices() {
    assert_eq!(build_config_path(None, None).unwrap(), "cpsl.toml");
    assert_eq!(build_config_path(Some("a.toml"), None).unwrap(), "a.toml");
    assert_eq!(build_config_path(None, Some("b.toml")).unwrap(), "b.toml");
    let err = build_config_path(Some("a.toml"), Some("b.toml")).unwrap_err();
    assert!(err.contains("not both"), "got: {}", err);
}

#[test]
fn cargo_build_args_with_and_without_features() {
    assert_eq!(
        cargo_build_args(false, &vec![]),
        vec!["build", "--release", "-p", "cpsl-cli", "--no-default-features"]
    );
    assert_eq!(
        cargo_build_args(true, &vec!["mod-fs".to_string(), "mod-json".to_string()]),
        vec![
            "build",
            "--release",
            "-p",
            "cpsl-core",
            "--no-default-features",
            "--features",
            "mod-fs,mod-json"
        ]
    );
}

#[test]
fn build_progress_counts_compiled_crates() {
    let mut p = BuildProgress::new();
    assert!(p.observe_line("    Updating crates.io index").is_none());
    assert!(p.observe_line(" Downloading 42 crates ...").is_none());
    assert_eq!(p.total_crates, Some(42));
    assert!(p.observe_line(" Downloading 7 crates").is_none());
    assert_eq!(p.total_crates, Some(42));
    let n = p.observe_line("   Compiling serde v1.0.0").unwrap();
    assert_eq!(n.progress, "[1/42]");
    assert_eq!(n.crate_name, "serde");
    let n = p.observe_line("Compiling").unwrap();
    assert_eq!(n.progress, "[2/42]");
    assert_eq!(n.crate_name, "...");
    assert_eq!(p.compiled_count, 2);
}

#[test]
fn build_progress_without_total() {
    let mut p = BuildProgress::new();
    let n = p.observe_line("   Compiling libc v0.2.0 (registry)").unwrap();
    assert_eq!(n.progress, "[1]");
    assert_eq!(n.crate_name, "libc");
    assert!(p.observe_line("Downloading crates").is_none());
    assert_eq!(p.total_crates, None);
}

#[test]
fn build_progress_collects_error_blocks() {
    let mut p = BuildProgress::new();
    p.observe_line("warning: unused variable");
    p.observe_line("error[E0425]: cannot find value `x`");
    p.observe_line("  --> src/main.rs:2:5");
    p.observe_line("   |");
    p.observe_line("");
    p.observe_line("For more information");
    p.observe_line("  indented but after the block");
    assert_eq!(
        p.error_lines,
        vec![
            "error[E0425]: cannot find value `x`".to_string(),
            "  --> src/main.rs:2:5".to_string(),
            "   |".to_string(),
            "".to_string()
        ]
    );
    assert!(!p.in_error_block);
}

#[test]
fn run_args_order() {
    let v = |xs: &[&str]| xs.iter().map(|s| s.to_string()).collect::<Vec<String>>();
    assert_eq!(
        run_args(
            true,
            Language::Python,
            &v(&["/a:/a", "/b:/b:ro"]),
            &v(&["*"]),
            &v(&["x.com"]),
            Some("main.py"),
            &v(&["print(1)", "x"])
        ),
        v(&[
            "-i",
            "--python",
            "-v",
            "/a:/a",
            "-v",
            "/b:/b:ro",
            "--allow-domain",
            "*",
            "--deny-domain",
            "x.com",
            "main.py",
            "--",
            "print(1)",
            "x"
        ])
    );
    assert_eq!(
        run_args(false, Language::Bash, &vec![], &vec![], &vec![], None, &vec![]),
        v(&["--bash"])
    );
}

#[test]
fn removal_confirmation_answers() {
    assert!(removal_confirmed("y\n"));
    assert!(removal_confirmed("  Y "));
    assert!(!removal_confirmed("yes\n"));
    assert!(!removal_confirmed("\n"));
}

#[test]
fn build_summary_messages() {
    assert_eq!(
        build_summary(false, "dev", &vec!["fs".to_string(), "json".to_string()], true),
        "\x1b[32m✓\x1b[0m Sandbox 'dev' ready (2 modules + python: fs, json)"
    );
    assert_eq!(
        build_summary(true, "lib", &vec![], false),
        "\x1b[32m✓\x1b[0m Library 'lib' ready (0 modules: )"
    );
}

#[test]
fn sandbox_listing_columns() {
    let names: Vec<String> = vec!["beta".to_string(), ".hidden".to_string(), "alpha".to_string(), "Zed".to_string()];
    assert!(cpsl::cli::is_listed_name("beta"));
    assert!(!cpsl::cli::is_listed_name(".hidden"));
    assert_eq!(cpsl::cli::listing_order(&names), vec![1, 3, 2, 0]);
    assert_eq!(cpsl::cli::name_column_width(&names), 7);
    assert_eq!(cpsl::cli::name_column_width(&vec!["ab".to_string()]), 4);
    assert_eq!(cpsl::cli::modules_column(&vec![]), Some("(no config)".to_string()));
    let mods: Vec<String> = vec!["fs".to_string(), "grep(ripgrep)".to_string()];
    assert_eq!(cpsl::cli::modules_column(&mods), Some("fs, grep(ripgrep)".to_string()));
    let many: Vec<String> = ["base64", "crypto", "datetime", "json", "csv", "http"].iter().map(|s| s.to_string()).collect();
    assert_eq!(cpsl::cli::modules_column(&many), Some("base64, crypto, datetime, json, csv...".to_string()));
    let wide: Vec<String> = vec![format!("{}é{}", "a".repeat(34), "b".repeat(10))];
    assert_eq!(cpsl::cli::modules_column(&wide), None);
}

#[test]
fn listing_keeps_equal_names_in_order() {
    let names: Vec<String> = vec!["b".to_string(), "a".to_string(), "b".to_string(), "a".to_string()];
    assert_eq!(cpsl::cli::listing_order(&names), vec![1, 3, 0, 2]);
}
