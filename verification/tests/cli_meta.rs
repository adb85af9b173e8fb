use agent_stream::args::{build_opencode_args, ThinkingLevel};
use agent_stream::codex::{
    auth_status_from, build_asset_name, expected_binary_name, extract_version_from_tag,
    find_asset_url, get_codex_target, parse_cli_version_output, select_releases, ReleaseAsset,
    ReleaseData, TargetArch, TargetOs,
};
use agent_stream::json::JsonValue;
use agent_stream::models::{
    extract_model_names, humanize_model_name, parse_opencode_models, version_from_output,
};
use agent_stream::server_status::server_status;

#[test]
fn version_from_tag_forms() {
    assert_eq!(extract_version_from_tag("v0.104.0"), "0.104.0");
    assert_eq!(extract_version_from_tag("vrust-v0.104.0"), "0.104.0");
    assert_eq!(extract_version_from_tag("nightly"), "nightly");
    assert_eq!(extract_version_from_tag("1.2.3"), "1.2.3");
}

#[test]
fn codex_target_triples() {
    assert_eq!(
        get_codex_target(TargetOs::MacOs, TargetArch::Aarch64).unwrap(),
        "aarch64-apple-darwin"
    );
    assert_eq!(
        get_codex_target(TargetOs::Linux, TargetArch::X86_64).unwrap(),
        "x86_64-unknown-linux-gnu"
    );
    assert_eq!(
        get_codex_target(TargetOs::Windows, TargetArch::Aarch64).unwrap(),
        "aarch64-pc-windows-msvc"
    );
    assert_eq!(
        get_codex_target(TargetOs::Other, TargetArch::X86_64).unwrap_err(),
        "Unsupported platform"
    );
}

#[test]
fn asset_and_binary_names() {
    assert_eq!(
        build_asset_name("x86_64-unknown-linux-gnu", false),
        "codex-x86_64-unknown-linux-gnu.tar.gz"
    );
    assert_eq!(
        build_asset_name("x86_64-pc-windows-msvc", true),
        "codex-x86_64-pc-windows-msvc.exe.zip"
    );
    assert_eq!(expected_binary_name("aarch64-apple-darwin", false), "codex-aarch64-apple-darwin");
    assert_eq!(
        expected_binary_name("x86_64-pc-windows-msvc", true),
        "codex-x86_64-pc-windows-msvc.exe"
    );
}

fn release(tag: &str, prerelease: bool, assets: Vec<(&str, &str)>) -> ReleaseData {
    ReleaseData {
        tag_name: tag.to_string(),
        published_at: "2025-01-01T00:00:00Z".to_string(),
        prerelease,
        assets: assets
            .into_iter()
            .map(|(n, u)| ReleaseAsset {
                name: n.to_string(),
                browser_download_url: u.to_string(),
            })
            .collect(),
    }
}

#[test]
fn select_releases_filters_and_takes_five() {
    let releases = vec![
        release("v0.9.0-alpha", true, vec![("a", "u")]),
        release("v1.0.0", false, vec![]),
        release("v1.1.0", false, vec![("a", "u")]),
        release("v1.2.0", false, vec![("a", "u")]),
        release("v1.3.0", false, vec![("a", "u")]),
        release("v1.4.0", false, vec![("a", "u")]),
        release("v1.5.0", false, vec![("a", "u")]),
        release("v1.6.0", false, vec![("a", "u")]),
    ];
    let selected = select_releases(&releases);
    assert_eq!(selected.len(), 5);
    assert_eq!(selected[0].version, "1.1.0");
    assert_eq!(selected[0].tag_name, "v1.1.0");
    assert_eq!(selected[4].version, "1.5.0");
    assert!(!selected.iter().any(|r| r.prerelease));
}

#[test]
fn find_asset_url_cases() {
    let releases = vec![
        release("v1.0.0", false, vec![("codex-linux.tar.gz", "https://dl/one")]),
        release("v1.1.0", false, vec![("codex-mac.tar.gz", "https://dl/two")]),
    ];
    assert_eq!(
        find_asset_url(&releases, "1.1.0", "codex-mac.tar.gz").unwrap(),
        "https://dl/two"
    );
    assert_eq!(
        find_asset_url(&releases, "1.0.0", "missing.zip").unwrap_err(),
        "Asset missing.zip not found in release v1.0.0"
    );
    assert_eq!(
        find_asset_url(&releases, "9.9.9", "codex-mac.tar.gz").unwrap_err(),
        "Release for version 9.9.9 not found"
    );
}

#[test]
fn cli_version_output_parsing() {
    assert_eq!(parse_cli_version_output("codex 0.104.0\n"), Some("0.104.0".to_string()));
    assert_eq!(parse_cli_version_output("v1.2.3"), Some("1.2.3".to_string()));
    assert_eq!(parse_cli_version_output("0.5.1"), Some("0.5.1".to_string()));
    assert_eq!(parse_cli_version_output("   \n"), None);
}

#[test]
fn auth_status_variants() {
    let ok = auth_status_from(true, "whatever");
    assert!(ok.authenticated);
    assert_eq!(ok.error, None);
    let failed = auth_status_from(false, "  token expired \n");
    assert!(!failed.authenticated);
    assert_eq!(failed.error.as_deref(), Some("token expired"));
    let silent = auth_status_from(false, "  ");
    assert_eq!(silent.error.as_deref(), Some("Not authenticated"));
}

#[test]
fn opencode_version_output() {
    assert_eq!(version_from_output(true, " 0.2.5 \n"), Some("0.2.5".to_string()));
    assert_eq!(version_from_output(true, "   "), None);
    assert_eq!(version_from_output(false, "0.2.5"), None);
}

#[test]
fn humanize_model_names() {
    assert_eq!(humanize_model_name("horizon-mini-2"), "Horizon Mini 2");
    assert_eq!(humanize_model_name("swift"), "Swift");
    assert_eq!(humanize_model_name(""), "");
}

#[test]
fn parse_model_listing() {
    let names = vec![(
        "acme/horizon-mini-2".to_string(),
        "Horizon Mini 2 (config)".to_string(),
    )];
    let stdout = "acme/horizon-mini-2\nother/swift-pro\n\nopencode models [provider]\nhelp  text\nnoslash\n";
    let models = parse_opencode_models(stdout, &names);
    assert_eq!(models.len(), 2);
    assert_eq!(models[0].id, "acme/horizon-mini-2");
    assert_eq!(models[0].provider, "acme");
    assert_eq!(models[0].name, "Horizon Mini 2 (config)");
    assert_eq!(models[1].id, "other/swift-pro");
    assert_eq!(models[1].name, "Swift Pro");
}

#[test]
fn model_names_from_config() {
    let config = JsonValue::Obj(vec![(
        "provider".to_string(),
        JsonValue::Obj(vec![(
            "acme".to_string(),
            JsonValue::Obj(vec![(
                "models".to_string(),
                JsonValue::Obj(vec![
                    (
                        "horizon-mini-2".to_string(),
                        JsonValue::Obj(vec![(
                            "name".to_string(),
                            JsonValue::Str("Horizon Mini 2".to_string()),
                        )]),
                    ),
                    ("unnamed".to_string(), JsonValue::Obj(vec![])),
                ]),
            )]),
        )]),
    )]);
    let names = extract_model_names(&config);
    assert_eq!(names.len(), 1);
    assert_eq!(names[0].0, "acme/horizon-mini-2");
    assert_eq!(names[0].1, "Horizon Mini 2");
}

#[test]
fn opencode_args_forms() {
    let (args, env) = build_opencode_args(None, None, None, None);
    assert_eq!(args, vec!["run", "--format", "json", "--agent", "plan"]);
    assert!(env.is_empty());
    let (args, _) = build_opencode_args(
        Some("ses_1"),
        Some("acme/horizon-mini-2"),
        Some("yolo"),
        Some(ThinkingLevel::Ultrathink),
    );
    assert_eq!(
        args,
        vec![
            "run",
            "--format",
            "json",
            "--model",
            "acme/horizon-mini-2",
            "--agent",
            "build",
            "--variant",
            "max",
            "--session",
            "ses_1",
        ]
    );
}

#[test]
fn server_status_forms() {
    let up = server_status(Some(("http://10.0.0.2:4000".to_string(), "tok".to_string(), 4000)));
    assert!(up.running);
    assert_eq!(up.url.as_deref(), Some("http://10.0.0.2:4000"));
    assert_eq!(up.token.as_deref(), Some("tok"));
    assert_eq!(up.port, Some(4000));
    let down = server_status(None);
    assert!(!down.running);
    assert_eq!(down.url, None);
    assert_eq!(down.port, None);
}

#[test]
fn rendered_json_escapes_strings() {
    let v = JsonValue::Obj(vec![(
        "text".to_string(),
        JsonValue::Str("line1\nline2\t\"quoted\"\\x".to_string()),
    )]);
    assert_eq!(v.to_json_text(), r#"{"text":"line1\nline2\t\"quoted\"\\x"}"#);
}
