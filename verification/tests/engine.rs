use winassoc::config::{AppDef, Config, RouteTable, Rule};
use winassoc::engine::{build_command_line, evaluate, Decision};
use winassoc::env::EnvSnapshot;
use winassoc::name_map::NameMap;
use winassoc::target::{Modifiers, Target};

fn app(cmd: &str, args: &[&str]) -> AppDef {
    AppDef { cmd: cmd.to_string(), args: args.iter().map(|s| s.to_string()).collect(), label: None }
}

fn some(s: &str) -> Option<String> {
    Some(s.to_string())
}

fn config() -> Config {
    let mut c = Config::default_config();
    c.apps.insert("vscode".to_string(), app(r"C:\Tools\Code.exe", &["{target}"]));
    c.apps.insert("obsidian".to_string(), app(r"%LOCALAPPDATA%\Obsidian\Obsidian.exe", &[]));
    c.apps.insert(
        "chrome-work".to_string(),
        app("chrome.exe", &["--profile-directory=Profile 1", "{target}"]),
    );
    c.apps.insert("firefox".to_string(), app("firefox.exe", &[]));
    c.ext.insert(
        "md".to_string(),
        RouteTable {
            default: some("obsidian"),
            rules: vec![
                Rule { glob: some("D:/Develop/**"), app: some("vscode"), ..Default::default() },
                Rule { modifier: some("shift"), app: some("vscode"), ..Default::default() },
            ],
            candidates: None,
        },
    );
    c.ext.insert(
        "html".to_string(),
        RouteTable {
            default: None,
            rules: vec![Rule { modifier: some("ctrl"), pick: true, ..Default::default() }],
            candidates: None,
        },
    );
    c.protocol.insert(
        "https".to_string(),
        RouteTable {
            default: some("firefox"),
            rules: vec![
                Rule { host: some("*.corp.example.com"), app: some("chrome-work"), ..Default::default() },
                Rule {
                    url: some("https://github.com/myorg/**"),
                    app: some("chrome-work"),
                    ..Default::default()
                },
            ],
            candidates: None,
        },
    );
    c.validate().unwrap();
    c
}

fn launched(decision: Decision) -> (String, Option<usize>) {
    match decision {
        Decision::Launch { app, rule_index } => (app, rule_index),
        other => panic!("Launch を期待: {other:?}"),
    }
}

#[test]
fn glob_rule_matches_backslash_path() {
    let target = Target::parse(r"D:\Develop\notes\a.md");
    let decision = evaluate(&config(), &target, &Modifiers::default());
    assert_eq!(launched(decision), ("vscode".to_string(), Some(0)));
}

#[test]
fn falls_back_to_default() {
    let target = Target::parse(r"C:\Users\x\memo.md");
    let decision = evaluate(&config(), &target, &Modifiers::default());
    assert_eq!(launched(decision), ("obsidian".to_string(), None));
}

#[test]
fn modifier_rule_requires_key() {
    let target = Target::parse(r"C:\Users\x\memo.md");
    let mods = Modifiers { shift: true, ..Default::default() };
    let decision = evaluate(&config(), &target, &mods);
    assert_eq!(launched(decision), ("vscode".to_string(), Some(1)));
}

#[test]
fn url_routes_by_host_glob() {
    let target = Target::parse("https://wiki.corp.example.com/page");
    let decision = evaluate(&config(), &target, &Modifiers::default());
    assert_eq!(launched(decision), ("chrome-work".to_string(), Some(0)));
}

#[test]
fn url_routes_by_url_glob() {
    let target = Target::parse("https://github.com/myorg/repo/pull/1");
    let decision = evaluate(&config(), &target, &Modifiers::default());
    assert_eq!(launched(decision), ("chrome-work".to_string(), Some(1)));
}

#[test]
fn url_falls_back_to_default() {
    let target = Target::parse("https://example.org/");
    let decision = evaluate(&config(), &target, &Modifiers::default());
    assert_eq!(launched(decision), ("firefox".to_string(), None));
}

#[test]
fn drive_letter_is_not_a_url_scheme() {
    assert!(matches!(Target::parse(r"C:\a.md"), Target::File { .. }));
    assert!(matches!(Target::parse("C:/a.md"), Target::File { .. }));
    assert!(matches!(Target::parse("https://a.example/x"), Target::Url { .. }));
}

#[test]
fn pick_rule_falls_back_to_all_apps_when_table_has_no_refs() {
    let target = Target::parse(r"C:\site\index.html");
    let mods = Modifiers { ctrl: true, ..Default::default() };
    match evaluate(&config(), &target, &mods) {
        Decision::Pick { candidates, rule_index, .. } => {
            assert_eq!(rule_index, Some(0));
            assert_eq!(candidates.len(), 4);
        }
        other => panic!("Pick を期待: {other:?}"),
    }
}

#[test]
fn unknown_extension_falls_back_to_pick_all_apps() {
    let target = Target::parse(r"C:\a.xyz");
    match evaluate(&config(), &target, &Modifiers::default()) {
        Decision::Pick { candidates, rule_index, .. } => {
            assert_eq!(rule_index, None);
            assert_eq!(candidates.len(), 4);
        }
        other => panic!("Pick を期待: {other:?}"),
    }
}

#[test]
fn no_match_without_default_falls_back_to_pick() {
    let target = Target::parse(r"C:\site\index.html");
    assert!(matches!(
        evaluate(&config(), &target, &Modifiers::default()),
        Decision::Pick { rule_index: None, .. }
    ));
}

#[test]
fn empty_apps_is_no_route() {
    let config = Config::default_config();
    let target = Target::parse(r"C:\a.md");
    assert!(matches!(
        evaluate(&config, &target, &Modifiers::default()),
        Decision::NoRoute { .. }
    ));
}

#[test]
fn command_line_substitutes_target() {
    let config = config();
    let (program, args) = build_command_line(
        config.apps.get("chrome-work").unwrap(),
        "https://x.example/",
        &EnvSnapshot::empty(),
    );
    assert_eq!(program, "chrome.exe");
    assert_eq!(args, vec!["--profile-directory=Profile 1", "https://x.example/"]);
}

#[test]
fn pick_uses_explicit_candidates_when_configured() {
    let mut config = Config::default_config();
    config.apps.insert("vscode".to_string(), app(r"C:\Tools\Code.exe", &[]));
    config.apps.insert("chrome".to_string(), app("chrome.exe", &[]));
    config.apps.insert("firefox".to_string(), app("firefox.exe", &[]));
    let mut ext: NameMap<RouteTable> = NameMap::new();
    ext.insert(
        "html".to_string(),
        RouteTable {
            default: None,
            rules: vec![Rule { modifier: some("ctrl"), pick: true, ..Default::default() }],
            candidates: Some(vec!["chrome".to_string(), "firefox".to_string()]),
        },
    );
    config.ext = ext;
    let target = Target::parse(r"C:\site\index.html");
    let mods = Modifiers { ctrl: true, ..Default::default() };
    match evaluate(&config, &target, &mods) {
        Decision::Pick { candidates, rule_index, .. } => {
            assert_eq!(rule_index, Some(0));
            assert_eq!(candidates, vec!["chrome".to_string(), "firefox".to_string()]);
        }
        other => panic!("Pick を期待: {other:?}"),
    }
}
