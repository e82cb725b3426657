use winassoc::commands::{
    fallback_plan, launch_failure_message, list_lines, log_line, no_route_message, open, quote_args, target_label,
    test_report, OpenStep,
};
use winassoc::config::{AppDef, Config, RouteTable, Rule};
use winassoc::env::EnvSnapshot;
use winassoc::target::{Modifiers, Target};

fn some(s: &str) -> Option<String> {
    Some(s.to_string())
}

fn config() -> Config {
    let mut c = Config::default_config();
    c.apps.insert(
        "vscode".to_string(),
        AppDef { cmd: r"C:\Tools\Code.exe".into(), args: vec!["--reuse".into(), "{target}".into()], label: None },
    );
    c.apps.insert(
        "obsidian".to_string(),
        AppDef { cmd: r"%LOCALAPPDATA%\Obsidian\Obsidian.exe".into(), args: vec![], label: some("Vault") },
    );
    c.ext.insert(
        "md".to_string(),
        RouteTable {
            default: some("obsidian"),
            rules: vec![
                Rule { glob: some("D:/Develop/**"), app: some("vscode"), ..Default::default() },
                Rule { modifier: some("ctrl"), pick: true, ..Default::default() },
            ],
            candidates: None,
        },
    );
    c.protocol.insert(
        "https".to_string(),
        RouteTable { default: None, rules: vec![Rule { app: some("vscode"), ..Default::default() }], candidates: None },
    );
    c.validate().unwrap();
    c
}

fn env() -> EnvSnapshot {
    EnvSnapshot { vars: vec![("LOCALAPPDATA".to_string(), r"C:\Users\me\AppData\Local".to_string())] }
}

#[test]
fn open_launches_with_the_rule_that_matched() {
    match open(&config(), r"D:\Develop\My Notes\a.md", Modifiers::default(), &env()) {
        OpenStep::Launch(plan) => {
            assert_eq!(plan.app, "vscode");
            assert_eq!(plan.program, r"C:\Tools\Code.exe");
            assert_eq!(plan.args, vec!["--reuse".to_string(), r"D:\Develop\My Notes\a.md".to_string()]);
            assert_eq!(plan.matched, "rule#1");
        }
        other => panic!("unexpected {other:?}"),
    }
}

#[test]
fn open_expands_variables_and_uses_the_default() {
    match open(&config(), r"C:\notes\a.md", Modifiers::default(), &env()) {
        OpenStep::Launch(plan) => {
            assert_eq!(plan.app, "obsidian");
            assert_eq!(plan.program, r"C:\Users\me\AppData\Local\Obsidian\Obsidian.exe");
            assert_eq!(plan.args, vec![r"C:\notes\a.md".to_string()]);
            assert_eq!(plan.matched, "default");
        }
        other => panic!("unexpected {other:?}"),
    }
}

#[test]
fn open_hands_candidates_to_the_picker() {
    let mods = Modifiers { ctrl: true, ..Default::default() };
    match open(&config(), r"C:\notes\a.md", mods, &env()) {
        OpenStep::Pick { title, candidates, timeout_ms } => {
            assert_eq!(title, "a.md");
            assert_eq!(timeout_ms, 5000);
            let names: Vec<&str> = candidates.iter().map(|c| c.name.as_str()).collect();
            assert_eq!(names, vec!["obsidian", "vscode"]);
            assert_eq!(candidates[0].label, some("Vault"));
            assert_eq!(candidates[0].program, r"C:\Users\me\AppData\Local\Obsidian\Obsidian.exe");
        }
        other => panic!("unexpected {other:?}"),
    }
}

#[test]
fn open_without_apps_is_no_route() {
    assert!(matches!(
        open(&Config::default_config(), "https://a.example/", Modifiers::default(), &EnvSnapshot::empty()),
        OpenStep::NoRoute { .. }
    ));
}

#[test]
fn dry_run_describes_a_launch() {
    let lines = test_report(&config(), "https://a.example/x y", &vec![], &env()).unwrap();
    assert_eq!(
        lines,
        vec![
            "対象: https://a.example/x y (URL, プロトコル: https, ホスト: a.example)".to_string(),
            "判定: ルール #1 に一致 → vscode".to_string(),
            "起動: \"C:\\Tools\\Code.exe\" --reuse \"https://a.example/x y\"".to_string(),
        ]
    );
}

#[test]
fn dry_run_names_modifiers_and_the_picker() {
    let lines = test_report(&config(), r"C:\x\b.MD", &vec!["Ctrl".to_string()], &env()).unwrap();
    assert_eq!(
        lines,
        vec![
            r"対象: C:\x\b.MD (ファイル, 拡張子: .md)".to_string(),
            "修飾キー: Ctrl".to_string(),
            "判定: ルール #2 に一致 → ピッカー表示".to_string(),
            "候補: obsidian, vscode".to_string(),
        ]
    );
}

#[test]
fn dry_run_refuses_unknown_modifier() {
    let err = test_report(&config(), "a.md", &vec!["shift".to_string(), "Hyper".to_string()], &env()).unwrap_err();
    assert_eq!(err.name, "hyper");
    assert_eq!(err.message(), "不明な修飾キー: hyper (shift / ctrl / alt)");
}

#[test]
fn list_shows_apps_and_routes() {
    let lines = list_lines(&config());
    assert_eq!(
        lines,
        vec![
            "アプリ定義 (2):".to_string(),
            r"  obsidian (Vault) → %LOCALAPPDATA%\Obsidian\Obsidian.exe".to_string(),
            r"  vscode → C:\Tools\Code.exe".to_string(),
            "".to_string(),
            "拡張子ルート (1):".to_string(),
            "  .md".to_string(),
            "    #1 glob = 'D:/Develop/**' → vscode".to_string(),
            "    #2 modifier = ctrl → ピッカー表示".to_string(),
            "    default → obsidian".to_string(),
            "".to_string(),
            "プロトコルルート (1):".to_string(),
            "  https".to_string(),
            "    #1 (常に) → vscode".to_string(),
            "    default → (なし → ピッカー)".to_string(),
        ]
    );
}

#[test]
fn labels_are_shortened_past_48_characters() {
    let long = format!("https://example.com/{}", "a".repeat(40));
    let label = target_label(&Target::parse(&long));
    assert_eq!(label.chars().count(), 46);
    assert!(label.ends_with('…'));
    assert!(label.starts_with("https://example.com/aaaa"));
    assert_eq!(target_label(&Target::parse(r"C:\dir\file.txt")), "file.txt");
}

#[test]
fn arguments_with_spaces_are_quoted() {
    assert_eq!(quote_args(&vec!["a".to_string(), "b c".to_string(), "".to_string()]), "a \"b c\" ");
}

#[test]
fn log_and_error_texts() {
    assert_eq!(log_line("2024-01-01 00:00:00", "a.md", "rule#1", "vscode", "ok"), "2024-01-01 00:00:00\ta.md\trule#1\tvscode\tok");
    assert_eq!(launch_failure_message("x.exe", "not found"), "起動に失敗しました: x.exe: not found");
    assert_eq!(no_route_message("アプリが未定義"), "ルートがありません: アプリが未定義");
}

#[test]
fn failed_launch_falls_back_to_the_table_default() {
    let c = config();
    let target = r"D:\Develop\a.md";
    let plan = fallback_plan(&c, target, "vscode", &env()).expect("fallback expected");
    assert_eq!(plan.app, "obsidian");
    assert_eq!(plan.program, r"C:\Users\me\AppData\Local\Obsidian\Obsidian.exe");
    assert_eq!(plan.args, vec![target.to_string()]);
    assert_eq!(plan.matched, "fallback");
    // the default itself failed: nothing else to try
    assert!(fallback_plan(&c, target, "obsidian", &env()).is_none());
    // no default in the table, or no table
    assert!(fallback_plan(&c, "https://example.org/", "vscode", &env()).is_none());
    assert!(fallback_plan(&c, r"C:\x\a.pdf", "vscode", &env()).is_none());
}
