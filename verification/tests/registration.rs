use winassoc::config::{AppDef, Config, RouteTable};
use winassoc::env::EnvSnapshot;
use winassoc::registration::{apply_plan_head, apply_plan_tail, RegStep};

fn describe(steps: &[RegStep]) -> Vec<String> {
    steps
        .iter()
        .map(|s| match s {
            RegStep::Key(k) => format!("key {k}"),
            RegStep::Value { key, name, value } => format!("set {key} [{name}] = {value}"),
            RegStep::Say(line) => format!("say {line}"),
            RegStep::Notify => "notify".to_string(),
        })
        .collect()
}

fn config() -> Config {
    let mut c = Config::default_config();
    c.apps.insert("edit".into(), AppDef { cmd: r"%SystemRoot%\notepad.exe".into(), args: vec![], label: None });
    c.ext.insert("txt".into(), RouteTable { default: Some("edit".into()), rules: vec![], candidates: None });
    c.protocol.insert("https".into(), RouteTable { default: Some("edit".into()), rules: vec![], candidates: None });
    c.protocol.insert("slack".into(), RouteTable { default: Some("edit".into()), rules: vec![], candidates: None });
    c
}

#[test]
fn first_steps_register_extensions_and_the_browser() {
    let env = EnvSnapshot { vars: vec![("SystemRoot".into(), r"C:\Windows".into())] };
    let steps = apply_plan_head(&config(), "CMD", "BLANK", &env);
    assert_eq!(
        describe(&steps),
        vec![
            r"key Software\Classes",
            r"set Software\Classes\WinAssoc.txt [] = .txt (winassoc ルーター)",
            r"set Software\Classes\WinAssoc.txt\DefaultIcon [] = C:\Windows\notepad.exe,0",
            r"set Software\Classes\WinAssoc.txt\shell\open\command [] = CMD",
            r"set Software\Classes\.txt [] = WinAssoc.txt",
            r"set Software\Classes\.txt\OpenWithProgids [WinAssoc.txt] = ",
            "say 登録: .txt → WinAssoc.txt",
            r"set Software\Classes\WinAssoc.Url [] = WinAssoc URL ルーター",
            r"set Software\Classes\WinAssoc.Url\shell\open\command [] = CMD",
            r"set Software\Clients\StartMenuInternet\WinAssoc [] = WinAssoc",
            r"set Software\Clients\StartMenuInternet\WinAssoc\shell\open\command [] = BLANK",
            r"set Software\Clients\StartMenuInternet\WinAssoc\Capabilities [ApplicationName] = WinAssoc",
            r"set Software\Clients\StartMenuInternet\WinAssoc\Capabilities [ApplicationDescription] = URL をルールベースで振り分けるルーター",
        ]
    );
}

#[test]
fn remaining_steps_respect_foreign_handlers() {
    let caps = r"Software\Clients\StartMenuInternet\WinAssoc\Capabilities";
    let steps = apply_plan_tail(&config(), "CMD", &vec![None, Some("\"C:\\slack.exe\" \"%1\"".into())]);
    assert_eq!(
        describe(&steps),
        vec![
            format!(r"set {caps}\URLAssociations [https] = WinAssoc.Url"),
            "say 登録: https: → WinAssoc.Url".to_string(),
            format!(r"set {caps}\URLAssociations [slack] = WinAssoc.Url"),
            "say   注意: slack: は既存ハンドラがあるため Classes は変更しません (\"C:\\slack.exe\" \"%1\")".to_string(),
            "say 登録: slack: → WinAssoc.Url".to_string(),
            format!(r"key {caps}\FileAssociations"),
            format!(r"set {caps}\FileAssociations [.txt] = WinAssoc.txt"),
            format!(r"set Software\RegisteredApplications [WinAssoc] = {caps}"),
            "notify".to_string(),
            "say ".to_string(),
            "say 登録完了。http/https など UserChoice 保護された既定の最終確定は".to_string(),
            "say   start ms-settings:defaultapps".to_string(),
            "say を開いて WinAssoc を選択してください (winassoc doctor で未確定項目を確認できます)".to_string(),
        ]
    );
}

#[test]
fn schemes_without_a_handler_are_written_to_classes() {
    let steps = apply_plan_tail(&config(), "CMD", &vec![None, None]);
    let lines = describe(&steps);
    assert!(lines.contains(&r"set Software\Classes\slack [] = URL:slack (winassoc ルーター)".to_string()));
    assert!(lines.contains(&r"set Software\Classes\slack [URL Protocol] = ".to_string()));
    assert!(lines.contains(&r"set Software\Classes\slack\shell\open\command [] = CMD".to_string()));
    assert!(!lines.iter().any(|l| l.starts_with(r"set Software\Classes\https")));
}

#[test]
fn without_schemes_only_extensions_are_registered() {
    let mut c = config();
    c.protocol = winassoc::name_map::NameMap::new();
    let head = apply_plan_head(&c, "CMD", "BLANK", &EnvSnapshot::empty());
    assert_eq!(head.len(), 7);
    let tail = apply_plan_tail(&c, "CMD", &vec![]);
    assert_eq!(tail.len(), 5);
    assert!(matches!(tail[0], RegStep::Notify));
}
