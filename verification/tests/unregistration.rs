use winassoc::config::{Config, RouteTable};
use winassoc::name_map::NameMap;
use winassoc::registry::{Backup, ExtBackup};
use winassoc::unregistration::{unregister_plan, UnregStep};

fn table() -> RouteTable {
    RouteTable { default: None, rules: vec![], candidates: None }
}

fn config() -> Config {
    let mut c = Config::default_config();
    c.ext.insert("md".to_string(), table());
    c.ext.insert("txt".to_string(), table());
    c.protocol.insert("https".to_string(), table());
    c.protocol.insert("slack".to_string(), table());
    c
}

fn describe(steps: &[UnregStep]) -> Vec<String> {
    steps
        .iter()
        .map(|s| match s {
            UnregStep::DeleteTree(k) => format!("tree {k}"),
            UnregStep::SetValue { key, name, value } => format!("set {key} [{name}] = {value}"),
            UnregStep::DeleteValue { key, name } => format!("del {key} [{name}]"),
            UnregStep::RemoveIfEmpty(k) => format!("empty? {k}"),
            UnregStep::Say(l) => format!("say {l}"),
            UnregStep::Notify => "notify".to_string(),
        })
        .collect()
}

#[test]
fn unregister_plan_restores_defaults_and_removes_own_keys() {
    let mut backup = Backup { created: "t".into(), ext: NameMap::new(), protocol: NameMap::new() };
    backup.ext.insert("md".into(), ExtBackup { class_default: Some("txtfile".into()), user_choice: None });
    let class_keys = vec!["WinAssoc.md".to_string(), ".md".to_string(), "WinAssoc.Url".to_string()];
    let ext_defaults = vec![Some("WinAssoc.md".to_string()), None];
    let scheme_commands = vec![
        Some("\"C:\\winassoc.exe\" open \"%1\"".to_string()),
        Some("\"C:\\winassoc.exe\" open \"%1\"".to_string()),
    ];
    let steps = unregister_plan(&config(), &class_keys, &ext_defaults, &Some(backup), &scheme_commands, true);
    assert_eq!(
        describe(&steps),
        vec![
            "tree Software\\Classes\\WinAssoc.md",
            "say 削除: ProgID WinAssoc.md",
            "tree Software\\Classes\\WinAssoc.Url",
            "say 削除: ProgID WinAssoc.Url",
            "set Software\\Classes\\.md [] = txtfile",
            "say 復元: .md の既定 ProgID",
            "del Software\\Classes\\.md\\OpenWithProgids [WinAssoc.md]",
            "empty? Software\\Classes\\.md",
            "empty? Software\\Classes\\.txt",
            "tree Software\\Classes\\slack",
            "say 削除: slack:",
            "tree Software\\Clients\\StartMenuInternet\\WinAssoc",
            "say 削除: ブラウザ登録 (StartMenuInternet)",
            "del Software\\RegisteredApplications [WinAssoc]",
            "notify",
            "say 登録解除が完了しました",
        ]
    );
}

#[test]
fn unregister_plan_without_backup_removes_the_default() {
    let ext_defaults = vec![Some("WinAssoc.md".to_string()), Some("txtfile".to_string())];
    let scheme_commands = vec![None, Some("\"C:\\slack.exe\" \"%1\"".to_string())];
    let steps = unregister_plan(&config(), &vec![], &ext_defaults, &None, &scheme_commands, false);
    assert_eq!(
        describe(&steps),
        vec![
            "del Software\\Classes\\.md []",
            "say 復元: .md の既定 ProgID",
            "del Software\\Classes\\.md\\OpenWithProgids [WinAssoc.md]",
            "empty? Software\\Classes\\.md",
            "del Software\\Classes\\.txt\\OpenWithProgids [WinAssoc.txt]",
            "empty? Software\\Classes\\.txt",
            "del Software\\RegisteredApplications [WinAssoc]",
            "notify",
            "say 登録解除が完了しました",
        ]
    );
}
