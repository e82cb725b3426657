use winassoc::config::{AppDef, RouteTable, Rule};
use winassoc::name_map::NameMap;
use winassoc::settings::data::{
    app_entry_to_def, build_app_entries, build_route_entries, route_entry_to_table, rule_entry_to_rule,
    rule_to_rule_entry, AppEntry, RouteEntry, RuleEntry,
};

#[test]
fn app_entry_round_trip() {
    let entry = AppEntry {
        name: "test".into(),
        cmd: "C:\\bin\\app.exe".into(),
        args: vec!["--foo".into(), "{target}".into()],
        label: "Label".into(),
    };
    let def = app_entry_to_def(&entry);
    assert_eq!(def.cmd, "C:\\bin\\app.exe");
    assert_eq!(def.args, vec!["--foo", "{target}"]);
    assert_eq!(def.label, Some("Label".to_string()));
}

#[test]
fn empty_label_becomes_none() {
    let entry = AppEntry { label: "".into(), ..Default::default() };
    assert_eq!(app_entry_to_def(&entry).label, None);
}

#[test]
fn rule_entry_to_rule_with_pick() {
    let entry = RuleEntry { pick: true, modifier: "shift".into(), ..Default::default() };
    let rule = rule_entry_to_rule(&entry);
    assert!(rule.pick);
    assert_eq!(rule.modifier, Some("shift".to_string()));
    assert_eq!(rule.app, None);
}

#[test]
fn rule_entry_to_rule_with_app() {
    let entry = RuleEntry { app: "vscode".into(), glob: "*.md".into(), ..Default::default() };
    let rule = rule_entry_to_rule(&entry);
    assert_eq!(rule.app, Some("vscode".to_string()));
    assert_eq!(rule.glob, Some("*.md".to_string()));
    assert!(!rule.pick);
}

#[test]
fn rule_to_entry_preserves_all_fields() {
    let rule = Rule {
        glob: Some("*.svg".into()),
        host: None,
        url: None,
        modifier: Some("shift".into()),
        app: Some("msedge".into()),
        pick: false,
    };
    let entry = rule_to_rule_entry(&rule);
    assert_eq!(entry.glob, "*.svg");
    assert_eq!(entry.modifier, "shift");
    assert_eq!(entry.app, "msedge");
    assert!(!entry.pick);
}

#[test]
fn build_route_entries_includes_rules_and_candidates() {
    let mut routes: NameMap<RouteTable> = NameMap::new();
    routes.insert(
        ".md".to_string(),
        RouteTable {
            default: Some("vscode".to_string()),
            rules: vec![Rule { pick: true, modifier: Some("shift".into()), ..Default::default() }],
            candidates: Some(vec!["vscode".to_string(), "zed".to_string()]),
        },
    );
    let entries = build_route_entries(&routes);
    assert_eq!(entries.len(), 1);
    assert_eq!(entries[0].key, ".md");
    assert_eq!(entries[0].default, "vscode");
    assert_eq!(entries[0].candidates, vec!["vscode", "zed"]);
    assert_eq!(entries[0].rules.len(), 1);
    assert!(entries[0].rules[0].pick);
}

#[test]
fn route_entry_to_table_preserves_candidates_default_and_rules() {
    let entry = RouteEntry {
        key: ".txt".into(),
        default: "hidemaru".into(),
        candidates: vec!["hidemaru".into(), "vscode".into()],
        rules: vec![RuleEntry { modifier: "shift".into(), pick: true, ..Default::default() }],
    };
    let table = route_entry_to_table(&entry);
    assert_eq!(table.default, Some("hidemaru".to_string()));
    assert_eq!(table.candidates, Some(vec!["hidemaru".to_string(), "vscode".to_string()]));
    assert_eq!(table.rules.len(), 1);
    assert!(table.rules[0].pick);
}

#[test]
fn build_app_entries_includes_label() {
    let mut apps: NameMap<AppDef> = NameMap::new();
    apps.insert("x".to_string(), AppDef { cmd: "c.exe".into(), args: vec![], label: Some("X".into()) });
    apps.insert(
        "y".to_string(),
        AppDef { cmd: "d.exe".into(), args: vec!["{target}".into()], label: None },
    );
    let entries = build_app_entries(&apps);
    assert_eq!(entries.len(), 2);
    let x = entries.iter().find(|e| e.name == "x").unwrap();
    assert_eq!(x.label, "X");
    let y = entries.iter().find(|e| e.name == "y").unwrap();
    assert_eq!(y.label, "");
    assert_eq!(y.args, vec!["{target}"]);
}

#[test]
fn empty_texts_turn_into_absent_values() {
    let entry = RouteEntry { key: "https".into(), ..Default::default() };
    let table = route_entry_to_table(&entry);
    assert_eq!(table.default, None);
    assert_eq!(table.candidates, None);
    assert!(table.rules.is_empty());
}

#[test]
fn rule_entry_survives_round_trip() {
    let entry = RuleEntry {
        glob: "*.md".into(),
        host: "".into(),
        url: "https://x/**".into(),
        modifier: "".into(),
        app: "vscode".into(),
        pick: false,
    };
    let back = rule_to_rule_entry(&rule_entry_to_rule(&entry));
    assert_eq!(back.glob, entry.glob);
    assert_eq!(back.host, entry.host);
    assert_eq!(back.url, entry.url);
    assert_eq!(back.modifier, entry.modifier);
    assert_eq!(back.app, entry.app);
    assert_eq!(back.pick, entry.pick);
}

#[test]
fn empty_candidate_list_is_not_kept_through_a_record() {
    let mut routes: NameMap<RouteTable> = NameMap::new();
    routes.insert(
        "md".to_string(),
        RouteTable { default: None, rules: vec![], candidates: Some(vec![]) },
    );
    let entries = build_route_entries(&routes);
    let table = route_entry_to_table(&entries[0]);
    assert_eq!(table.candidates, None);
}
