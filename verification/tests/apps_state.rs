use winassoc::config::AppDef;
use winassoc::name_map::NameMap;
use winassoc::settings::apps::AppsState;
use winassoc::settings::data::AppEntry;

#[test]
fn add_pushes_to_model_and_entries() {
    let mut state = AppsState::from_apps(&NameMap::new());
    state.add("newapp".to_string());
    assert_eq!(state.model.len(), 1);
    assert!(state.entries.contains_key("newapp"));
}

#[test]
fn remove_returns_name_and_removes() {
    let mut apps: NameMap<AppDef> = NameMap::new();
    apps.insert("a".to_string(), AppDef { cmd: "x".into(), args: vec![], label: None, ..Default::default() });
    let mut state = AppsState::from_apps(&apps);
    assert_eq!(state.remove(0), Some("a".to_string()));
    assert_eq!(state.model.len(), 0);
    assert!(state.entries.is_empty());
}

#[test]
fn update_replaces_entry() {
    let mut apps: NameMap<AppDef> = NameMap::new();
    apps.insert("x".to_string(), AppDef { cmd: "old".into(), args: vec![], label: None, ..Default::default() });
    let mut state = AppsState::from_apps(&apps);
    state.update(0, AppEntry { name: "x".into(), cmd: "new".into(), ..Default::default() });
    assert_eq!(state.entries.get("x").unwrap().cmd, "new");
}

#[test]
fn remove_out_of_range_changes_nothing() {
    let mut apps: NameMap<AppDef> = NameMap::new();
    apps.insert("a".to_string(), AppDef { cmd: "x".into(), args: vec![], label: None });
    let mut state = AppsState::from_apps(&apps);
    assert_eq!(state.remove(3), None);
    assert_eq!(state.model.len(), 1);
    assert!(state.entries.contains_key("a"));
}

#[test]
fn remove_undoes_add() {
    let mut apps: NameMap<AppDef> = NameMap::new();
    apps.insert("a".to_string(), AppDef { cmd: "x".into(), args: vec![], label: None });
    let mut state = AppsState::from_apps(&apps);
    state.add("b".to_string());
    assert_eq!(state.remove(1), Some("b".to_string()));
    assert_eq!(state.model.len(), 1);
    assert_eq!(state.model[0].name, "a");
    assert_eq!(state.entries.len(), 1);
    assert!(state.entries.contains_key("a"));
}

#[test]
fn to_config_gives_the_definitions_by_name() {
    let mut apps: NameMap<AppDef> = NameMap::new();
    apps.insert("b".to_string(), AppDef { cmd: "b.exe".into(), args: vec!["{target}".into()], label: None });
    apps.insert("a".to_string(), AppDef { cmd: "a.exe".into(), args: vec![], label: Some("A".into()) });
    let mut state = AppsState::from_apps(&apps);
    assert_eq!(state.model[0].name, "a");
    assert_eq!(state.model[1].name, "b");
    state.update(5, AppEntry { name: "c".into(), cmd: "c.exe".into(), label: "".into(), ..Default::default() });
    assert_eq!(state.model.len(), 2);
    let out = state.to_config();
    assert_eq!(out.keys(), vec!["a".to_string(), "b".to_string(), "c".to_string()]);
    assert_eq!(out.get("a").unwrap().label, Some("A".to_string()));
    assert_eq!(out.get("b").unwrap().args, vec!["{target}".to_string()]);
    assert_eq!(out.get("c").unwrap().cmd, "c.exe");
    assert_eq!(out.get("c").unwrap().label, None);
}

#[test]
fn duplicate_appends_a_named_copy() {
    let mut apps: NameMap<AppDef> = NameMap::new();
    apps.insert(
        "code".to_string(),
        AppDef { cmd: "code.exe".into(), args: vec!["-n".into()], label: Some("Code".into()) },
    );
    let mut state = AppsState::from_apps(&apps);
    assert_eq!(state.duplicate(0), Some("code_copy".to_string()));
    assert_eq!(state.model.len(), 2);
    assert_eq!(state.model[1].name, "code_copy");
    assert_eq!(state.model[1].cmd, "code.exe");
    assert_eq!(state.model[1].args, vec!["-n".to_string()]);
    assert_eq!(state.model[1].label, "Code");
    let def = state.entries.get("code_copy").unwrap();
    assert_eq!(def.cmd, "code.exe");
    assert_eq!(def.label, Some("Code".to_string()));
    assert_eq!(state.duplicate(5), None);
    assert_eq!(state.model.len(), 2);
}
