use winassoc::config::{AppDef, Config, RouteTable, Rule};
use winassoc::name_map::NameMap;
use winassoc::settings::validation::{app_field_errors, route_field_errors, validate, ValidationError};

fn empty() -> Config {
    Config::default_config()
}

fn table(default: Option<&str>, rules: Vec<Rule>, candidates: Option<Vec<String>>) -> RouteTable {
    RouteTable { default: default.map(|s| s.to_string()), rules, candidates }
}

#[test]
fn default_config_is_valid() {
    assert_eq!(validate(&empty()).len(), 0);
}

#[test]
fn invalid_app_name_is_error() {
    let mut c = empty();
    c.apps.insert("with space".to_string(), AppDef::default());
    assert!(validate(&c).iter().any(|e| matches!(e, ValidationError::InvalidAppName(_))));
}

#[test]
fn empty_cmd_is_error() {
    let mut c = empty();
    c.apps.insert("ok".to_string(), AppDef::default());
    assert!(validate(&c).iter().any(|e| matches!(e, ValidationError::EmptyCmd(_))));
}

#[test]
fn unknown_default_app_is_error() {
    let mut c = empty();
    c.apps.insert("real".to_string(), AppDef { cmd: "x".into(), args: vec![], label: None });
    let mut ext: NameMap<RouteTable> = NameMap::new();
    ext.insert(".md".to_string(), table(Some("ghost"), vec![], None));
    c.ext = ext;
    assert!(validate(&c).iter().any(|e| matches!(e, ValidationError::UnknownDefaultApp { .. })));
}

#[test]
fn unknown_candidate_is_error() {
    let mut c = empty();
    c.apps.insert("real".to_string(), AppDef { cmd: "x".into(), args: vec![], label: None });
    let mut ext: NameMap<RouteTable> = NameMap::new();
    ext.insert(".md".to_string(), table(None, vec![], Some(vec!["ghost".into()])));
    c.ext = ext;
    assert!(validate(&c).iter().any(|e| matches!(e, ValidationError::UnknownCandidate { .. })));
}

#[test]
fn rule_with_pick_true_is_ok() {
    let mut c = empty();
    c.apps.insert("real".to_string(), AppDef { cmd: "x".into(), args: vec![], label: None });
    let mut ext: NameMap<RouteTable> = NameMap::new();
    ext.insert(".md".to_string(), table(None, vec![Rule { pick: true, ..Default::default() }], None));
    c.ext = ext;
    assert_eq!(validate(&c).len(), 0);
}

#[test]
fn rule_without_pick_and_app_is_error() {
    let mut c = empty();
    let mut ext: NameMap<RouteTable> = NameMap::new();
    ext.insert(".md".to_string(), table(None, vec![Rule::default()], None));
    c.ext = ext;
    assert!(validate(&c).iter().any(|e| matches!(e, ValidationError::RuleHasNoAction { .. })));
}

#[test]
fn rule_with_unknown_app_is_error() {
    let mut c = empty();
    c.apps.insert("real".to_string(), AppDef { cmd: "x".into(), args: vec![], label: None });
    let mut ext: NameMap<RouteTable> = NameMap::new();
    ext.insert(
        ".md".to_string(),
        table(None, vec![Rule { app: Some("ghost".into()), ..Default::default() }], None),
    );
    c.ext = ext;
    assert!(validate(&c).iter().any(|e| matches!(e, ValidationError::UnknownRuleApp { .. })));
}

#[test]
fn invalid_modifier_is_error() {
    let mut c = empty();
    let mut ext: NameMap<RouteTable> = NameMap::new();
    ext.insert(
        ".md".to_string(),
        table(None, vec![Rule { modifier: Some("hyper".into()), pick: true, ..Default::default() }], None),
    );
    c.ext = ext;
    assert!(validate(&c).iter().any(|e| matches!(e, ValidationError::InvalidModifier(_))));
}

#[test]
fn invalid_ext_key_fails() {
    let mut c = empty();
    let mut ext: NameMap<RouteTable> = NameMap::new();
    ext.insert("a/b".to_string(), table(None, vec![], None));
    c.ext = ext;
    assert!(validate(&c).iter().any(|e| matches!(e, ValidationError::InvalidExtKey(_))));
}

#[test]
fn valid_ext_key_passes() {
    let mut c = empty();
    let mut ext: NameMap<RouteTable> = NameMap::new();
    ext.insert("md".to_string(), table(None, vec![], None));
    ext.insert(".md".to_string(), table(None, vec![], None));
    c.ext = ext;
    assert_eq!(validate(&c).len(), 0);
}

#[test]
fn protocol_scheme_must_be_alphanumeric() {
    let mut c = empty();
    let mut proto: NameMap<RouteTable> = NameMap::new();
    proto.insert("ht tp".to_string(), table(None, vec![], None));
    c.protocol = proto;
    assert!(validate(&c).iter().any(|e| matches!(e, ValidationError::InvalidProtocolScheme(_))));
}

#[test]
fn empty_rule_and_empty_candidates_are_reported() {
    let mut c = empty();
    let mut proto: NameMap<RouteTable> = NameMap::new();
    proto.insert("https".to_string(), table(None, vec![Rule::default()], Some(vec![])));
    c.protocol = proto;
    let errors = validate(&c);
    assert_eq!(
        errors,
        vec![
            ValidationError::EmptyCandidates("https".into()),
            ValidationError::RuleHasNoAction { section: "protocol".into(), key: "https".into(), rule_idx: 0 },
            ValidationError::EmptyRule { section: "protocol".into(), key: "https".into(), rule_idx: 0 },
        ]
    );
}

#[test]
fn field_messages_come_from_the_last_matching_error() {
    let errors = vec![
        ValidationError::InvalidAppName("bad name".into()),
        ValidationError::EmptyCmd("bad name".into()),
        ValidationError::DuplicateAppName("bad name".into()),
        ValidationError::EmptyCmd("other".into()),
    ];
    let (name_err, cmd_err) = app_field_errors(&errors, "bad name");
    assert_eq!(name_err, "重複するアプリ名です");
    assert_eq!(cmd_err, "実行ファイルを入力してください");
    let (name_err, cmd_err) = app_field_errors(&errors, "fine");
    assert_eq!(name_err, "");
    assert_eq!(cmd_err, "");
}

#[test]
fn route_messages_match_section_and_key() {
    let errors = vec![
        ValidationError::UnknownDefaultApp { section: "ext".into(), key: "md".into(), app: "ghost".into() },
        ValidationError::UnknownCandidate { section: "protocol".into(), key: "md".into(), app: "x".into() },
        ValidationError::UnknownCandidate { section: "ext".into(), key: "md".into(), app: "spook".into() },
    ];
    let (default_err, candidates_err) = route_field_errors(&errors, "ext", "md");
    assert_eq!(default_err, "未定義のアプリ: ghost");
    assert_eq!(candidates_err, "候補に未定義のアプリ: spook");
    let (default_err, candidates_err) = route_field_errors(&errors, "protocol", "md");
    assert_eq!(default_err, "");
    assert_eq!(candidates_err, "候補に未定義のアプリ: x");
    let errors = vec![ValidationError::EmptyCandidates("md".into())];
    let (_, candidates_err) = route_field_errors(&errors, "protocol", "md");
    assert_eq!(candidates_err, "候補リストが空です");
}
