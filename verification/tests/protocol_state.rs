use winassoc::config::{RouteTable, Rule};
use winassoc::name_map::NameMap;
use winassoc::settings::data::RuleEntry;
use winassoc::settings::protocol::ProtocolState;

fn sample() -> ProtocolState {
    let mut p: NameMap<RouteTable> = NameMap::new();
    p.insert(
        "https".to_string(),
        RouteTable {
            default: Some("firefox".into()),
            rules: vec![
                Rule { host: Some("*.corp".into()), app: Some("chrome".into()), ..Default::default() },
                Rule { modifier: Some("shift".into()), pick: true, ..Default::default() },
            ],
            candidates: Some(vec!["chrome".into(), "firefox".into()]),
        },
    );
    p.insert("mailto".to_string(), RouteTable { default: None, rules: vec![], candidates: None });
    ProtocolState::from_protocol(&p)
}

fn rules_of(s: &ProtocolState, key: &str) -> Vec<String> {
    s.rules_models.get(key).unwrap().iter().map(|r| format!("{}|{}|{}", r.host, r.modifier, r.app)).collect()
}

#[test]
fn from_protocol_builds_records_and_lists() {
    let s = sample();
    assert_eq!(s.route_model.len(), 2);
    assert_eq!(s.route_model[0].key, "https");
    assert_eq!(s.route_model[0].default, "firefox");
    assert_eq!(s.route_model[1].key, "mailto");
    assert_eq!(s.candidates_models.get("https").unwrap(), &vec!["chrome".to_string(), "firefox".to_string()]);
    assert!(s.candidates_models.get("mailto").unwrap().is_empty());
    assert_eq!(rules_of(&s, "https"), vec!["*.corp||chrome", "|shift|"]);
}

#[test]
fn add_route_then_remove_route() {
    let mut s = sample();
    s.add_route("ftp".to_string());
    assert_eq!(s.route_model.len(), 3);
    assert_eq!(s.route_model[2].key, "ftp");
    assert!(s.rules_models.contains_key("ftp"));
    assert_eq!(s.remove_route(2), Some("ftp".to_string()));
    assert_eq!(s.route_model.len(), 2);
    assert!(!s.rules_models.contains_key("ftp"));
    assert!(!s.candidates_models.contains_key("ftp"));
    assert_eq!(s.remove_route(7), None);
}

#[test]
fn rule_edits_refresh_the_record() {
    let mut s = sample();
    s.add_rule("https");
    assert_eq!(s.route_model[0].rules.len(), 3);
    assert_eq!(s.route_model[0].default, "firefox");
    s.move_rule("https", 0, 1);
    assert_eq!(rules_of(&s, "https"), vec!["|shift|", "*.corp||chrome", "||"]);
    assert_eq!(s.route_model[0].rules[1].app, "chrome");
    s.move_rule("https", 1, -1);
    assert_eq!(rules_of(&s, "https"), vec!["*.corp||chrome", "|shift|", "||"]);
    s.move_rule("https", 0, -1);
    assert_eq!(rules_of(&s, "https"), vec!["*.corp||chrome", "|shift|", "||"]);
    s.update_rule("https", 2, RuleEntry { app: "edge".into(), ..Default::default() });
    assert_eq!(s.route_model[0].rules[2].app, "edge");
    s.remove_rule("https", 0);
    assert_eq!(rules_of(&s, "https"), vec!["|shift|", "||edge"]);
    s.remove_rule("https", 9);
    assert_eq!(s.route_model[0].rules.len(), 2);
}

#[test]
fn candidates_stay_distinct() {
    let mut s = sample();
    s.add_candidate("https", "chrome".to_string());
    assert_eq!(s.route_model[0].candidates, vec!["chrome", "firefox"]);
    s.add_candidate("https", "edge".to_string());
    assert_eq!(s.route_model[0].candidates, vec!["chrome", "firefox", "edge"]);
    s.remove_candidate("https", "firefox".to_string());
    assert_eq!(s.route_model[0].candidates, vec!["chrome", "edge"]);
    s.remove_candidate("https", "nothing".to_string());
    assert_eq!(s.route_model[0].candidates, vec!["chrome", "edge"]);
}

#[test]
fn update_default_and_to_config() {
    let mut s = sample();
    s.update_default("mailto", "thunderbird".to_string());
    s.add_candidate("mailto", "thunderbird".to_string());
    let out = s.to_config();
    assert_eq!(out.keys(), vec!["https".to_string(), "mailto".to_string()]);
    let mail = out.get("mailto").unwrap();
    assert_eq!(mail.default, Some("thunderbird".to_string()));
    assert_eq!(mail.candidates, Some(vec!["thunderbird".to_string()]));
    let https = out.get("https").unwrap();
    assert_eq!(https.default, Some("firefox".to_string()));
    assert_eq!(https.rules.len(), 2);
    assert_eq!(https.rules[0].host, Some("*.corp".to_string()));
    assert_eq!(https.rules[0].app, Some("chrome".to_string()));
    assert!(https.rules[1].pick);
}

#[test]
fn edits_of_an_unknown_scheme_leave_the_records() {
    let mut s = sample();
    s.add_rule("gopher");
    s.add_candidate("gopher", "x".to_string());
    s.update_default("gopher", "x".to_string());
    assert_eq!(s.route_model.len(), 2);
    assert!(!s.rules_models.contains_key("gopher"));
    assert!(!s.candidates_models.contains_key("gopher"));
}
