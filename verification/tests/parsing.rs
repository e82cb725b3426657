use winassoc::env::{env_var_refs, expand_env, EnvSnapshot};
use winassoc::glob::glob_match;
use winassoc::picker::{chosen_name, Candidate};
use winassoc::settings::management::{
    apply_outcome, run_apply, run_backup, run_doctor, run_restore, run_unregister, save_outcome,
};
use winassoc::settings::names::sanitize_app_name;
use winassoc::target::{file_name, key_is_down, modifiers_from_key_states, Modifiers, Target};

fn env() -> EnvSnapshot {
    EnvSnapshot {
        vars: vec![
            ("LOCALAPPDATA".to_string(), r"C:\Users\me\AppData\Local".to_string()),
            ("EMPTY".to_string(), "".to_string()),
        ],
    }
}

#[test]
fn variables_are_expanded_and_unknown_ones_kept() {
    assert_eq!(expand_env(r"%LOCALAPPDATA%\App\app.exe", &env()), r"C:\Users\me\AppData\Local\App\app.exe");
    assert_eq!(expand_env("%NOPE%\\x", &env()), "%NOPE%\\x");
    assert_eq!(expand_env("a%EMPTY%b", &env()), "ab");
    assert_eq!(expand_env("100% sure", &env()), "100% sure");
    assert_eq!(expand_env("%%", &env()), "%%");
    assert_eq!(expand_env("plain", &EnvSnapshot::empty()), "plain");
    assert_eq!(env_var_refs(r"%A%\%B%\%C"), vec!["A".to_string(), "B".to_string()]);
}

#[test]
fn globs_ignore_case_and_cross_separators() {
    assert!(glob_match("D:/Develop/**", "d:/develop/notes/a.md"));
    assert!(glob_match("*.corp.example.com", "wiki.CORP.example.com"));
    assert!(glob_match("*.md", "dir/sub/file.md"));
    assert!(!glob_match("*.md", "file.txt"));
    // a pattern that does not parse falls back to `*`
    assert!(glob_match("a[", "anything"));
}

#[test]
fn targets_are_files_or_urls() {
    match Target::parse(r"C:\Docs\Report.PDF") {
        Target::File { path, ext } => {
            assert_eq!(path, r"C:\Docs\Report.PDF");
            assert_eq!(ext, Some("pdf".to_string()));
        }
        _ => panic!("file expected"),
    }
    match Target::parse("HTTPS://Example.com:8080/a?b") {
        Target::Url { url, scheme, host } => {
            assert_eq!(url, "HTTPS://Example.com:8080/a?b");
            assert_eq!(scheme, "https");
            assert_eq!(host, Some("Example.com:8080".to_string()));
        }
        _ => panic!("url expected"),
    }
    // a URI without `://` is routed by its scheme too, with no host
    match Target::parse("mailto:someone@example.com") {
        Target::Url { url, scheme, host } => {
            assert_eq!(url, "mailto:someone@example.com");
            assert_eq!(scheme, "mailto");
            assert_eq!(host, None);
        }
        _ => panic!("url expected"),
    }
    // a single letter before `:` is a drive, not a scheme
    match Target::parse("C:notes.md") {
        Target::File { ext, .. } => assert_eq!(ext, Some("md".to_string())),
        _ => panic!("file expected"),
    }
    match Target::parse("https:///x") {
        Target::Url { host, .. } => assert_eq!(host, None),
        _ => panic!("url expected"),
    }
    match Target::parse(r"C:\dir\noext") {
        Target::File { ext, .. } => assert_eq!(ext, None),
        _ => panic!("file expected"),
    }
    assert_eq!(Target::parse("x.md").raw(), "x.md");
    assert_eq!(file_name(r"C:\a\b.txt"), Some("b.txt".to_string()));
}

#[test]
fn modifiers_from_names_and_key_states() {
    let m = Modifiers::from_names(&["Shift".to_string(), "ALT".to_string()]).unwrap();
    assert!(m.shift && m.alt && !m.ctrl);
    assert!(m.pressed("shift") && !m.pressed("ctrl") && !m.pressed("win"));
    let err = Modifiers::from_names(&["ctrl".to_string(), "Win".to_string()]).unwrap_err();
    assert_eq!(err.name, "win");
    assert!(key_is_down(i16::MIN));
    assert!(key_is_down(-32767));
    assert!(!key_is_down(1));
    assert!(!key_is_down(0));
    let k = modifiers_from_key_states(-1, 0, i16::MIN);
    assert!(k.shift && !k.ctrl && k.alt);
}

#[test]
fn app_names_from_file_names() {
    assert_eq!(sanitize_app_name("Visual Studio Code"), "visual_studio_code");
    assert_eq!(sanitize_app_name("__My--App__"), "my_app");
    assert_eq!(sanitize_app_name("Ünïcode App 2"), "ncode_app_2");
    assert_eq!(sanitize_app_name("___"), "");
}

#[test]
fn management_results() {
    let r = run_apply(Ok(()));
    assert!(r.success);
    assert_eq!(r.lines, vec!["✓ 適用に成功しました"]);
    let r = run_unregister(Err("denied".into()));
    assert!(!r.success);
    assert_eq!(r.lines, vec!["✗ 解除に失敗: denied"]);
    let clean = vec!["[アプリ]".to_string(), "  ok  a: a.exe".to_string()];
    assert_eq!(run_doctor(Ok((clean, 0))).lines, vec!["✓ 診断が完了しました (問題なし)"]);
    let report = vec![
        "[アプリ]".to_string(),
        "  ok  a: a.exe".to_string(),
        "  !!  b: 実行ファイルが見つかりません: b.exe".to_string(),
        "[拡張子]".to_string(),
        "  !!  .md: 未登録です (winassoc apply を実行してください)".to_string(),
    ];
    let r = run_doctor(Ok((report, 2)));
    assert!(r.success);
    assert_eq!(
        r.lines,
        vec![
            "  !!  b: 実行ファイルが見つかりません: b.exe",
            "  !!  .md: 未登録です (winassoc apply を実行してください)",
            "⚠ 診断が完了しました (問題 2 件)",
        ]
    );
    let r = run_doctor(Err("no access".into()));
    assert!(!r.success);
    assert_eq!(r.lines, vec!["✗ 診断に失敗: no access"]);
    assert_eq!(run_backup(Ok(r"C:\b.toml".into())).lines, vec![r"✓ バックアップ保存: C:\b.toml"]);
    assert_eq!(run_backup(Err("x".into())).lines, vec!["✗ バックアップ失敗: x"]);
    assert_eq!(run_restore(Err("y".into())).lines, vec!["✗ 復元に失敗: y"]);
}

#[test]
fn picker_choice_by_index() {
    let cands = vec![
        Candidate { name: "a".into(), label: None, program: "a.exe".into() },
        Candidate { name: "b".into(), label: Some("B".into()), program: "b.exe".into() },
    ];
    assert_eq!(chosen_name(&cands, 1), "b");
    assert_eq!(chosen_name(&cands, 2), "");
    assert_eq!(chosen_name(&cands, -1), "");
}

#[test]
fn glob_too_deep_to_compile_falls_back_to_star() {
    // nested alternates beyond the regex engine's nesting limit: globset
    // refuses the pattern, and the match falls back to `*`
    let pattern = format!("{}b{}", "{a,".repeat(300), "}".repeat(300));
    assert!(glob_match(&pattern, "anything"));
    assert!(glob_match("[", "x"));
}

#[test]
fn save_and_apply_are_gated_by_input_errors() {
    let errors = vec!["EmptyRule".to_string(), "UnknownApp".to_string()];
    let r = save_outcome(&errors, Ok(()));
    assert!(!r.success);
    assert_eq!(r.lines, vec!["✗ 保存できません。入力エラーがあります。", "・EmptyRule", "・UnknownApp"]);
    let r = apply_outcome(&errors, Ok(()), Ok(()));
    assert!(!r.success);
    assert_eq!(r.lines, vec!["✗ 適用できません。入力エラーがあります。", "・EmptyRule", "・UnknownApp"]);

    let none: Vec<String> = vec![];
    let r = save_outcome(&none, Ok(()));
    assert!(r.success);
    assert_eq!(r.lines, vec!["✓ 設定ファイルを保存しました"]);
    let r = save_outcome(&none, Err("disk full".into()));
    assert!(!r.success);
    assert_eq!(r.lines, vec!["✗ 保存失敗: disk full"]);

    let r = apply_outcome(&none, Ok(()), Ok(()));
    assert!(r.success);
    assert_eq!(r.lines, vec!["✓ 設定ファイルを保存しました", "✓ 適用に成功しました"]);
    let r = apply_outcome(&none, Ok(()), Err("denied".into()));
    assert!(!r.success);
    assert_eq!(r.lines, vec!["✓ 設定ファイルを保存しました", "✗ 適用に失敗: denied"]);
    let r = apply_outcome(&none, Err("disk full".into()), Ok(()));
    assert!(!r.success);
    assert_eq!(r.lines, vec!["✗ 保存失敗: disk full"]);
}

#[test]
fn text_without_percent_is_not_expanded() {
    let env = EnvSnapshot { vars: vec![("X".to_string(), "1".to_string())] };
    assert_eq!(expand_env(r"C:\X\y.exe", &env), r"C:\X\y.exe");
    assert_eq!(expand_env("a%FOO%b", &env), "a%FOO%b");
    assert_eq!(expand_env(r"%X%\y", &env), r"1\y");
    assert_eq!(expand_env("100%", &env), "100%");
}
