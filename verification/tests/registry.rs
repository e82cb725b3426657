use winassoc::name_map::NameMap;
use winassoc::registry::{
    backup_class_default, backup_file_name, backup_user_choice, check_restorable, default_icon_value, default_restore, doctor_report,
    ext_key_removable, is_own_command, is_own_progid, owns_scheme, progid_description, progid_for_ext,
    restore_default, saved_class_default, scheme_description, scheme_registration, shim_command_for,
    user_choice_note, AppCheck, Backup, DefaultRestore, ExtBackup, ExtCheck, SchemeCheck,
    SchemeRegistration,
};

#[test]
fn names_and_commands() {
    assert_eq!(progid_for_ext("md"), "WinAssoc.md");
    assert_eq!(progid_description("md"), ".md (winassoc ルーター)");
    assert_eq!(scheme_description("slack"), "URL:slack (winassoc ルーター)");
    assert_eq!(default_icon_value(r"C:\a.exe"), r"C:\a.exe,0");
    assert_eq!(
        shim_command_for(r"C:\bin\winassoc-open.exe", true, "%1"),
        "\"C:\\bin\\winassoc-open.exe\" \"%1\""
    );
    assert_eq!(
        shim_command_for(r"C:\bin\winassoc.exe", false, "about:blank"),
        "\"C:\\bin\\winassoc.exe\" open \"about:blank\""
    );
    assert_eq!(backup_file_name("20240101-120000"), "backup-20240101-120000.toml");
}

#[test]
fn own_keys_and_commands() {
    assert!(is_own_progid("WinAssoc.md"));
    assert!(!is_own_progid("winassoc.md"));
    assert!(is_own_command("\"C:\\bin\\winassoc-open.exe\" \"%1\""));
    assert!(!is_own_command("\"C:\\Program Files\\Slack\\slack.exe\" \"%1\""));
}

#[test]
fn saved_default_keeps_foreign_values_only() {
    assert_eq!(saved_class_default(Some("txtfile".into())), Some("txtfile".to_string()));
    assert_eq!(saved_class_default(Some("WinAssoc.txt".into())), None);
    assert_eq!(saved_class_default(Some("".into())), None);
    assert_eq!(saved_class_default(None), None);
}

#[test]
fn backup_keeps_the_default_from_before_the_first_apply() {
    // first apply: the user's default is saved
    let first = backup_class_default(Some("txtfile".into()), None);
    assert_eq!(first, Some("txtfile".to_string()));
    // second apply: the default is now this tool's ProgID; the earlier value stays
    let second = backup_class_default(Some("WinAssoc.md".into()), Some(first.clone()));
    assert_eq!(second, Some("txtfile".to_string()));
    // unregister then puts it back
    match default_restore("WinAssoc.md", "WinAssoc.md", &second) {
        DefaultRestore::Restore(v) => assert_eq!(v, "txtfile"),
        _ => panic!("restore expected"),
    }
    // own ProgID with no earlier backup: nothing to keep
    assert_eq!(backup_class_default(Some("WinAssoc.md".into()), None), None);
    assert_eq!(backup_class_default(Some("WinAssoc.md".into()), Some(None)), None);
    // a foreign default replaces what an earlier backup held
    assert_eq!(backup_class_default(Some("mdfile".into()), Some(Some("txtfile".into()))), Some("mdfile".to_string()));
    assert_eq!(backup_class_default(None, Some(Some("txtfile".into()))), None);
    assert_eq!(backup_class_default(Some("".into()), None), None);
}

#[test]
fn backup_keeps_the_user_choice_from_before_the_first_apply() {
    assert_eq!(backup_user_choice(Some("VSCode.md".into()), None), Some("VSCode.md".to_string()));
    assert_eq!(
        backup_user_choice(Some("WinAssoc.md".into()), Some(Some("VSCode.md".into()))),
        Some("VSCode.md".to_string())
    );
    assert_eq!(backup_user_choice(Some("WinAssoc.md".into()), None), None);
    assert_eq!(backup_user_choice(None, Some(Some("VSCode.md".into()))), None);
}

#[test]
fn schemes_are_registered_unless_foreign_or_web() {
    assert_eq!(scheme_registration("https", None), SchemeRegistration::Skip);
    assert_eq!(scheme_registration("slack", Some("\"C:\\slack.exe\" \"%1\"")), SchemeRegistration::KeepForeign);
    assert_eq!(scheme_registration("slack", Some("")), SchemeRegistration::Register);
    assert_eq!(scheme_registration("slack", Some("\"C:\\winassoc.exe\" open \"%1\"")), SchemeRegistration::Register);
    assert_eq!(scheme_registration("slack", None), SchemeRegistration::Register);
    assert!(owns_scheme("slack", "\"C:\\winassoc.exe\" open \"%1\""));
    assert!(!owns_scheme("http", "\"C:\\winassoc.exe\" open \"%1\""));
    assert!(!owns_scheme("slack", "\"C:\\slack.exe\" \"%1\""));
}

#[test]
fn unregister_restores_or_removes_the_default() {
    assert!(matches!(
        default_restore("WinAssoc.md", "WinAssoc.md", &Some("markdownfile".into())),
        DefaultRestore::Restore(v) if v == "markdownfile"
    ));
    assert!(matches!(default_restore("WinAssoc.md", "WinAssoc.md", &None), DefaultRestore::Delete));
    assert!(matches!(default_restore("Other.md", "WinAssoc.md", &Some("x".into())), DefaultRestore::Leave));
}

#[test]
fn empty_ext_keys_are_removed() {
    assert!(ext_key_removable(0, 0, None));
    assert!(ext_key_removable(0, 1, Some((0, 0))));
    assert!(!ext_key_removable(0, 1, Some((1, 0))));
    assert!(!ext_key_removable(0, 1, None));
    assert!(!ext_key_removable(1, 0, None));
    assert!(!ext_key_removable(0, 2, Some((0, 0))));
}

#[test]
fn restore_decisions_and_notes() {
    assert!(matches!(restore_default(&Some("txtfile".into()), "WinAssoc.txt"), DefaultRestore::Restore(v) if v == "txtfile"));
    assert!(matches!(restore_default(&None, "WinAssoc.txt"), DefaultRestore::Delete));
    assert!(matches!(restore_default(&None, "txtfile"), DefaultRestore::Leave));
    assert_eq!(
        user_choice_note(".md", &Some("Obsidian.md".into())),
        Some("  参考: .md の UserChoice は Obsidian.md でした (必要なら設定アプリで再選択)".to_string())
    );
    assert_eq!(user_choice_note("https:", &Some("WinAssoc.Url".into())), None);
    assert_eq!(user_choice_note("https:", &None), None);
}

#[test]
fn empty_backup_cannot_be_restored() {
    let mut b = Backup { created: "now".into(), ext: NameMap::new(), protocol: NameMap::new() };
    assert_eq!(check_restorable(&b), Err("バックアップに復元対象がありません".to_string()));
    b.ext.insert("md".into(), ExtBackup { class_default: None, user_choice: None });
    assert_eq!(check_restorable(&b), Ok(()));
}

#[test]
fn doctor_reports_each_item_and_counts_problems() {
    let command = "\"C:\\bin\\winassoc-open.exe\" \"%1\"";
    let apps = vec![
        AppCheck { name: "code".into(), cmd: "code".into(), exists: false },
        AppCheck { name: "gone".into(), cmd: r"C:\gone.exe".into(), exists: false },
    ];
    let exts = vec![
        ExtCheck { ext: "md".into(), registered_cmd: command.into(), user_choice: Some("WinAssoc.md".into()) },
        ExtCheck { ext: "txt".into(), registered_cmd: "".into(), user_choice: None },
    ];
    let schemes = vec![SchemeCheck {
        scheme: "https".into(),
        user_choice: Some("ChromeHTML".into()),
        direct_cmd: "".into(),
    }];
    let (lines, problems) =
        doctor_report(r"C:\cfg\winassoc.toml", r"C:\bin\winassoc-open.exe", command, &apps, &exts, true, true, &schemes);
    assert_eq!(problems, 3);
    assert_eq!(
        lines,
        vec![
            r"設定ファイル: C:\cfg\winassoc.toml".to_string(),
            r"シム exe:     C:\bin\winassoc-open.exe".to_string(),
            "".to_string(),
            "[アプリ]".to_string(),
            "  ok  code: code".to_string(),
            r"  !!  gone: 実行ファイルが見つかりません: C:\gone.exe".to_string(),
            "".to_string(),
            "[拡張子]".to_string(),
            "  ok  .md: UserChoice = WinAssoc.md".to_string(),
            "  !!  .txt: 未登録です (winassoc apply を実行してください)".to_string(),
            "".to_string(),
            "[プロトコル]".to_string(),
            "  !!  https: UserChoice が ChromeHTML を指しています (設定アプリで WinAssoc を選択してください)".to_string(),
            "".to_string(),
            "3 件の問題があります。UserChoice 関連は以下で確定できます:".to_string(),
            "  start ms-settings:defaultapps".to_string(),
        ]
    );
}

#[test]
fn doctor_without_problems() {
    let (lines, problems) = doctor_report("c", "e", "x", &vec![], &vec![], true, false, &vec![]);
    assert_eq!(problems, 1);
    assert!(lines.contains(&"  !!  ブラウザ登録 (StartMenuInternet) がありません (winassoc apply を実行してください)".to_string()));
    let (lines, problems) = doctor_report("c", "e", "x", &vec![], &vec![], false, false, &vec![]);
    assert_eq!(problems, 0);
    assert_eq!(lines.last().unwrap(), "問題は見つかりませんでした");
}
