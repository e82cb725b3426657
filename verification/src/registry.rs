//! The decisions behind registering in HKCU, unregistering, diagnosing and
//! restoring: names and values to write, what to keep, what to report.
//! Reading and writing the registry is left to the caller.
use vstd::prelude::*;
use crate::name_map::NameMap;
use crate::text::{
    chars_of, concat2, concat3, contains_seq, decimal, find_seq, has_char, owned, starts_with,
    str_eq, usize_to_string, views, lemma_views_push, lemma_find_from, occurs_at,
};

verus! {

pub const APP_NAME: &'static str = "WinAssoc";

pub const URL_PROGID: &'static str = "WinAssoc.Url";

pub const PROGID_PREFIX: &'static str = "WinAssoc.";

pub const CLIENT_PATH: &'static str = "Software\\Clients\\StartMenuInternet\\WinAssoc";

pub const FILE_EXTS_PATH: &'static str = "Software\\Microsoft\\Windows\\CurrentVersion\\Explorer\\FileExts";

pub const URL_ASSOC_PATH: &'static str = "Software\\Microsoft\\Windows\\Shell\\Associations\\UrlAssociations";

/// The ProgID registered for an extension.
pub open spec fn progid_spec(ext: Seq<char>) -> Seq<char> {
    "WinAssoc."@ + ext
}

pub fn progid_for_ext(ext: &str) -> (r: String)
    ensures
        r@ == progid_spec(ext@),
{
    concat2("WinAssoc.", ext)
}

/// The command registered as the handler: the quoted shim and the quoted
/// placeholder, with `open` between them when the shim is the CLI itself.
pub open spec fn shim_command_spec(exe: Seq<char>, is_open_exe: bool, placeholder: Seq<char>) -> Seq<char> {
    if is_open_exe {
        "\""@ + exe + "\" \""@ + placeholder + "\""@
    } else {
        "\""@ + exe + "\" open \""@ + placeholder + "\""@
    }
}

pub fn shim_command_for(exe: &str, is_open_exe: bool, placeholder: &str) -> (r: String)
    ensures
        r@ == shim_command_spec(exe@, is_open_exe, placeholder@),
{
    let middle = if is_open_exe {
        "\" \""
    } else {
        "\" open \""
    };
    let a = concat3("\"", exe, middle);
    concat3(a.as_str(), placeholder, "\"")
}

/// The description of an extension's ProgID.
pub fn progid_description(ext: &str) -> (r: String)
    ensures
        r@ == "."@ + ext@ + " (winassoc ルーター)"@,
{
    concat3(".", ext, " (winassoc ルーター)")
}

/// The `DefaultIcon` value: the program and icon index 0.
pub fn default_icon_value(program: &str) -> (r: String)
    ensures
        r@ == program@ + ",0"@,
{
    concat2(program, ",0")
}

/// The description of a URL scheme registered directly in Classes.
pub fn scheme_description(scheme: &str) -> (r: String)
    ensures
        r@ == "URL:"@ + scheme@ + " (winassoc ルーター)"@,
{
    concat3("URL:", scheme, " (winassoc ルーター)")
}

fn starts_with_exec(s: &str, p: &str) -> (b: bool)
    ensures
        b == starts_with(s@, p@),
{
    let cs = chars_of(s);
    let ps = chars_of(p);
    let r = crate::text::occurs_at_exec(&cs, &ps, 0);
    proof {
        if r {
            assert(cs@.subrange(0, ps@.len() as int) == ps@);
        }
        if starts_with(s@, p@) {
            assert(occurs_at(cs@, ps@, 0));
        }
    }
    r
}

fn contains_exec(s: &str, p: &str) -> (b: bool)
    ensures
        b == contains_seq(s@, p@),
{
    let cs = chars_of(s);
    let ps = chars_of(p);
    let r = find_seq(&cs, &ps);
    proof {
        lemma_find_from(cs@, ps@, 0);
    }
    r.is_some()
}

/// Whether a registry key name is one of this tool's ProgIDs.
pub fn is_own_progid(key: &str) -> (b: bool)
    ensures
        b == starts_with(key@, "WinAssoc."@),
{
    starts_with_exec(key, "WinAssoc.")
}

/// Whether a registered command is this tool's (it names `winassoc`).
pub fn is_own_command(command: &str) -> (b: bool)
    ensures
        b == contains_seq(command@, "winassoc"@),
{
    contains_exec(command, "winassoc")
}

pub open spec fn is_web_scheme(scheme: Seq<char>) -> bool {
    scheme == "http"@ || scheme == "https"@
}

fn web_scheme(scheme: &str) -> (b: bool)
    ensures
        b == is_web_scheme(scheme@),
{
    str_eq(scheme, "http") || str_eq(scheme, "https")
}

// ───────────────────────── backup ─────────────────────────

/// The associations saved before registering, by extension and scheme.
pub struct Backup {
    pub created: String,
    pub ext: NameMap<ExtBackup>,
    pub protocol: NameMap<ProtocolBackup>,
}

pub struct ExtBackup {
    /// The default value of `HKCU\Software\Classes\.<ext>`.
    pub class_default: Option<String>,
    /// The ProgId of the Explorer `UserChoice` (for reference only; it
    /// cannot be written back).
    pub user_choice: Option<String>,
}

pub struct ProtocolBackup {
    pub user_choice: Option<String>,
}

/// The class default worth saving: a value that is not empty and is not one
/// of this tool's ProgIDs.
pub open spec fn saved_default_spec(value: Option<Seq<char>>) -> Option<Seq<char>> {
    match value {
        Some(v) => if v.len() > 0 && !starts_with(v, "WinAssoc."@) {
            Some(v)
        } else {
            None
        },
        None => None,
    }
}

pub fn saved_class_default(value: Option<String>) -> (r: Option<String>)
    ensures
        crate::config::opt_view(r) == saved_default_spec(crate::config::opt_view(value)),
{
    match value {
        Some(v) => {
            if !v.as_str().is_empty() && !is_own_progid(v.as_str()) {
                Some(v)
            } else {
                None
            }
        },
        None => None,
    }
}

/// What a new backup keeps of an extension's default value. `previous` is
/// this extension's entry in the newest earlier backup, if there is one.
/// When the default already names one of this tool's ProgIDs (an earlier
/// `apply` set it), the earlier saved value is kept, so that applying again
/// does not lose the default that was there before the first `apply`.
pub open spec fn backup_default_spec(
    current: Option<Seq<char>>,
    previous: Option<Option<Seq<char>>>,
) -> Option<Seq<char>> {
    match current {
        Some(v) => if starts_with(v, "WinAssoc."@) {
            match previous {
                Some(p) => p,
                None => None,
            }
        } else {
            saved_default_spec(current)
        },
        None => None,
    }
}

pub fn backup_class_default(current: Option<String>, previous: Option<Option<String>>) -> (r: Option<String>)
    ensures
        crate::config::opt_view(r) == backup_default_spec(
            crate::config::opt_view(current),
            opt_opt_view(previous),
        ),
{
    let own = match &current {
        Some(v) => is_own_progid(v.as_str()),
        None => false,
    };
    if own {
        match previous {
            Some(p) => p,
            None => None,
        }
    } else {
        saved_class_default(current)
    }
}

pub open spec fn opt_opt_view(o: Option<Option<String>>) -> Option<Option<Seq<char>>> {
    match o {
        Some(p) => Some(crate::config::opt_view(p)),
        None => None,
    }
}

/// What a new backup keeps of a `UserChoice`: the value read, unless it is
/// one of this tool's ProgIDs, in which case the earlier backup's value
/// (`previous`, if there is an earlier entry) is kept.
pub open spec fn backup_choice_spec(
    current: Option<Seq<char>>,
    previous: Option<Option<Seq<char>>>,
) -> Option<Seq<char>> {
    match current {
        Some(v) => if starts_with(v, "WinAssoc."@) {
            match previous {
                Some(p) => p,
                None => None,
            }
        } else {
            current
        },
        None => None,
    }
}

pub fn backup_user_choice(current: Option<String>, previous: Option<Option<String>>) -> (r: Option<String>)
    ensures
        crate::config::opt_view(r) == backup_choice_spec(
            crate::config::opt_view(current),
            opt_opt_view(previous),
        ),
{
    let own = match &current {
        Some(v) => is_own_progid(v.as_str()),
        None => false,
    };
    if own {
        match previous {
            Some(p) => p,
            None => None,
        }
    } else {
        current
    }
}

/// The name of a backup file made at `stamp`; the newest backup is also kept
/// under `LATEST_BACKUP`.
pub fn backup_file_name(stamp: &str) -> (r: String)
    ensures
        r@ == "backup-"@ + stamp@ + ".toml"@,
{
    concat3("backup-", stamp, ".toml")
}

pub const LATEST_BACKUP: &'static str = "latest.toml";

/// `restore` refuses a backup that holds no extension and no scheme.
pub fn check_restorable(b: &Backup) -> (r: Result<(), String>)
    ensures
        r is Ok <==> (b.ext@.len() > 0 || b.protocol@.len() > 0),
        r matches Err(m) ==> m@ == "バックアップに復元対象がありません"@,
{
    if b.ext.is_empty() && b.protocol.is_empty() {
        Err(owned("バックアップに復元対象がありません"))
    } else {
        Ok(())
    }
}

// ───────────────────────── apply / unregister ─────────────────────────

/// What `apply` does with a URL scheme in Classes.
#[derive(Debug, PartialEq, Eq)]
pub enum SchemeRegistration {
    /// `http` and `https` are left to the browser registration.
    Skip,
    /// Another application handles the scheme; it is left alone.
    KeepForeign,
    /// The scheme is (re)written to run the shim.
    Register,
}

/// `existing` is the command of the scheme's key if the key exists (empty
/// when it has none).
pub open spec fn scheme_registration_spec(scheme: Seq<char>, existing: Option<Seq<char>>) -> SchemeRegistration {
    if is_web_scheme(scheme) {
        SchemeRegistration::Skip
    } else if existing matches Some(cur) && cur.len() > 0 && !contains_seq(cur, "winassoc"@) {
        SchemeRegistration::KeepForeign
    } else {
        SchemeRegistration::Register
    }
}

pub fn scheme_registration(scheme: &str, existing: Option<&str>) -> (r: SchemeRegistration)
    ensures
        r == scheme_registration_spec(
            scheme@,
            match existing {
                Some(s) => Some(s@),
                None => None,
            },
        ),
{
    if web_scheme(scheme) {
        return SchemeRegistration::Skip;
    }
    if let Some(cur) = existing {
        if !cur.is_empty() && !is_own_command(cur) {
            return SchemeRegistration::KeepForeign;
        }
    }
    SchemeRegistration::Register
}

/// Whether `unregister` removes a scheme's key: not `http`/`https`, and its
/// command is this tool's.
pub fn owns_scheme(scheme: &str, command: &str) -> (b: bool)
    ensures
        b == (!is_web_scheme(scheme@) && contains_seq(command@, "winassoc"@)),
{
    !web_scheme(scheme) && is_own_command(command)
}

/// What `unregister` does with the default value of `.<ext>`.
#[derive(Debug)]
pub enum DefaultRestore {
    /// It does not point at this tool's ProgID: left alone.
    Leave,
    /// Put back the saved value.
    Restore(String),
    /// Nothing was saved: the value is removed.
    Delete,
}

pub enum DefaultRestoreView {
    Leave,
    Restore(Seq<char>),
    Delete,
}

impl View for DefaultRestore {
    type V = DefaultRestoreView;

    open spec fn view(&self) -> DefaultRestoreView {
        match self {
            DefaultRestore::Leave => DefaultRestoreView::Leave,
            DefaultRestore::Restore(s) => DefaultRestoreView::Restore(s@),
            DefaultRestore::Delete => DefaultRestoreView::Delete,
        }
    }
}

pub open spec fn default_restore_spec(
    current: Seq<char>,
    progid: Seq<char>,
    saved: Option<Seq<char>>,
) -> DefaultRestoreView {
    if current != progid {
        DefaultRestoreView::Leave
    } else {
        match saved {
            Some(v) => DefaultRestoreView::Restore(v),
            None => DefaultRestoreView::Delete,
        }
    }
}

pub fn default_restore(current: &str, progid: &str, saved: &Option<String>) -> (r: DefaultRestore)
    ensures
        r@ == default_restore_spec(current@, progid@, crate::config::opt_view(*saved)),
{
    if !str_eq(current, progid) {
        DefaultRestore::Leave
    } else {
        match saved {
            Some(v) => DefaultRestore::Restore(owned(v.as_str())),
            None => DefaultRestore::Delete,
        }
    }
}

/// Whether a `.<ext>` key is empty enough to delete after unregistering: no
/// values, and no subkeys or only an empty `OpenWithProgids`.
/// `open_with` gives the values and subkeys of `OpenWithProgids` if it exists.
pub open spec fn ext_key_removable_spec(values: u32, sub_keys: u32, open_with: Option<(u32, u32)>) -> bool {
    let only_empty_owp = sub_keys == 1 && (open_with matches Some((v, s)) && v == 0 && s == 0);
    values == 0 && (sub_keys == 0 || only_empty_owp)
}

pub fn ext_key_removable(values: u32, sub_keys: u32, open_with: Option<(u32, u32)>) -> (b: bool)
    ensures
        b == ext_key_removable_spec(values, sub_keys, open_with),
{
    let only_empty_owp = sub_keys == 1 && match open_with {
        Some((v, s)) => v == 0 && s == 0,
        None => false,
    };
    values == 0 && (sub_keys == 0 || only_empty_owp)
}

// ───────────────────────── restore ─────────────────────────

/// What `restore` does with the default value of `.<ext>` (when the key
/// exists): set the saved value, or remove a value that is this tool's
/// ProgID, or leave it.
pub open spec fn restore_default_spec(saved: Option<Seq<char>>, current: Seq<char>) -> DefaultRestoreView {
    match saved {
        Some(v) => DefaultRestoreView::Restore(v),
        None => if starts_with(current, "WinAssoc."@) {
            DefaultRestoreView::Delete
        } else {
            DefaultRestoreView::Leave
        },
    }
}

pub fn restore_default(saved: &Option<String>, current: &str) -> (r: DefaultRestore)
    ensures
        r@ == restore_default_spec(crate::config::opt_view(*saved), current@),
{
    match saved {
        Some(v) => DefaultRestore::Restore(owned(v.as_str())),
        None => if is_own_progid(current) {
            DefaultRestore::Delete
        } else {
            DefaultRestore::Leave
        },
    }
}

/// The note on a saved `UserChoice` that cannot be written back; none for
/// this tool's own ProgIDs. `what` is `.<ext>` or `<scheme>:`.
pub open spec fn user_choice_note_spec(what: Seq<char>, choice: Option<Seq<char>>) -> Option<Seq<char>> {
    match choice {
        Some(c) => if starts_with(c, "WinAssoc."@) {
            None
        } else {
            Some("  参考: "@ + what + " の UserChoice は "@ + c + " でした (必要なら設定アプリで再選択)"@)
        },
        None => None,
    }
}

pub fn user_choice_note(what: &str, choice: &Option<String>) -> (r: Option<String>)
    ensures
        crate::config::opt_view(r) == user_choice_note_spec(what@, crate::config::opt_view(*choice)),
{
    match choice {
        Some(c) => {
            if is_own_progid(c.as_str()) {
                None
            } else {
                let a = concat3("  参考: ", what, " の UserChoice は ");
                Some(concat3(a.as_str(), c.as_str(), " でした (必要なら設定アプリで再選択)"))
            }
        },
        None => None,
    }
}

/// `apply` for one extension, on its part of the registry and of the
/// newest backup: `r.0` is the default value of `.<ext>`, `r.1` this
/// extension's entry in the newest backup (the saved default), if there is
/// one. It backs up (see `backup_default_spec`), then points the default at
/// this tool's ProgID.
pub open spec fn apply_ext(
    ext: Seq<char>,
    r: (Option<Seq<char>>, Option<Option<Seq<char>>>),
) -> (Option<Seq<char>>, Option<Option<Seq<char>>>) {
    (Some(progid_spec(ext)), Some(backup_default_spec(r.0, r.1)))
}

/// `apply` run `n` times in a row.
pub open spec fn apply_ext_times(
    ext: Seq<char>,
    r: (Option<Seq<char>>, Option<Option<Seq<char>>>),
    n: nat,
) -> (Option<Seq<char>>, Option<Option<Seq<char>>>)
    decreases n,
{
    if n == 0 {
        r
    } else {
        apply_ext(ext, apply_ext_times(ext, r, (n - 1) as nat))
    }
}

/// The saved default that `unregister` and `restore` read (none without a
/// backup entry).
pub open spec fn saved_of(r: (Option<Seq<char>>, Option<Option<Seq<char>>>)) -> Option<Seq<char>> {
    match r.1 {
        Some(p) => p,
        None => None,
    }
}

/// However many times `apply` runs (one or more), the backup keeps the
/// default that was there before the first of them, and `unregister` and
/// `restore` both put it back, or remove the default when nothing was worth
/// saving. This holds whatever an earlier backup held, as long as the
/// default did not already name one of this tool's ProgIDs before.
pub proof fn law_backup_then_unregister_restores(
    ext: Seq<char>,
    start: (Option<Seq<char>>, Option<Option<Seq<char>>>),
    n: nat,
)
    requires
        n >= 1,
        !(start.0 matches Some(v) && starts_with(v, "WinAssoc."@)),
    ensures
        apply_ext_times(ext, start, n).0 == Some(progid_spec(ext)),
        saved_of(apply_ext_times(ext, start, n)) == saved_default_spec(start.0),
        default_restore_spec(
            progid_spec(ext),
            progid_spec(ext),
            saved_of(apply_ext_times(ext, start, n)),
        ) == match saved_default_spec(start.0) {
            Some(v) => DefaultRestoreView::Restore(v),
            None => DefaultRestoreView::Delete,
        },
        restore_default_spec(saved_of(apply_ext_times(ext, start, n)), progid_spec(ext))
            == match saved_default_spec(start.0) {
            Some(v) => DefaultRestoreView::Restore(v),
            None => DefaultRestoreView::Delete,
        },
    decreases n,
{
    let p = progid_spec(ext);
    assert(p.subrange(0, "WinAssoc."@.len() as int) =~= "WinAssoc."@);
    if n > 1 {
        law_backup_then_unregister_restores(ext, start, (n - 1) as nat);
    }
}

// ───────────────────────── doctor ─────────────────────────

/// What was found for one application: its command with variables expanded,
/// and whether that path exists.
pub struct AppCheck {
    pub name: String,
    pub cmd: String,
    pub exists: bool,
}

/// What was found for one extension: the command its ProgID runs (empty if
/// none) and the Explorer `UserChoice`.
pub struct ExtCheck {
    pub ext: String,
    pub registered_cmd: String,
    pub user_choice: Option<String>,
}

/// What was found for one scheme: its `UserChoice` and the command of a
/// direct Classes registration (empty if none).
pub struct SchemeCheck {
    pub scheme: String,
    pub user_choice: Option<String>,
    pub direct_cmd: String,
}

/// A diagnosis line, and whether it is a problem.
pub open spec fn app_item(name: Seq<char>, cmd: Seq<char>, exists: bool) -> (Seq<char>, bool) {
    if !has_char(cmd, '\\') && !has_char(cmd, '/') || exists {
        ("  ok  "@ + name + ": "@ + cmd, false)
    } else {
        ("  !!  "@ + name + ": 実行ファイルが見つかりません: "@ + cmd, true)
    }
}

pub open spec fn ext_item(
    ext: Seq<char>,
    registered: Seq<char>,
    choice: Option<Seq<char>>,
    command: Seq<char>,
) -> (Seq<char>, bool) {
    let progid = progid_spec(ext);
    if registered.len() == 0 {
        ("  !!  ."@ + ext + ": 未登録です (winassoc apply を実行してください)"@, true)
    } else if registered != command {
        ("  !!  ."@ + ext + ": 登録コマンドが現在の exe と異なります: "@ + registered, true)
    } else {
        match choice {
            Some(c) => if c == progid {
                ("  ok  ."@ + ext + ": UserChoice = "@ + progid, false)
            } else {
                (
                    "  !!  ."@ + ext + ": UserChoice が "@ + c
                        + " を指しています (設定アプリで WinAssoc を選択してください)"@,
                    true,
                )
            },
            None => ("  ok  ."@ + ext + ": 登録済み (UserChoice 未設定 → ProgID 既定で動作)"@, false),
        }
    }
}

pub open spec fn scheme_item(scheme: Seq<char>, choice: Option<Seq<char>>, direct: Seq<char>) -> (
    Seq<char>,
    bool,
) {
    match choice {
        Some(c) => if c == "WinAssoc.Url"@ {
            ("  ok  "@ + scheme + ": UserChoice = WinAssoc.Url"@, false)
        } else {
            (
                "  !!  "@ + scheme + ": UserChoice が "@ + c
                    + " を指しています (設定アプリで WinAssoc を選択してください)"@,
                true,
            )
        },
        None => if contains_seq(direct, "winassoc"@) {
            ("  ok  "@ + scheme + ": Classes 直接登録で動作"@, false)
        } else {
            ("  !!  "@ + scheme + ": 未確定です (設定アプリで WinAssoc を選択してください)"@, true)
        },
    }
}

pub open spec fn lines_of(items: Seq<(Seq<char>, bool)>) -> Seq<Seq<char>> {
    items.map_values(|it: (Seq<char>, bool)| it.0)
}

/// How many of the items are problems.
pub open spec fn problem_count(items: Seq<(Seq<char>, bool)>) -> nat
    decreases items.len(),
{
    if items.len() == 0 {
        0
    } else {
        problem_count(items.drop_last()) + if items.last().1 {
            1nat
        } else {
            0nat
        }
    }
}

pub struct AppCheckView {
    pub name: Seq<char>,
    pub cmd: Seq<char>,
    pub exists: bool,
}

pub struct ExtCheckView {
    pub ext: Seq<char>,
    pub registered_cmd: Seq<char>,
    pub user_choice: Option<Seq<char>>,
}

pub struct SchemeCheckView {
    pub scheme: Seq<char>,
    pub user_choice: Option<Seq<char>>,
    pub direct_cmd: Seq<char>,
}

impl View for AppCheck {
    type V = AppCheckView;

    open spec fn view(&self) -> AppCheckView {
        AppCheckView { name: self.name@, cmd: self.cmd@, exists: self.exists }
    }
}

impl View for ExtCheck {
    type V = ExtCheckView;

    open spec fn view(&self) -> ExtCheckView {
        ExtCheckView {
            ext: self.ext@,
            registered_cmd: self.registered_cmd@,
            user_choice: crate::config::opt_view(self.user_choice),
        }
    }
}

impl View for SchemeCheck {
    type V = SchemeCheckView;

    open spec fn view(&self) -> SchemeCheckView {
        SchemeCheckView {
            scheme: self.scheme@,
            user_choice: crate::config::opt_view(self.user_choice),
            direct_cmd: self.direct_cmd@,
        }
    }
}

pub open spec fn app_items(apps: Seq<AppCheck>) -> Seq<(Seq<char>, bool)> {
    apps.map_values(|a: AppCheck| app_item(a@.name, a@.cmd, a@.exists))
}

pub open spec fn ext_items(exts: Seq<ExtCheck>, command: Seq<char>) -> Seq<(Seq<char>, bool)> {
    exts.map_values(|e: ExtCheck| ext_item(e@.ext, e@.registered_cmd, e@.user_choice, command))
}

pub open spec fn browser_items(has_protocols: bool, browser_registered: bool) -> Seq<(Seq<char>, bool)> {
    if has_protocols && !browser_registered {
        seq![
            ("  !!  ブラウザ登録 (StartMenuInternet) がありません (winassoc apply を実行してください)"@, true),
        ]
    } else {
        Seq::empty()
    }
}

pub open spec fn scheme_items(schemes: Seq<SchemeCheck>) -> Seq<(Seq<char>, bool)> {
    schemes.map_values(|s: SchemeCheck| scheme_item(s@.scheme, s@.user_choice, s@.direct_cmd))
}

/// The closing lines, by the number of problems.
pub open spec fn doctor_footer(problems: nat) -> Seq<Seq<char>> {
    if problems == 0 {
        seq!["問題は見つかりませんでした"@]
    } else {
        seq![
            decimal(problems) + " 件の問題があります。UserChoice 関連は以下で確定できます:"@,
            "  start ms-settings:defaultapps"@,
        ]
    }
}

/// The whole diagnosis: where the configuration and the shim are, then the
/// applications, extensions and schemes, then the number of problems.
pub open spec fn doctor_spec(
    config_path: Seq<char>,
    exe: Seq<char>,
    command: Seq<char>,
    apps: Seq<AppCheck>,
    exts: Seq<ExtCheck>,
    has_protocols: bool,
    browser_registered: bool,
    schemes: Seq<SchemeCheck>,
) -> Seq<Seq<char>> {
    let protocol_items = browser_items(has_protocols, browser_registered) + scheme_items(schemes);
    seq!["設定ファイル: "@ + config_path, "シム exe:     "@ + exe, Seq::empty(), "[アプリ]"@]
        + lines_of(app_items(apps)) + seq![Seq::empty(), "[拡張子]"@] + lines_of(
        ext_items(exts, command),
    ) + seq![Seq::empty(), "[プロトコル]"@] + lines_of(protocol_items) + seq![Seq::empty()]
        + doctor_footer(
        problem_count(app_items(apps)) + problem_count(ext_items(exts, command)) + problem_count(
            protocol_items,
        ),
    )
}

fn push_line(lines: &mut Vec<String>, s: String)
    ensures
        views(final(lines)@) == views(old(lines)@).push(s@),
{
    let ghost before = lines@;
    lines.push(s);
    proof {
        lemma_views_push(before, s);
    }
}

proof fn lemma_items_push(items: Seq<(Seq<char>, bool)>, it: (Seq<char>, bool))
    ensures
        lines_of(items.push(it)) == lines_of(items).push(it.0),
        problem_count(items.push(it)) == problem_count(items) + if it.1 {
            1nat
        } else {
            0nat
        },
{
    assert(lines_of(items.push(it)) =~= lines_of(items).push(it.0));
    assert(items.push(it).drop_last() =~= items);
}

proof fn lemma_problem_count_bound(items: Seq<(Seq<char>, bool)>)
    ensures
        problem_count(items) <= items.len(),
    decreases items.len(),
{
    if items.len() > 0 {
        lemma_problem_count_bound(items.drop_last());
    }
}

proof fn lemma_items_concat(a: Seq<(Seq<char>, bool)>, b: Seq<(Seq<char>, bool)>)
    ensures
        lines_of(a + b) == lines_of(a) + lines_of(b),
        problem_count(a + b) == problem_count(a) + problem_count(b),
    decreases b.len(),
{
    assert(lines_of(a + b) =~= lines_of(a) + lines_of(b));
    if b.len() > 0 {
        lemma_items_concat(a, b.drop_last());
        assert((a + b).drop_last() =~= a + b.drop_last());
    } else {
        assert(a + b =~= a);
    }
}

fn app_item_exec(a: &AppCheck) -> (r: (String, bool))
    ensures
        (r.0@, r.1) == app_item(a@.name, a@.cmd, a@.exists),
{
    let cs = chars_of(a.cmd.as_str());
    let mut has_sep = false;
    let mut i: usize = 0;
    while i < cs.len()
        invariant
            cs@ == a.cmd@,
            i <= cs@.len(),
            has_sep == exists|j: int| 0 <= j < i && (cs@[j] == '\\' || cs@[j] == '/'),
        decreases cs@.len() - i,
    {
        if cs[i] == '\\' || cs[i] == '/' {
            has_sep = true;
        }
        i = i + 1;
    }
    assert(has_sep == (has_char(a.cmd@, '\\') || has_char(a.cmd@, '/')));
    if !has_sep || a.exists {
        let x = concat3("  ok  ", a.name.as_str(), ": ");
        (concat2(x.as_str(), a.cmd.as_str()), false)
    } else {
        let x = concat3("  !!  ", a.name.as_str(), ": 実行ファイルが見つかりません: ");
        (concat2(x.as_str(), a.cmd.as_str()), true)
    }
}

fn ext_item_exec(e: &ExtCheck, command: &str) -> (r: (String, bool))
    ensures
        (r.0@, r.1) == ext_item(e@.ext, e@.registered_cmd, e@.user_choice, command@),
{
    let ext = e.ext.as_str();
    let progid = progid_for_ext(ext);
    if e.registered_cmd.as_str().is_empty() {
        return (concat3("  !!  .", ext, ": 未登録です (winassoc apply を実行してください)"), true);
    }
    if !str_eq(e.registered_cmd.as_str(), command) {
        let x = concat3("  !!  .", ext, ": 登録コマンドが現在の exe と異なります: ");
        return (concat2(x.as_str(), e.registered_cmd.as_str()), true);
    }
    match &e.user_choice {
        Some(c) => {
            if str_eq(c.as_str(), progid.as_str()) {
                let x = concat3("  ok  .", ext, ": UserChoice = ");
                (concat2(x.as_str(), progid.as_str()), false)
            } else {
                let x = concat3("  !!  .", ext, ": UserChoice が ");
                (concat3(x.as_str(), c.as_str(), " を指しています (設定アプリで WinAssoc を選択してください)"), true)
            }
        },
        None => (concat3("  ok  .", ext, ": 登録済み (UserChoice 未設定 → ProgID 既定で動作)"), false),
    }
}

fn scheme_item_exec(s: &SchemeCheck) -> (r: (String, bool))
    ensures
        (r.0@, r.1) == scheme_item(s@.scheme, s@.user_choice, s@.direct_cmd),
{
    let scheme = s.scheme.as_str();
    match &s.user_choice {
        Some(c) => {
            if str_eq(c.as_str(), "WinAssoc.Url") {
                (concat3("  ok  ", scheme, ": UserChoice = WinAssoc.Url"), false)
            } else {
                let x = concat3("  !!  ", scheme, ": UserChoice が ");
                (concat3(x.as_str(), c.as_str(), " を指しています (設定アプリで WinAssoc を選択してください)"), true)
            }
        },
        None => {
            if is_own_command(s.direct_cmd.as_str()) {
                (concat3("  ok  ", scheme, ": Classes 直接登録で動作"), false)
            } else {
                (concat3("  !!  ", scheme, ": 未確定です (設定アプリで WinAssoc を選択してください)"), true)
            }
        },
    }
}

/// The diagnosis report and its number of problems (see `doctor_spec`).
pub fn doctor_report(
    config_path: &str,
    exe: &str,
    command: &str,
    apps: &Vec<AppCheck>,
    exts: &Vec<ExtCheck>,
    has_protocols: bool,
    browser_registered: bool,
    schemes: &Vec<SchemeCheck>,
) -> (r: (Vec<String>, usize))
    requires
        apps@.len() + exts@.len() + schemes@.len() < usize::MAX,
    ensures
        views(r.0@) == doctor_spec(
            config_path@,
            exe@,
            command@,
            apps@,
            exts@,
            has_protocols,
            browser_registered,
            schemes@,
        ),
        r.1 == problem_count(app_items(apps@)) + problem_count(ext_items(exts@, command@))
            + problem_count(browser_items(has_protocols, browser_registered) + scheme_items(schemes@)),
{
    let mut lines: Vec<String> = Vec::new();
    push_line(&mut lines, concat2("設定ファイル: ", config_path));
    push_line(&mut lines, concat2("シム exe:     ", exe));
    push_line(&mut lines, String::new());
    push_line(&mut lines, owned("[アプリ]"));
    let ghost head = views(lines@);
    let mut problems: usize = 0;
    let mut i: usize = 0;
    assert(app_items(apps@).subrange(0, 0) =~= Seq::<(Seq<char>, bool)>::empty());
    assert(head =~= head + lines_of(app_items(apps@).subrange(0, 0)));
    while i < apps.len()
        invariant
            i <= apps@.len(),
            views(lines@) == head + lines_of(app_items(apps@).subrange(0, i as int)),
            problems == problem_count(app_items(apps@).subrange(0, i as int)),
            problems <= i,
        decreases apps@.len() - i,
    {
        let (line, bad) = app_item_exec(&apps[i]);
        proof {
            assert(app_items(apps@).subrange(0, i + 1) =~= app_items(apps@).subrange(0, i as int).push(
                (line@, bad),
            ));
            lemma_items_push(app_items(apps@).subrange(0, i as int), (line@, bad));
        }
        push_line(&mut lines, line);
        if bad {
            problems = problems + 1;
        }
        i = i + 1;
    }
    assert(app_items(apps@).subrange(0, i as int) =~= app_items(apps@));
    let ghost p1 = problems as nat;
    push_line(&mut lines, String::new());
    push_line(&mut lines, owned("[拡張子]"));
    let ghost head2 = views(lines@);
    let mut i: usize = 0;
    assert(ext_items(exts@, command@).subrange(0, 0) =~= Seq::<(Seq<char>, bool)>::empty());
    assert(head2 =~= head2 + lines_of(ext_items(exts@, command@).subrange(0, 0)));
    while i < exts.len()
        invariant
            i <= exts@.len(),
            views(lines@) == head2 + lines_of(ext_items(exts@, command@).subrange(0, i as int)),
            problems == p1 + problem_count(ext_items(exts@, command@).subrange(0, i as int)),
            p1 <= apps@.len(),
            problems <= apps@.len() + i,
            apps@.len() + exts@.len() + schemes@.len() < usize::MAX,
        decreases exts@.len() - i,
    {
        let (line, bad) = ext_item_exec(&exts[i], command);
        proof {
            assert(ext_items(exts@, command@).subrange(0, i + 1) =~= ext_items(
                exts@,
                command@,
            ).subrange(0, i as int).push((line@, bad)));
            lemma_items_push(ext_items(exts@, command@).subrange(0, i as int), (line@, bad));
        }
        push_line(&mut lines, line);
        if bad {
            problems = problems + 1;
        }
        i = i + 1;
    }
    assert(ext_items(exts@, command@).subrange(0, i as int) =~= ext_items(exts@, command@));
    let ghost p2 = problems as nat;
    assert(problems <= apps@.len() + exts@.len());
    push_line(&mut lines, String::new());
    push_line(&mut lines, owned("[プロトコル]"));
    let ghost head3 = views(lines@);
    let ghost bi = browser_items(has_protocols, browser_registered);
    if has_protocols && !browser_registered {
        push_line(
            &mut lines,
            owned("  !!  ブラウザ登録 (StartMenuInternet) がありません (winassoc apply を実行してください)"),
        );
        problems = problems + 1;
    }
    proof {
        assert(lines_of(bi) =~= if has_protocols && !browser_registered {
            seq!["  !!  ブラウザ登録 (StartMenuInternet) がありません (winassoc apply を実行してください)"@]
        } else {
            Seq::empty()
        });
        if has_protocols && !browser_registered {
            assert(bi.drop_last() =~= Seq::<(Seq<char>, bool)>::empty());
        }
    }
    let ghost head4 = views(lines@);
    let ghost p3 = problems as nat;
    let mut i: usize = 0;
    assert(scheme_items(schemes@).subrange(0, 0) =~= Seq::<(Seq<char>, bool)>::empty());
    assert(head4 =~= head4 + lines_of(scheme_items(schemes@).subrange(0, 0)));
    while i < schemes.len()
        invariant
            i <= schemes@.len(),
            views(lines@) == head4 + lines_of(scheme_items(schemes@).subrange(0, i as int)),
            problems == p3 + problem_count(scheme_items(schemes@).subrange(0, i as int)),
            p3 <= apps@.len() + exts@.len() + 1,
            problems <= apps@.len() + exts@.len() + 1 + i,
            apps@.len() + exts@.len() + schemes@.len() < usize::MAX,
        decreases schemes@.len() - i,
    {
        let (line, bad) = scheme_item_exec(&schemes[i]);
        proof {
            assert(scheme_items(schemes@).subrange(0, i + 1) =~= scheme_items(schemes@).subrange(
                0,
                i as int,
            ).push((line@, bad)));
            lemma_items_push(scheme_items(schemes@).subrange(0, i as int), (line@, bad));
        }
        push_line(&mut lines, line);
        if bad {
            problems = problems + 1;
        }
        i = i + 1;
    }
    assert(scheme_items(schemes@).subrange(0, i as int) =~= scheme_items(schemes@));
    proof {
        lemma_items_concat(bi, scheme_items(schemes@));
    }
    push_line(&mut lines, String::new());
    if problems == 0 {
        push_line(&mut lines, owned("問題は見つかりませんでした"));
    } else {
        let n = usize_to_string(problems);
        push_line(&mut lines, concat2(n.as_str(), " 件の問題があります。UserChoice 関連は以下で確定できます:"));
        push_line(&mut lines, owned("  start ms-settings:defaultapps"));
    }
    assert(views(lines@) =~= doctor_spec(
        config_path@,
        exe@,
        command@,
        apps@,
        exts@,
        has_protocols,
        browser_registered,
        schemes@,
    ));
    (lines, problems)
}

} // verus!
