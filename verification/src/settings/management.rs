//! What the management page shows after a registry operation.
use vstd::prelude::*;
use crate::text::{chars_of, concat2, concat3, decimal, lemma_views_push, owned, usize_to_string, views};

verus! {

#[derive(Debug, Clone)]
pub struct OperationResult {
    pub lines: Vec<String>,
    pub success: bool,
}

/// One line: the success text, or the failure text followed by the error.
fn report<T>(outcome: &Result<T, String>, ok_line: &str, err_prefix: &str) -> (r: OperationResult)
    ensures
        r.success == outcome is Ok,
        views(r.lines@) == match outcome {
            Ok(_) => seq![ok_line@],
            Err(e) => seq![err_prefix@ + e@],
        },
{
    let line = match outcome {
        Ok(_) => owned(ok_line),
        Err(e) => concat2(err_prefix, e.as_str()),
    };
    let lines: Vec<String> = vec![line];
    assert(views(lines@) =~= seq![line@]);
    OperationResult { lines, success: outcome.is_ok() }
}

/// Result of registering the configuration.
pub fn run_apply(outcome: Result<(), String>) -> (r: OperationResult)
    ensures
        r.success == outcome is Ok,
        views(r.lines@) == match outcome {
            Ok(_) => seq!["✓ 適用に成功しました"@],
            Err(e) => seq!["✗ 適用に失敗: "@ + e@],
        },
{
    report(&outcome, "✓ 適用に成功しました", "✗ 適用に失敗: ")
}

/// Result of unregistering.
pub fn run_unregister(outcome: Result<(), String>) -> (r: OperationResult)
    ensures
        r.success == outcome is Ok,
        views(r.lines@) == match outcome {
            Ok(_) => seq!["✓ 解除に成功しました"@],
            Err(e) => seq!["✗ 解除に失敗: "@ + e@],
        },
{
    report(&outcome, "✓ 解除に成功しました", "✗ 解除に失敗: ")
}

/// A diagnosis line that reports a problem: it starts with `  !!`.
pub open spec fn is_warning_line(l: Seq<char>) -> bool {
    l.len() >= 4 && l[0] == ' ' && l[1] == ' ' && l[2] == '!' && l[3] == '!'
}

/// The problem lines of a diagnosis, in their order.
pub open spec fn warning_lines(s: Seq<Seq<char>>) -> Seq<Seq<char>>
    decreases s.len(),
{
    if s.len() == 0 {
        Seq::empty()
    } else {
        warning_lines(s.drop_last()) + if is_warning_line(s.last()) {
            seq![s.last()]
        } else {
            Seq::empty()
        }
    }
}

/// What the management page shows of a diagnosis that ran and found
/// `problems` problems in the report `lines`.
pub open spec fn doctor_result_lines(lines: Seq<Seq<char>>, problems: nat) -> Seq<Seq<char>> {
    if problems == 0 {
        seq!["✓ 診断が完了しました (問題なし)"@]
    } else {
        warning_lines(lines).push("⚠ 診断が完了しました (問題 "@ + decimal(problems) + " 件)"@)
    }
}

fn warning_line_exec(l: &str) -> (b: bool)
    ensures
        b == is_warning_line(l@),
{
    let cs = chars_of(l);
    cs.len() >= 4 && cs[0] == ' ' && cs[1] == ' ' && cs[2] == '!' && cs[3] == '!'
}

/// Result of the diagnosis: `Ok` holds the report lines and the number of
/// problems found (see `registry::doctor_report`). With problems, each
/// problem line is shown as a caution row, then a line with their number.
pub fn run_doctor(outcome: Result<(Vec<String>, usize), String>) -> (r: OperationResult)
    ensures
        r.success == outcome is Ok,
        views(r.lines@) == match outcome {
            Ok((lines, problems)) => doctor_result_lines(views(lines@), problems as nat),
            Err(e) => seq!["✗ 診断に失敗: "@ + e@],
        },
{
    match outcome {
        Err(e) => {
            let line = concat2("✗ 診断に失敗: ", e.as_str());
            let lines: Vec<String> = vec![line];
            assert(views(lines@) =~= seq![line@]);
            OperationResult { lines, success: false }
        },
        Ok((report_lines, problems)) => {
            if problems == 0 {
                let line = owned("✓ 診断が完了しました (問題なし)");
                let lines: Vec<String> = vec![line];
                assert(views(lines@) =~= seq![line@]);
                return OperationResult { lines, success: true };
            }
            let ghost all = views(report_lines@);
            let mut out: Vec<String> = Vec::new();
            let mut i: usize = 0;
            while i < report_lines.len()
                invariant
                    i <= report_lines@.len(),
                    all == views(report_lines@),
                    views(out@) == warning_lines(all.take(i as int)),
                decreases report_lines@.len() - i,
            {
                assert(all.take(i + 1).drop_last() =~= all.take(i as int));
                assert(all.take(i + 1).last() == report_lines@[i as int]@);
                if warning_line_exec(report_lines[i].as_str()) {
                    let l = owned(report_lines[i].as_str());
                    proof {
                        lemma_views_push(out@, l);
                    }
                    out.push(l);
                    assert(views(out@) =~= warning_lines(all.take(i + 1)));
                } else {
                    assert(warning_lines(all.take(i + 1)) =~= warning_lines(all.take(i as int)));
                }
                i = i + 1;
            }
            assert(all.take(report_lines@.len() as int) =~= all);
            let n = usize_to_string(problems);
            let last = concat3("⚠ 診断が完了しました (問題 ", n.as_str(), " 件)");
            proof {
                lemma_views_push(out@, last);
            }
            out.push(last);
            OperationResult { lines: out, success: true }
        },
    }
}

/// Result of a backup; `Ok` holds where the backup was written.
pub fn run_backup(outcome: Result<String, String>) -> (r: OperationResult)
    ensures
        r.success == outcome is Ok,
        views(r.lines@) == match outcome {
            Ok(path) => seq!["✓ バックアップ保存: "@ + path@],
            Err(e) => seq!["✗ バックアップ失敗: "@ + e@],
        },
{
    let line = match &outcome {
        Ok(path) => concat2("✓ バックアップ保存: ", path.as_str()),
        Err(e) => concat2("✗ バックアップ失敗: ", e.as_str()),
    };
    let lines: Vec<String> = vec![line];
    assert(views(lines@) =~= seq![line@]);
    OperationResult { lines, success: outcome.is_ok() }
}

/// The lines shown when the input has errors: `head`, then one line per
/// error text, marked with `・`.
pub open spec fn input_error_lines(head: Seq<char>, error_texts: Seq<Seq<char>>) -> Seq<Seq<char>> {
    seq![head] + error_texts.map_values(|t: Seq<char>| "・"@ + t)
}

fn input_errors(head: &str, error_texts: &Vec<String>) -> (r: OperationResult)
    ensures
        !r.success,
        views(r.lines@) == input_error_lines(head@, views(error_texts@)),
{
    let mut lines: Vec<String> = vec![owned(head)];
    assert(views(lines@) =~= seq![head@]);
    let mut i: usize = 0;
    while i < error_texts.len()
        invariant
            i <= error_texts@.len(),
            views(lines@) == seq![head@] + views(error_texts@).subrange(0, i as int).map_values(
                |t: Seq<char>| "・"@ + t,
            ),
        decreases error_texts@.len() - i,
    {
        let line = concat2("・", error_texts[i].as_str());
        proof {
            lemma_views_push(lines@, line);
        }
        lines.push(line);
        assert(views(error_texts@).subrange(0, i + 1).map_values(|t: Seq<char>| "・"@ + t) =~= views(
            error_texts@,
        ).subrange(0, i as int).map_values(|t: Seq<char>| "・"@ + t).push("・"@ + error_texts@[i as int]@));
        i = i + 1;
    }
    assert(views(error_texts@).subrange(0, error_texts@.len() as int) =~= views(error_texts@));
    OperationResult { lines, success: false }
}

/// The lines of `save` (see `save_outcome`).
pub open spec fn save_lines(error_texts: Seq<Seq<char>>, saved: Result<(), String>) -> Seq<Seq<char>> {
    if error_texts.len() > 0 {
        input_error_lines("✗ 保存できません。入力エラーがあります。"@, error_texts)
    } else {
        match saved {
            Ok(_) => seq!["✓ 設定ファイルを保存しました"@],
            Err(e) => seq!["✗ 保存失敗: "@ + e@],
        }
    }
}

/// Result of saving the settings. `error_texts` are the validation errors of
/// the edited configuration, one text each; with any, nothing is saved and
/// `saved` is not looked at. Otherwise `saved` is the outcome of writing the
/// configuration file. A successful save is the one outcome that leaves the
/// settings clean (`success`).
pub fn save_outcome(error_texts: &Vec<String>, saved: Result<(), String>) -> (r: OperationResult)
    ensures
        r.success == (error_texts@.len() == 0 && saved is Ok),
        views(r.lines@) == save_lines(views(error_texts@), saved),
{
    if error_texts.len() > 0 {
        return input_errors("✗ 保存できません。入力エラーがあります。", error_texts);
    }
    let line = match &saved {
        Ok(_) => owned("✓ 設定ファイルを保存しました"),
        Err(e) => concat2("✗ 保存失敗: ", e.as_str()),
    };
    let lines: Vec<String> = vec![line];
    assert(views(lines@) =~= seq![line@]);
    OperationResult { lines, success: saved.is_ok() }
}

/// The lines of `apply` from the settings (see `apply_outcome`).
pub open spec fn apply_lines(
    error_texts: Seq<Seq<char>>,
    saved: Result<(), String>,
    applied: Result<(), String>,
) -> Seq<Seq<char>> {
    if error_texts.len() > 0 {
        input_error_lines("✗ 適用できません。入力エラーがあります。"@, error_texts)
    } else {
        match saved {
            Err(e) => seq!["✗ 保存失敗: "@ + e@],
            Ok(_) => seq!["✓ 設定ファイルを保存しました"@] + match applied {
                Ok(_) => seq!["✓ 適用に成功しました"@],
                Err(e) => seq!["✗ 適用に失敗: "@ + e@],
            },
        }
    }
}

/// Result of applying the settings: with validation errors (`error_texts`)
/// nothing is saved or applied; otherwise the configuration is saved
/// (`saved`) and, once saved, registered (`applied`). A step that was not
/// taken is not looked at. `success` holds when the registration succeeded.
pub fn apply_outcome(
    error_texts: &Vec<String>,
    saved: Result<(), String>,
    applied: Result<(), String>,
) -> (r: OperationResult)
    ensures
        r.success == (error_texts@.len() == 0 && saved is Ok && applied is Ok),
        views(r.lines@) == apply_lines(views(error_texts@), saved, applied),
{
    if error_texts.len() > 0 {
        return input_errors("✗ 適用できません。入力エラーがあります。", error_texts);
    }
    match &saved {
        Err(e) => {
            let line = concat2("✗ 保存失敗: ", e.as_str());
            let lines: Vec<String> = vec![line];
            assert(views(lines@) =~= seq![line@]);
            OperationResult { lines, success: false }
        },
        Ok(_) => {
            let res = run_apply(applied);
            let mut lines: Vec<String> = vec![owned("✓ 設定ファイルを保存しました")];
            let ghost first = views(lines@);
            let mut rest = res.lines;
            lines.append(&mut rest);
            assert(views(lines@) =~= first + views(res.lines@));
            OperationResult { lines, success: res.success }
        },
    }
}

/// Result of a restore.
pub fn run_restore(outcome: Result<(), String>) -> (r: OperationResult)
    ensures
        r.success == outcome is Ok,
        views(r.lines@) == match outcome {
            Ok(_) => seq!["✓ 復元に成功しました"@],
            Err(e) => seq!["✗ 復元に失敗: "@ + e@],
        },
{
    report(&outcome, "✓ 復元に成功しました", "✗ 復元に失敗: ")
}

} // verus!
