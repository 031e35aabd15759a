use yauz::extract::{missing_tool_results, output_dir_for, ExtractAction, ExtractEvent, ExtractJob, ExtractResult};

fn strings(v: &[&str]) -> Vec<String> {
    v.iter().map(|s| s.to_string()).collect()
}

/// Runs a batch against a fake 7-Zip: `works` says which (archive, password)
/// pairs extract, `encrypted` which archives ask for a password.
fn run(files: &[&str], passwords: &[&str], works: &dyn Fn(&str, Option<&str>) -> bool, encrypted: &dyn Fn(&str) -> bool) -> (Vec<ExtractResult>, Vec<String>) {
    let mut job = ExtractJob::new(strings(files), strings(passwords));
    let mut log = Vec::new();
    for _ in 0..1000 {
        match job.next_action() {
            ExtractAction::Progress { current, total, file } => {
                log.push(format!("progress {}/{} {}", current, total, file));
                job.step(ExtractEvent::Announced);
            }
            ExtractAction::ListParts { archive } => {
                log.push(format!("list {}", archive));
                job.step(ExtractEvent::Listed { parts: vec![format!("{}.002", archive)] });
            }
            ExtractAction::Extract { archive, password } => {
                log.push(format!("x {} {:?}", archive, password));
                let ok = works(&archive, password.as_deref());
                job.step(ExtractEvent::Extracted { ok, message: if ok { String::new() } else { "line one\nERROR: broken".to_string() } });
            }
            ExtractAction::Probe { archive } => {
                log.push(format!("t {}", archive));
                job.step(ExtractEvent::Probed { needs_password: encrypted(&archive) });
            }
            ExtractAction::Done => return (job.into_results(), log),
        }
    }
    panic!("the batch did not finish");
}

#[test]
fn plain_archive_succeeds_without_password() {
    let (r, log) = run(&["a.7z"], &["p1"], &|_, pw| pw.is_none(), &|_| false);
    assert_eq!(r.len(), 1);
    assert!(r[0].success);
    assert_eq!(r[0].password, "");
    assert_eq!(r[0].parts, vec!["a.7z.002".to_string()]);
    assert_eq!(log, vec!["progress 1/1 a.7z", "x a.7z None", "list a.7z"]);
}

#[test]
fn passwords_are_tried_in_order_until_one_works() {
    let (r, log) = run(&["e.7z"], &["p1", "p2", "p3"], &|_, pw| pw == Some("p2"), &|_| true);
    assert!(r[0].success);
    assert_eq!(r[0].password, "p2");
    assert_eq!(log, vec!["progress 1/1 e.7z", "x e.7z None", "list e.7z", "t e.7z", "x e.7z Some(\"p1\")", "x e.7z Some(\"p2\")"]);
    assert_eq!(r[0].parts, vec!["e.7z.002".to_string()]);
}

#[test]
fn no_working_password_is_reported() {
    let (r, _) = run(&["e.7z"], &["p1"], &|_, _| false, &|_| true);
    assert!(!r[0].success);
    assert_eq!(r[0].reason, "All passwords incorrect");
    let (r, _) = run(&["e.7z"], &[], &|_, _| false, &|_| true);
    assert_eq!(r[0].reason, "All passwords incorrect");
}

#[test]
fn other_failures_report_the_last_line() {
    let (r, _) = run(&["bad.zip", "good.zip"], &["p"], &|a, _| a == "good.zip", &|_| false);
    assert_eq!(r.len(), 2);
    assert!(!r[0].success);
    assert_eq!(r[0].reason, "ERROR: broken");
    assert_eq!(r[0].file, "bad.zip");
    assert!(r[1].success);
    assert_eq!(r[1].file, "good.zip");
}

#[test]
fn empty_output_is_an_unknown_error() {
    let mut job = ExtractJob::new(strings(&["a"]), vec![]);
    job.step(ExtractEvent::Announced);
    job.step(ExtractEvent::Extracted { ok: false, message: String::new() });
    job.step(ExtractEvent::Listed { parts: vec![] });
    job.step(ExtractEvent::Probed { needs_password: false });
    assert_eq!(job.results()[0].reason, "未知错误");
    assert!(matches!(job.next_action(), ExtractAction::Done));
}

#[test]
fn events_out_of_turn_are_ignored() {
    let mut job = ExtractJob::new(strings(&["a"]), vec![]);
    job.step(ExtractEvent::Probed { needs_password: true });
    assert!(matches!(job.next_action(), ExtractAction::Progress { current: 1, total: 1, .. }));
}

#[test]
fn empty_batch_is_done_at_once() {
    let job = ExtractJob::new(vec![], strings(&["p"]));
    assert!(matches!(job.next_action(), ExtractAction::Done));
}

#[test]
fn missing_tool_fails_every_archive() {
    let r = missing_tool_results(&strings(&["a", "b"]), "/x/7z");
    assert_eq!(r.len(), 2);
    assert_eq!(r[1].file, "b");
    assert!(!r[0].success);
    assert_eq!(r[0].reason, "7-Zip 未找到: /x/7z");
}

#[test]
fn output_directory_choice() {
    assert_eq!(output_dir_for("/out", Some("/in")), "/out");
    assert_eq!(output_dir_for("", Some("/in")), "/in");
    assert_eq!(output_dir_for("", None), ".");
}
