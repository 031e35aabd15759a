//! A batch extraction as a state machine. For each archive, in order: the
//! progress is announced, an extraction without password is tried, and the
//! archive's split volumes are listed; if the extraction failed, 7-Zip is
//! asked whether the archive needs a password; if so, the saved passwords
//! are tried in order until one works. Each archive yields exactly one
//! result.
//!
//! The caller performs the action that `next_action` names (announce, run
//! 7-Zip, or deliver the results) and hands what came of it to `step`.
use vstd::prelude::*;
use crate::config::strings_view;
use crate::text::{chars_of, lines, split_lines, string_from_chars};

verus! {

/// The result of one archive.
pub struct ExtractResult {
    pub file: String,
    pub success: bool,
    pub reason: String,
    pub password: String,
    pub parts: Vec<String>,
}

pub struct ResultView {
    pub file: Seq<char>,
    pub success: bool,
    pub reason: Seq<char>,
    pub password: Seq<char>,
    pub parts: Seq<Seq<char>>,
}

impl View for ExtractResult {
    type V = ResultView;

    open spec fn view(&self) -> ResultView {
        ResultView {
            file: self.file@,
            success: self.success,
            reason: self.reason@,
            password: self.password@,
            parts: strings_view(self.parts@),
        }
    }
}

pub open spec fn results_view(v: Seq<ExtractResult>) -> Seq<ResultView> {
    v.map_values(|r: ExtractResult| r@)
}

/// Where the current archive stands.
#[derive(Clone, Copy, PartialEq, Eq)]
pub enum Phase {
    /// Its progress is to be announced.
    Announce,
    /// Extraction without a password is under way.
    Plain,
    /// The split volumes are being listed; whether the extraction without a
    /// password succeeded.
    Parts(bool),
    /// 7-Zip is being asked whether the archive is encrypted.
    Probe,
    /// Extraction with the saved password of this index is under way.
    Password(usize),
    /// All archives are done.
    Finished,
}

/// What came of the last action.
pub enum ExtractEvent {
    /// The progress was announced.
    Announced,
    /// These are the archive's split volumes.
    Listed { parts: Vec<String> },
    /// An extraction ended: whether it succeeded, and 7-Zip's output.
    Extracted { ok: bool, message: String },
    /// The encryption test ended.
    Probed { needs_password: bool },
}

/// What the caller is to do next.
pub enum ExtractAction {
    Progress { current: usize, total: usize, file: String },
    Extract { archive: String, password: Option<String> },
    ListParts { archive: String },
    Probe { archive: String },
    Done,
}

/// A batch in progress. Its fields are private, so only `new` and `step`
/// shape it and it stays coherent (`job_wf`).
pub struct ExtractJob {
    files: Vec<String>,
    passwords: Vec<String>,
    index: usize,
    phase: Phase,
    parts: Vec<String>,
    message: String,
    results: Vec<ExtractResult>,
}

pub struct JobView {
    pub files: Seq<Seq<char>>,
    pub passwords: Seq<Seq<char>>,
    pub index: int,
    pub phase: Phase,
    pub parts: Seq<Seq<char>>,
    pub message: Seq<char>,
    pub results: Seq<ResultView>,
}

impl View for ExtractJob {
    type V = JobView;

    closed spec fn view(&self) -> JobView {
        JobView {
            files: strings_view(self.files@),
            passwords: strings_view(self.passwords@),
            index: self.index as int,
            phase: self.phase,
            parts: strings_view(self.parts@),
            message: self.message@,
            results: results_view(self.results@),
        }
    }
}

/// The reason given when no saved password opens an encrypted archive.
pub open spec fn all_passwords_wrong() -> Seq<char> {
    "All passwords incorrect"@
}

/// The reason given when 7-Zip failed for another cause: the last line of
/// its output, or "unknown error" when it wrote nothing.
pub open spec fn failure_reason(message: Seq<char>) -> Seq<char> {
    let ls = lines(message);
    if ls.len() > 0 {
        ls.last()
    } else {
        "未知错误"@
    }
}

/// The state is coherent: one result per archive done so far, each for its
/// archive, a password only on success and only a saved one; the phase fits
/// the position.
pub open spec fn job_wf(j: JobView) -> bool {
    &&& 0 <= j.index <= j.files.len()
    &&& j.results.len() == j.index
    &&& (j.phase == Phase::Finished <==> j.index == j.files.len())
    &&& (j.phase matches Phase::Password(k) ==> k < j.passwords.len())
    &&& j.passwords.len() <= usize::MAX
    &&& forall|i: int|
        0 <= i < j.results.len() ==> {
            &&& (#[trigger] j.results[i]).file == j.files[i]
            &&& (!j.results[i].success ==> j.results[i].password.len() == 0)
            &&& (j.results[i].password.len() > 0 ==> j.passwords.contains(
                j.results[i].password,
            ))
        }
}

/// The archive is done with result `r`; on to the next one.
pub open spec fn advance(j: JobView, r: ResultView) -> JobView {
    JobView {
        index: j.index + 1,
        phase: if j.index + 1 < j.files.len() {
            Phase::Announce
        } else {
            Phase::Finished
        },
        parts: seq![],
        message: seq![],
        results: j.results.push(r),
        ..j
    }
}

pub open spec fn result_of(
    j: JobView,
    success: bool,
    reason: Seq<char>,
    password: Seq<char>,
) -> ResultView {
    ResultView { file: j.files[j.index], success, reason, password, parts: j.parts }
}

/// The state after an event; an event that does not fit the phase changes
/// nothing.
pub open spec fn step_spec(j: JobView, e: ExtractEvent) -> JobView {
    match (j.phase, e) {
        (Phase::Announce, ExtractEvent::Announced) => JobView { phase: Phase::Plain, ..j },
        (Phase::Plain, ExtractEvent::Extracted { ok, message }) => JobView {
            phase: Phase::Parts(ok),
            message: message@,
            ..j
        },
        (Phase::Parts(ok), ExtractEvent::Listed { parts }) => {
            let j1 = JobView { parts: strings_view(parts@), ..j };
            if ok {
                advance(j1, result_of(j1, true, seq![], seq![]))
            } else {
                JobView { phase: Phase::Probe, ..j1 }
            }
        },
        (Phase::Probe, ExtractEvent::Probed { needs_password }) => if !needs_password {
            advance(j, result_of(j, false, failure_reason(j.message), seq![]))
        } else if j.passwords.len() > 0 {
            JobView { phase: Phase::Password(0), ..j }
        } else {
            advance(j, result_of(j, false, all_passwords_wrong(), seq![]))
        },
        (Phase::Password(k), ExtractEvent::Extracted { ok, message }) => if ok {
            advance(j, result_of(j, true, seq![], j.passwords[k as int]))
        } else if k + 1 < j.passwords.len() {
            JobView { phase: Phase::Password((k + 1) as usize), ..j }
        } else {
            advance(j, result_of(j, false, all_passwords_wrong(), seq![]))
        },
        _ => j,
    }
}

/// The action that a state calls for.
pub open spec fn action_ok(j: JobView, a: ExtractAction) -> bool {
    match j.phase {
        Phase::Announce => a matches ExtractAction::Progress { current, total, file } && current
            == j.index + 1 && total == j.files.len() && file@ == j.files[j.index],
        Phase::Plain => a matches ExtractAction::Extract { archive, password } && archive@
            == j.files[j.index] && password is None,
        Phase::Parts(_) => a matches ExtractAction::ListParts { archive } && archive@
            == j.files[j.index],
        Phase::Probe => a matches ExtractAction::Probe { archive } && archive@ == j.files[j.index],
        Phase::Password(k) => a matches ExtractAction::Extract { archive, password } && archive@
            == j.files[j.index] && (password matches Some(p) && p@ == j.passwords[k as int]),
        Phase::Finished => a is Done,
    }
}

fn failure_reason_exec(message: &String) -> (r: String)
    ensures
        r@ == failure_reason(message@),
{
    let v = chars_of(message.as_str());
    let ls = split_lines(&v);
    if ls.len() > 0 {
        string_from_chars(&ls[ls.len() - 1])
    } else {
        String::from_str("未知错误")
    }
}

impl ExtractJob {
    /// A batch over `files` with the saved `passwords`, before anything ran.
    pub fn new(files: Vec<String>, passwords: Vec<String>) -> (job: ExtractJob)
        ensures
            job_wf(job@),
            job@.files == strings_view(files@),
            job@.passwords == strings_view(passwords@),
            job@.index == 0,
            job@.results.len() == 0,
            job@.phase == if files@.len() > 0 {
                Phase::Announce
            } else {
                Phase::Finished
            },
    {
        let phase = if files.len() > 0 {
            Phase::Announce
        } else {
            Phase::Finished
        };
        let job = ExtractJob {
            files,
            passwords,
            index: 0,
            phase,
            parts: Vec::new(),
            message: String::new(),
            results: Vec::new(),
        };
        proof {
            assert(results_view(job.results@) =~= Seq::<ResultView>::empty());
            assert(job.passwords@.len() <= usize::MAX) by {
                assert(job.passwords.len() == job.passwords@.len());
            }
        }
        job
    }

    /// The results of the archives done so far, in order.
    pub fn results(&self) -> (r: &Vec<ExtractResult>)
        ensures
            results_view(r@) == self@.results,
    {
        &self.results
    }

    /// The results, once the batch is no longer needed.
    pub fn into_results(self) -> (r: Vec<ExtractResult>)
        ensures
            results_view(r@) == self@.results,
    {
        self.results
    }

    /// What the caller is to do next.
    pub fn next_action(&self) -> (a: ExtractAction)
        requires
            job_wf(self@),
        ensures
            action_ok(self@, a),
    {
        proof {
            assert(self@.files.len() == self.files@.len());
            assert(self@.passwords.len() == self.passwords@.len());
        }
        match self.phase {
            Phase::Announce => {
                assert(self.index < self.files.len());
                ExtractAction::Progress {
                    current: self.index + 1,
                    total: self.files.len(),
                    file: self.files[self.index].clone(),
                }
            },
            Phase::Plain => ExtractAction::Extract {
                archive: self.files[self.index].clone(),
                password: None,
            },
            Phase::Parts(_) => ExtractAction::ListParts { archive: self.files[self.index].clone() },
            Phase::Probe => ExtractAction::Probe { archive: self.files[self.index].clone() },
            Phase::Password(k) => ExtractAction::Extract {
                archive: self.files[self.index].clone(),
                password: Some(self.passwords[k].clone()),
            },
            Phase::Finished => ExtractAction::Done,
        }
    }

    fn finish_file(&mut self, success: bool, reason: String, password: String)
        requires
            job_wf(old(self)@),
            old(self).index < old(self).files@.len(),
            !success ==> password@.len() == 0,
            password@.len() > 0 ==> old(self)@.passwords.contains(password@),
        ensures
            final(self)@ == advance(
                old(self)@,
                result_of(old(self)@, success, reason@, password@),
            ),
            job_wf(final(self)@),
    {
        let mut parts: Vec<String> = Vec::new();
        std::mem::swap(&mut parts, &mut self.parts);
        let r = ExtractResult {
            file: self.files[self.index].clone(),
            success,
            reason,
            password,
            parts,
        };
        let ghost before = results_view(self.results@);
        assert(self.index < self.files.len());
        self.results.push(r);
        self.index = self.index + 1;
        self.phase = if self.index < self.files.len() {
            Phase::Announce
        } else {
            Phase::Finished
        };
        self.message = String::new();
        proof {
            assert(results_view(self.results@) =~= before.push(r@));
            assert(strings_view(self.parts@) =~= Seq::<Seq<char>>::empty());
            let j = self@;
            assert forall|i: int| 0 <= i < j.results.len() implies {
                &&& (#[trigger] j.results[i]).file == j.files[i]
                &&& (!j.results[i].success ==> j.results[i].password.len() == 0)
                &&& (j.results[i].password.len() > 0 ==> j.passwords.contains(
                    j.results[i].password,
                ))
            } by {
                if i < before.len() {
                    assert(j.results[i] == before[i]);
                }
            }
        }
    }

    /// The state after what came of the last action.
    pub fn step(&mut self, event: ExtractEvent)
        requires
            job_wf(old(self)@),
        ensures
            final(self)@ == step_spec(old(self)@, event),
            job_wf(final(self)@),
    {
        let ghost j = self@;
        proof {
            assert(self@.files.len() == self.files@.len());
            assert(self@.passwords.len() == self.passwords@.len());
        }
        match (self.phase, event) {
            (Phase::Announce, ExtractEvent::Announced) => {
                self.phase = Phase::Plain;
            },
            (Phase::Plain, ExtractEvent::Extracted { ok, message }) => {
                self.message = message;
                self.phase = Phase::Parts(ok);
            },
            (Phase::Parts(ok), ExtractEvent::Listed { parts }) => {
                self.parts = parts;
                if ok {
                    self.finish_file(true, String::new(), String::new());
                } else {
                    self.phase = Phase::Probe;
                }
            },
            (Phase::Probe, ExtractEvent::Probed { needs_password }) => {
                if !needs_password {
                    let reason = failure_reason_exec(&self.message);
                    self.finish_file(false, reason, String::new());
                } else if self.passwords.len() > 0 {
                    self.phase = Phase::Password(0);
                } else {
                    self.finish_file(false, String::from_str("All passwords incorrect"), String::new());
                }
            },
            (Phase::Password(k), ExtractEvent::Extracted { ok, message }) => {
                if ok {
                    let pw = self.passwords[k].clone();
                    proof {
                        assert(strings_view(self.passwords@)[k as int] == pw@);
                    }
                    self.finish_file(true, String::new(), pw);
                } else if k < self.passwords.len() - 1 {
                    self.phase = Phase::Password(k + 1);
                } else {
                    self.finish_file(false, String::from_str("All passwords incorrect"), String::new());
                }
            },
            _ => {},
        }
    }
}

/// The results when the 7-Zip executable is missing: every archive fails,
/// with a reason that names the path where 7-Zip was looked for.
pub fn missing_tool_results(files: &Vec<String>, tool_path: &str) -> (r: Vec<ExtractResult>)
    ensures
        r@.len() == files@.len(),
        forall|i: int|
            0 <= i < r@.len() ==> (#[trigger] r@[i])@ == (ResultView {
                file: files@[i]@,
                success: false,
                reason: "7-Zip 未找到: "@ + tool_path@,
                password: seq![],
                parts: seq![],
            }),
{
    let mut r: Vec<ExtractResult> = Vec::new();
    let mut i: usize = 0;
    while i < files.len()
        invariant
            0 <= i <= files@.len(),
            r@.len() == i,
            forall|k: int|
                0 <= k < i ==> (#[trigger] r@[k])@ == (ResultView {
                    file: files@[k]@,
                    success: false,
                    reason: "7-Zip 未找到: "@ + tool_path@,
                    password: seq![],
                    parts: seq![],
                }),
        decreases files@.len() - i,
    {
        let mut reason = String::from_str("7-Zip 未找到: ");
        reason.append(tool_path);
        let res = ExtractResult {
            file: files[i].clone(),
            success: false,
            reason,
            password: String::new(),
            parts: Vec::new(),
        };
        proof {
            assert(strings_view(res.parts@) =~= Seq::<Seq<char>>::empty());
        }
        r.push(res);
        i = i + 1;
    }
    r
}

/// Where an archive is extracted to: the chosen output directory, or, when
/// none is chosen, the archive's own directory (`.` when it has none).
pub fn output_dir_for(out_dir: &str, archive_parent: Option<&str>) -> (dir: String)
    ensures
        dir@ == if out_dir@.len() > 0 {
            out_dir@
        } else {
            match archive_parent {
                Some(p) => p@,
                None => "."@,
            }
        },
{
    if !out_dir.is_empty() {
        String::from_str(out_dir)
    } else {
        match archive_parent {
            Some(p) => String::from_str(p),
            None => String::from_str("."),
        }
    }
}

/// The event that the phase waits for.
pub open spec fn event_fits(phase: Phase, e: ExtractEvent) -> bool {
    match phase {
        Phase::Announce => e is Announced,
        Phase::Plain => e is Extracted,
        Phase::Parts(_) => e is Listed,
        Phase::Probe => e is Probed,
        Phase::Password(_) => e is Extracted,
        Phase::Finished => false,
    }
}

/// How much work is left, counted in steps.
pub open spec fn work_left(j: JobView) -> int {
    let p = j.passwords.len() as int;
    match j.phase {
        Phase::Finished => 0,
        _ => (j.files.len() - j.index - 1) * (p + 5) + match j.phase {
            Phase::Announce => p + 4,
            Phase::Plain => p + 3,
            Phase::Parts(_) => p + 2,
            Phase::Probe => p + 1,
            Phase::Password(k) => p - k,
            Phase::Finished => 0,
        },
    }
}

proof fn lemma_products(n: int, p: int, rank: int, rank2: int)
    requires
        n >= 0,
        p >= 0,
        rank >= 1,
        0 <= rank2 < rank,
    ensures
        n >= 1 ==> (n - 1) * (p + 5) + (p + 4) < n * (p + 5) + rank,
        n >= 1 ==> (n - 1) * (p + 5) + (p + 4) >= 0,
        0 < n * (p + 5) + rank,
        0 <= n * (p + 5) + rank2 < n * (p + 5) + rank,
{
    assert(n * (p + 5) >= 0) by (nonlinear_arith)
        requires
            n >= 0,
            p >= 0,
    ;
    if n >= 1 {
        assert((n - 1) * (p + 5) >= 0) by (nonlinear_arith)
            requires
                n >= 1,
                p >= 0,
        ;
        assert((n - 1) * (p + 5) + (p + 5) == n * (p + 5)) by (nonlinear_arith);
    }
}

/// Every event that a phase waits for brings the batch closer to its end:
/// the work left shrinks and stays non-negative, and the state stays
/// coherent. So a batch over finitely many archives and passwords always
/// finishes, with one result per archive.
pub proof fn law_extraction_progresses(j: JobView, e: ExtractEvent)
    requires
        job_wf(j),
        event_fits(j.phase, e),
    ensures
        job_wf(step_spec(j, e)),
        0 <= work_left(step_spec(j, e)) < work_left(j),
{
    let j2 = step_spec(j, e);
    let p = j.passwords.len() as int;
    let n = j.files.len() - j.index - 1;
    let rank: int = match j.phase {
        Phase::Announce => p + 4,
        Phase::Plain => p + 3,
        Phase::Parts(_) => p + 2,
        Phase::Probe => p + 1,
        Phase::Password(k) => p - k,
        Phase::Finished => 0,
    };
    let rank2: int = match j2.phase {
        Phase::Announce => p + 4,
        Phase::Plain => p + 3,
        Phase::Parts(_) => p + 2,
        Phase::Probe => p + 1,
        Phase::Password(k) => p - k,
        Phase::Finished => 0,
    };
    if j2.index == j.index {
        lemma_products(n, p, rank, rank2);
    } else {
        lemma_products(n, p, rank, 0);
    }
    // The state stays coherent.
    if j2.index == j.index + 1 {
        let r = j2.results.last();
        assert forall|i: int| 0 <= i < j2.results.len() implies {
            &&& (#[trigger] j2.results[i]).file == j2.files[i]
            &&& (!j2.results[i].success ==> j2.results[i].password.len() == 0)
            &&& (j2.results[i].password.len() > 0 ==> j2.passwords.contains(
                j2.results[i].password,
            ))
        } by {
            if i < j.results.len() {
                assert(j2.results[i] == j.results[i]);
            } else {
                if let Phase::Password(k) = j.phase {
                    if r.password.len() > 0 {
                        assert(j.passwords[k as int] == r.password);
                    }
                }
            }
        }
    }
}

/// The state after the same event `e` came `n` times in a row.
pub open spec fn repeated(j: JobView, e: ExtractEvent, n: nat) -> JobView
    decreases n,
{
    if n == 0 {
        j
    } else {
        step_spec(repeated(j, e, (n - 1) as nat), e)
    }
}

/// A saved password that does not open the archive is followed by the next
/// one, for the same archive and with no result yet; after the last one the
/// archive fails with "All passwords incorrect". A password that works
/// ends the archive with success and that password.
pub proof fn law_password_retry_step(j: JobView, e: ExtractEvent, k: usize)
    requires
        job_wf(j),
        j.phase == Phase::Password(k),
        e is Extracted,
    ensures
        (e matches ExtractEvent::Extracted { ok, .. } && !ok && k + 1 < j.passwords.len())
            ==> step_spec(j, e) == (JobView { phase: Phase::Password((k + 1) as usize), ..j }),
        (e matches ExtractEvent::Extracted { ok, .. } && !ok && k + 1 == j.passwords.len())
            ==> step_spec(j, e).index == j.index + 1 && step_spec(j, e).results == j.results.push(
            ResultView {
                file: j.files[j.index],
                success: false,
                reason: "All passwords incorrect"@,
                password: seq![],
                parts: j.parts,
            },
        ),
        (e matches ExtractEvent::Extracted { ok, .. } && ok) ==> step_spec(j, e).index == j.index
            + 1 && step_spec(j, e).results == j.results.push(
            ResultView {
                file: j.files[j.index],
                success: true,
                reason: seq![],
                password: j.passwords[k as int],
                parts: j.parts,
            },
        ),
{
}

/// Every saved password is tried, in order, before an encrypted archive is
/// given up: once 7-Zip reports that the archive needs a password, `n`
/// failed attempts (fewer than there are passwords) lead to trying the
/// password at index `n` for the same archive, with no result recorded;
/// only after a failure with each of the saved passwords does the archive
/// get its one result, a failure with reason "All passwords incorrect".
pub proof fn law_every_password_is_tried(
    j: JobView,
    probed: ExtractEvent,
    failed: ExtractEvent,
    n: nat,
)
    requires
        job_wf(j),
        j.phase == Phase::Probe,
        probed matches ExtractEvent::Probed { needs_password } && needs_password,
        failed matches ExtractEvent::Extracted { ok, .. } && !ok,
        j.passwords.len() > 0,
        n <= j.passwords.len(),
    ensures
        n < j.passwords.len() ==> repeated(step_spec(j, probed), failed, n) == (JobView {
            phase: Phase::Password(n as usize),
            ..j
        }),
        n == j.passwords.len() ==> repeated(step_spec(j, probed), failed, n).index == j.index + 1
            && repeated(step_spec(j, probed), failed, n).results == j.results.push(
            ResultView {
                file: j.files[j.index],
                success: false,
                reason: "All passwords incorrect"@,
                password: seq![],
                parts: j.parts,
            },
        ),
    decreases n,
{
    if n > 0 {
        law_every_password_is_tried(j, probed, failed, (n - 1) as nat);
        let prev = repeated(step_spec(j, probed), failed, (n - 1) as nat);
        assert(prev == (JobView { phase: Phase::Password((n - 1) as usize), ..j }));
        assert(job_wf(prev));
        law_password_retry_step(prev, failed, (n - 1) as usize);
    }
}

} // verus!
