//! The registry of processing jobs: what stage each job has reached, what
//! it produced, and whether it was canceled.

use vstd::prelude::*;
use crate::timeline::Millis;
use crate::provider::str_equals;

verus! {

/// How far a job has come.
#[derive(Clone, Debug)]
pub struct Progress {
    pub stage: String,
    /// The share of the work done, in thousandths.
    pub permille: u32,
    pub eta_seconds: Option<u64>,
}

/// What a finished job produced.
#[derive(Clone, Debug)]
pub struct ProcessingResult {
    pub output_path: String,
    pub original_duration: Millis,
    pub final_duration: Millis,
    pub silences_removed: u32,
    pub repetitions_removed: u32,
}

/// A job of the registry.
#[derive(Clone, Debug)]
pub struct ProcessingJob {
    pub id: String,
    pub progress: Progress,
    pub result: Option<ProcessingResult>,
    pub canceled: bool,
}

/// The jobs known to the program.
#[derive(Clone, Debug)]
pub struct JobRegistry {
    pub jobs: Vec<ProcessingJob>,
}

pub struct ProgressView {
    pub stage: Seq<char>,
    pub permille: u32,
    pub eta_seconds: Option<u64>,
}

pub struct ResultView {
    pub output_path: Seq<char>,
    pub original_duration: Millis,
    pub final_duration: Millis,
    pub silences_removed: u32,
    pub repetitions_removed: u32,
}

pub struct JobView {
    pub id: Seq<char>,
    pub progress: ProgressView,
    pub result: Option<ResultView>,
    pub canceled: bool,
}

impl View for Progress {
    type V = ProgressView;

    open spec fn view(&self) -> ProgressView {
        ProgressView { stage: self.stage@, permille: self.permille, eta_seconds: self.eta_seconds }
    }
}

impl View for ProcessingResult {
    type V = ResultView;

    open spec fn view(&self) -> ResultView {
        ResultView {
            output_path: self.output_path@,
            original_duration: self.original_duration,
            final_duration: self.final_duration,
            silences_removed: self.silences_removed,
            repetitions_removed: self.repetitions_removed,
        }
    }
}

pub open spec fn result_view(r: Option<ProcessingResult>) -> Option<ResultView> {
    match r {
        Some(r) => Some(r@),
        None => None,
    }
}

impl View for ProcessingJob {
    type V = JobView;

    open spec fn view(&self) -> JobView {
        JobView {
            id: self.id@,
            progress: self.progress@,
            result: result_view(self.result),
            canceled: self.canceled,
        }
    }
}

impl View for JobRegistry {
    type V = Seq<JobView>;

    open spec fn view(&self) -> Seq<JobView> {
        self.jobs@.map_values(|j: ProcessingJob| j@)
    }
}

/// The first job of the given id, if there is one.
pub open spec fn find_job(jobs: Seq<JobView>, id: Seq<char>, k: int) -> Option<JobView>
    decreases jobs.len() - k,
{
    if k >= jobs.len() || k < 0 {
        None
    } else if jobs[k].id == id {
        Some(jobs[k])
    } else {
        find_job(jobs, id, k + 1)
    }
}

/// A job after a cancel request for `id`.
pub open spec fn canceled_job(j: JobView, id: Seq<char>) -> JobView {
    if j.id == id {
        JobView { canceled: true, ..j }
    } else {
        j
    }
}

/// A job after a progress report for `id`: a canceled job keeps the
/// progress it had.
pub open spec fn advanced_job(j: JobView, id: Seq<char>, progress: ProgressView) -> JobView {
    if j.id == id && !j.canceled {
        JobView { progress, ..j }
    } else {
        j
    }
}

/// A job after `id` has finished with `result`: the result is recorded and
/// the progress is complete.
pub open spec fn finished_job(j: JobView, id: Seq<char>, result: ResultView) -> JobView {
    if j.id == id {
        JobView {
            result: Some(result),
            progress: ProgressView { permille: 1000, ..j.progress },
            ..j
        }
    } else {
        j
    }
}

/// The registry after a cancel request.
pub open spec fn after_cancel(jobs: Seq<JobView>, id: Seq<char>) -> Seq<JobView> {
    jobs.map_values(|j: JobView| canceled_job(j, id))
}

/// The registry after a progress report.
pub open spec fn after_progress(jobs: Seq<JobView>, id: Seq<char>, progress: ProgressView) -> Seq<
    JobView,
> {
    jobs.map_values(|j: JobView| advanced_job(j, id, progress))
}

/// The registry after a job has finished.
pub open spec fn after_finish(jobs: Seq<JobView>, id: Seq<char>, result: ResultView) -> Seq<JobView> {
    jobs.map_values(|j: JobView| finished_job(j, id, result))
}

pub fn copy_progress(p: &Progress) -> (c: Progress)
    ensures
        c@ == p@,
{
    Progress { stage: p.stage.clone(), permille: p.permille, eta_seconds: p.eta_seconds }
}

pub fn copy_result(r: &ProcessingResult) -> (c: ProcessingResult)
    ensures
        c@ == r@,
{
    ProcessingResult {
        output_path: r.output_path.clone(),
        original_duration: r.original_duration,
        final_duration: r.final_duration,
        silences_removed: r.silences_removed,
        repetitions_removed: r.repetitions_removed,
    }
}

pub fn copy_optional_result(r: &Option<ProcessingResult>) -> (c: Option<ProcessingResult>)
    ensures
        result_view(c) == result_view(*r),
{
    match r {
        Some(r) => Some(copy_result(r)),
        None => None,
    }
}

/// No two jobs of the registry have the same id.
pub open spec fn unique_ids(jobs: Seq<JobView>) -> bool {
    forall|i: int, j: int| 0 <= i < j < jobs.len() ==> jobs[i].id != jobs[j].id
}

/// The ids of two registries agree job by job.
pub open spec fn same_ids(a: Seq<JobView>, b: Seq<JobView>) -> bool {
    a.len() == b.len() && forall|i: int| 0 <= i < a.len() ==> (#[trigger] a[i]).id == b[i].id
}

/// The jobs whose id is not `id`, in order.
pub open spec fn without_job(jobs: Seq<JobView>, id: Seq<char>) -> Seq<JobView> {
    jobs.filter(|j: JobView| j.id != id)
}

/// A job at the start of its first stage.
pub open spec fn fresh_job(id: Seq<char>) -> JobView {
    JobView {
        id,
        progress: ProgressView { stage: "extracting"@, permille: 0, eta_seconds: None },
        result: None,
        canceled: false,
    }
}

/// The registry after a job has been entered under `id`: a job that held
/// the id before is replaced.
pub open spec fn after_start(jobs: Seq<JobView>, id: Seq<char>) -> Seq<JobView> {
    without_job(jobs, id).push(fresh_job(id))
}

/// Leaving out the jobs of one id keeps the others, in order, and keeps ids
/// unique.
pub proof fn lemma_without_job(jobs: Seq<JobView>, id: Seq<char>)
    ensures
        forall|i: int|
            0 <= i < without_job(jobs, id).len() ==> (#[trigger] without_job(jobs, id)[i]).id != id
                && jobs.contains(without_job(jobs, id)[i]),
        unique_ids(jobs) ==> unique_ids(without_job(jobs, id)),
        without_job(jobs, id).len() <= jobs.len(),
    decreases jobs.len(),
{
    reveal(Seq::filter);
    if jobs.len() > 0 {
        let d = jobs.drop_last();
        let r = without_job(jobs, id);
        let rd = without_job(d, id);
        lemma_without_job(d, id);
        assert forall|i: int| 0 <= i < r.len() implies (#[trigger] r[i]).id != id && jobs.contains(
            r[i],
        ) by {
            if i < rd.len() {
                assert(d.contains(rd[i]));
                let k = choose|k: int| 0 <= k < d.len() && d[k] == rd[i];
                assert(jobs[k] == rd[i]);
            } else {
                assert(jobs[jobs.len() - 1] == r[i]);
            }
        }
        if unique_ids(jobs) {
            assert(unique_ids(d));
            assert forall|i: int, j: int| 0 <= i < j < r.len() implies r[i].id != r[j].id by {
                if j < rd.len() {
                    assert(rd[i].id != rd[j].id);
                } else {
                    assert(d.contains(rd[i]));
                    let k = choose|k: int| 0 <= k < d.len() && d[k] == rd[i];
                    assert(jobs[k].id != jobs[jobs.len() - 1].id);
                }
            }
        }
    }
}

/// A change that leaves every id in place keeps ids unique.
pub proof fn lemma_same_ids_unique(before: Seq<JobView>, after: Seq<JobView>)
    requires
        same_ids(before, after),
        unique_ids(before),
    ensures
        unique_ids(after),
{
    assert forall|i: int, j: int| 0 <= i < j < after.len() implies after[i].id != after[j].id by {
        assert(before[i].id == after[i].id);
        assert(before[j].id == after[j].id);
    }
}

pub fn copy_job(j: &ProcessingJob) -> (c: ProcessingJob)
    ensures
        c@ == j@,
{
    ProcessingJob {
        id: j.id.clone(),
        progress: copy_progress(&j.progress),
        result: copy_optional_result(&j.result),
        canceled: j.canceled,
    }
}

impl JobRegistry {
    /// A registry names each job once.
    pub open spec fn wf(&self) -> bool {
        unique_ids(self@)
    }

    pub fn new() -> (r: JobRegistry)
        ensures
            r@.len() == 0,
            r.wf(),
    {
        JobRegistry { jobs: Vec::new() }
    }

    /// Enters a new job, at the start of its first stage. A job that held
    /// the id before is replaced, so that no id is held twice.
    pub fn start(&mut self, job_id: &str)
        ensures
            final(self)@ == after_start(old(self)@, job_id@),
            old(self).wf() ==> final(self).wf(),
    {
        let ghost before = self@;
        let mut jobs: Vec<ProcessingJob> = Vec::new();
        let mut i: usize = 0;
        proof {
            reveal(Seq::filter);
            assert(jobs@.map_values(|j: ProcessingJob| j@) =~= without_job(before.take(0), job_id@));
        }
        while i < self.jobs.len()
            invariant
                i <= self.jobs.len(),
                before == self@,
                jobs@.map_values(|j: ProcessingJob| j@) == without_job(
                    before.take(i as int),
                    job_id@,
                ),
            decreases self.jobs.len() - i,
        {
            proof {
                reveal(Seq::filter);
                assert(before.take(i + 1).drop_last() =~= before.take(i as int));
            }
            if !str_equals(self.jobs[i].id.as_str(), job_id) {
                let ghost held = jobs@;
                let job = copy_job(&self.jobs[i]);
                jobs.push(job);
                proof {
                    assert(jobs@.map_values(|j: ProcessingJob| j@) =~= held.map_values(
                        |j: ProcessingJob| j@,
                    ).push(before[i as int]));
                }
            }
            i += 1;
        }
        proof {
            assert(before.take(i as int) =~= before);
        }
        let job = ProcessingJob {
            id: String::from_str(job_id),
            progress: Progress {
                stage: String::from_str("extracting"),
                permille: 0,
                eta_seconds: None,
            },
            result: None,
            canceled: false,
        };
        let ghost held = jobs@;
        jobs.push(job);
        self.jobs = jobs;
        proof {
            assert(self@ =~= held.map_values(|j: ProcessingJob| j@).push(fresh_job(job_id@)));
            lemma_without_job(before, job_id@);
            if unique_ids(before) {
                let kept = without_job(before, job_id@);
                let now = self@;
                assert forall|a: int, b: int| 0 <= a < b < now.len() implies now[a].id
                    != now[b].id by {
                    if b < kept.len() {
                        assert(kept[a].id != kept[b].id);
                    } else {
                        assert(kept[a].id != job_id@);
                    }
                }
            }
        }
    }
}

/// Reports the progress of a job. A job that was canceled keeps the
/// progress it had; a job that is not known is not created.
pub fn update_progress(
    registry: &mut JobRegistry,
    job_id: &str,
    stage: &str,
    permille: u32,
    eta_seconds: Option<u64>,
)
    ensures
        final(registry)@ == after_progress(
            old(registry)@,
            job_id@,
            ProgressView { stage: stage@, permille, eta_seconds },
        ),
        same_ids(old(registry)@, final(registry)@),
        old(registry).wf() ==> final(registry).wf(),
{
    let ghost before = registry@;
    let ghost progress = ProgressView { stage: stage@, permille, eta_seconds };
    let mut i: usize = 0;
    while i < registry.jobs.len()
        invariant
            i <= registry.jobs.len(),
            registry@.len() == before.len(),
            progress == (ProgressView { stage: stage@, permille, eta_seconds }),
            forall|k: int| 0 <= k < i ==> registry@[k] == advanced_job(before[k], job_id@, progress),
            forall|k: int| i <= k < before.len() ==> registry@[k] == before[k],
        decreases registry.jobs.len() - i,
    {
        if str_equals(registry.jobs[i].id.as_str(), job_id) && !registry.jobs[i].canceled {
            let job = ProcessingJob {
                id: registry.jobs[i].id.clone(),
                progress: Progress { stage: String::from_str(stage), permille, eta_seconds },
                result: copy_optional_result(&registry.jobs[i].result),
                canceled: false,
            };
            let ghost snapshot = registry@;
            let ghost made = job@;
            registry.jobs[i] = job;
            proof {
                assert(registry@ =~= snapshot.update(i as int, made));
            }
        }
        i += 1;
    }
    proof {
        assert(registry@ =~= after_progress(before, job_id@, progress));
        assert(same_ids(before, registry@));
        if unique_ids(before) {
            lemma_same_ids_unique(before, registry@);
        }
    }
}

/// The progress of the first job of the given id.
pub fn get_progress(registry: &JobRegistry, job_id: &str) -> (p: Option<Progress>)
    ensures
        match find_job(registry@, job_id@, 0) {
            Some(j) => p is Some && p->0@ == j.progress,
            None => p is None,
        },
{
    let mut i: usize = 0;
    while i < registry.jobs.len()
        invariant
            i <= registry.jobs.len(),
            find_job(registry@, job_id@, i as int) == find_job(registry@, job_id@, 0),
        decreases registry.jobs.len() - i,
    {
        if str_equals(registry.jobs[i].id.as_str(), job_id) {
            return Some(copy_progress(&registry.jobs[i].progress));
        }
        i += 1;
    }
    None
}

/// The result of the first job of the given id, once it has one.
pub fn get_result(registry: &JobRegistry, job_id: &str) -> (r: Option<ProcessingResult>)
    ensures
        match find_job(registry@, job_id@, 0) {
            Some(j) => result_view(r) == j.result,
            None => r is None,
        },
{
    let mut i: usize = 0;
    while i < registry.jobs.len()
        invariant
            i <= registry.jobs.len(),
            find_job(registry@, job_id@, i as int) == find_job(registry@, job_id@, 0),
        decreases registry.jobs.len() - i,
    {
        if str_equals(registry.jobs[i].id.as_str(), job_id) {
            return copy_optional_result(&registry.jobs[i].result);
        }
        i += 1;
    }
    None
}

/// Whether the first job of the given id was canceled.
pub fn is_canceled(registry: &JobRegistry, job_id: &str) -> (b: bool)
    ensures
        b == match find_job(registry@, job_id@, 0) {
            Some(j) => j.canceled,
            None => false,
        },
{
    let mut i: usize = 0;
    while i < registry.jobs.len()
        invariant
            i <= registry.jobs.len(),
            find_job(registry@, job_id@, i as int) == find_job(registry@, job_id@, 0),
        decreases registry.jobs.len() - i,
    {
        if str_equals(registry.jobs[i].id.as_str(), job_id) {
            return registry.jobs[i].canceled;
        }
        i += 1;
    }
    false
}

/// Marks a job as canceled. Its progress is frozen from then on; nothing
/// else about it changes, and no other job is touched.
pub fn cancel_processing(registry: &mut JobRegistry, job_id: &str)
    ensures
        final(registry)@ == after_cancel(old(registry)@, job_id@),
        same_ids(old(registry)@, final(registry)@),
        old(registry).wf() ==> final(registry).wf(),
{
    let ghost before = registry@;
    let mut i: usize = 0;
    while i < registry.jobs.len()
        invariant
            i <= registry.jobs.len(),
            registry@.len() == before.len(),
            forall|k: int| 0 <= k < i ==> registry@[k] == canceled_job(before[k], job_id@),
            forall|k: int| i <= k < before.len() ==> registry@[k] == before[k],
        decreases registry.jobs.len() - i,
    {
        if str_equals(registry.jobs[i].id.as_str(), job_id) {
            let job = ProcessingJob {
                id: registry.jobs[i].id.clone(),
                progress: copy_progress(&registry.jobs[i].progress),
                result: copy_optional_result(&registry.jobs[i].result),
                canceled: true,
            };
            let ghost snapshot = registry@;
            let ghost made = job@;
            registry.jobs[i] = job;
            proof {
                assert(registry@ =~= snapshot.update(i as int, made));
            }
        }
        i += 1;
    }
    proof {
        assert(registry@ =~= after_cancel(before, job_id@));
        assert(same_ids(before, registry@));
        if unique_ids(before) {
            lemma_same_ids_unique(before, registry@);
        }
    }
}

/// Records the result of a finished job and completes its progress.
pub fn finish_job(registry: &mut JobRegistry, job_id: &str, result: &ProcessingResult)
    ensures
        final(registry)@ == after_finish(old(registry)@, job_id@, result@),
        same_ids(old(registry)@, final(registry)@),
        old(registry).wf() ==> final(registry).wf(),
{
    let ghost before = registry@;
    let mut i: usize = 0;
    while i < registry.jobs.len()
        invariant
            i <= registry.jobs.len(),
            registry@.len() == before.len(),
            forall|k: int| 0 <= k < i ==> registry@[k] == finished_job(before[k], job_id@, result@),
            forall|k: int| i <= k < before.len() ==> registry@[k] == before[k],
        decreases registry.jobs.len() - i,
    {
        if str_equals(registry.jobs[i].id.as_str(), job_id) {
            let job = ProcessingJob {
                id: registry.jobs[i].id.clone(),
                progress: Progress {
                    stage: registry.jobs[i].progress.stage.clone(),
                    permille: 1000,
                    eta_seconds: registry.jobs[i].progress.eta_seconds,
                },
                result: Some(copy_result(result)),
                canceled: registry.jobs[i].canceled,
            };
            let ghost snapshot = registry@;
            let ghost made = job@;
            registry.jobs[i] = job;
            proof {
                assert(registry@ =~= snapshot.update(i as int, made));
            }
        }
        i += 1;
    }
    proof {
        assert(registry@ =~= after_finish(before, job_id@, result@));
        assert(same_ids(before, registry@));
        if unique_ids(before) {
            lemma_same_ids_unique(before, registry@);
        }
    }
}

/// A job after `id` has failed: its stage reads `error`.
pub open spec fn failed_job(j: JobView, id: Seq<char>) -> JobView {
    if j.id == id {
        JobView { progress: ProgressView { stage: "error"@, ..j.progress }, ..j }
    } else {
        j
    }
}

/// The registry after a job has failed.
pub open spec fn after_failure(jobs: Seq<JobView>, id: Seq<char>) -> Seq<JobView> {
    jobs.map_values(|j: JobView| failed_job(j, id))
}

/// Records that a job has failed.
pub fn fail_job(registry: &mut JobRegistry, job_id: &str)
    ensures
        final(registry)@ == after_failure(old(registry)@, job_id@),
        same_ids(old(registry)@, final(registry)@),
        old(registry).wf() ==> final(registry).wf(),
{
    let ghost before = registry@;
    let mut i: usize = 0;
    while i < registry.jobs.len()
        invariant
            i <= registry.jobs.len(),
            registry@.len() == before.len(),
            forall|k: int| 0 <= k < i ==> registry@[k] == failed_job(before[k], job_id@),
            forall|k: int| i <= k < before.len() ==> registry@[k] == before[k],
        decreases registry.jobs.len() - i,
    {
        if str_equals(registry.jobs[i].id.as_str(), job_id) {
            let job = ProcessingJob {
                id: registry.jobs[i].id.clone(),
                progress: Progress {
                    stage: String::from_str("error"),
                    permille: registry.jobs[i].progress.permille,
                    eta_seconds: registry.jobs[i].progress.eta_seconds,
                },
                result: copy_optional_result(&registry.jobs[i].result),
                canceled: registry.jobs[i].canceled,
            };
            let ghost snapshot = registry@;
            let ghost made = job@;
            registry.jobs[i] = job;
            proof {
                assert(registry@ =~= snapshot.update(i as int, made));
            }
        }
        i += 1;
    }
    proof {
        assert(registry@ =~= after_failure(before, job_id@));
        assert(same_ids(before, registry@));
        if unique_ids(before) {
            lemma_same_ids_unique(before, registry@);
        }
    }
}

/// A cancel request holds: no progress report that follows it changes the
/// job's progress, and the job stays canceled.
pub proof fn lemma_cancel_holds(jobs: Seq<JobView>, id: Seq<char>, progress: ProgressView)
    ensures
        after_progress(after_cancel(jobs, id), id, progress) == after_cancel(jobs, id),
{
    assert(after_progress(after_cancel(jobs, id), id, progress) =~= after_cancel(jobs, id));
}

} // verus!
