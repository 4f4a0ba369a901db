//! The deliveries running on this device: at most `MAX_JOBS`, one per job id, each with the
//! handle that cancels it.
use crate::service::{admit_job, JobView, ALREADY_RUNNING, CLOSING, MAX_JOBS, TOO_MANY_JOBS};
use crate::text::equal_text;
use vstd::prelude::*;

verus! {

/// The message when a job to cancel is not running.
pub const NOT_RUNNING: &'static str = "Transfer is no longer running.";

/// A running delivery: what is shown of it, and its cancel handle until it is used.
pub struct Job<T> {
    pub view: JobView,
    pub handle: Option<T>,
}

/// The running deliveries.
pub struct JobTable<T> {
    jobs: Vec<Job<T>>,
}

/// The handles that are still held, in order.
pub open spec fn held<T>(hs: Seq<Option<T>>) -> Seq<T>
    decreases hs.len(),
{
    if hs.len() == 0 {
        Seq::empty()
    } else {
        match hs.last() {
            Some(h) => held(hs.drop_last()).push(h),
            None => held(hs.drop_last()),
        }
    }
}

/// What is shown of a job: its id, transfer key, recipient and direction.
pub open spec fn shown(v: JobView) -> (Seq<char>, Seq<char>, Seq<char>, Seq<char>) {
    (v.id@, v.key@, v.recipient@, v.direction@)
}

/// The ids of `jobs`.
pub open spec fn job_ids<T>(jobs: Seq<Job<T>>) -> Seq<Seq<char>> {
    jobs.map_values(|j: Job<T>| j.view.id@)
}

/// The views of `jobs`.
pub open spec fn job_views<T>(jobs: Seq<Job<T>>) -> Seq<(Seq<char>, Seq<char>, Seq<char>, Seq<char>)> {
    jobs.map_values(|j: Job<T>| shown(j.view))
}

/// The handles of `jobs`.
pub open spec fn job_handles<T>(jobs: Seq<Job<T>>) -> Seq<Option<T>> {
    jobs.map_values(|j: Job<T>| j.handle)
}

/// What is shown of each of `vs`.
pub open spec fn shown_all(vs: Seq<JobView>) -> Seq<(Seq<char>, Seq<char>, Seq<char>, Seq<char>)> {
    vs.map_values(|v: JobView| shown(v))
}

fn copy_view(v: &JobView) -> (r: JobView)
    ensures
        shown(r) == shown(*v),
{
    JobView {
        id: v.id.clone(),
        key: v.key.clone(),
        recipient: v.recipient.clone(),
        direction: v.direction.clone(),
    }
}

impl<T> JobTable<T> {
    /// The ids of the running jobs, in the order they started.
    pub closed spec fn ids(&self) -> Seq<Seq<char>> {
        job_ids(self.jobs@)
    }

    /// The views of the running jobs.
    pub closed spec fn views(&self) -> Seq<(Seq<char>, Seq<char>, Seq<char>, Seq<char>)> {
        job_views(self.jobs@)
    }

    /// Their cancel handles, where not used yet.
    pub closed spec fn handles(&self) -> Seq<Option<T>> {
        job_handles(self.jobs@)
    }

    /// The table's invariant: at most `MAX_JOBS` jobs, no job id twice, views and handles
    /// aligned with the ids.
    pub open spec fn wf(&self) -> bool {
        &&& self.ids().len() <= MAX_JOBS
        &&& self.ids().no_duplicates()
        &&& self.views().len() == self.ids().len()
        &&& self.handles().len() == self.ids().len()
        &&& forall|k: int| 0 <= k < self.ids().len() ==> (#[trigger] self.views()[k]).0 == self.ids()[k]
    }

    /// No job runs.
    pub fn new() -> (r: JobTable<T>)
        ensures
            r.wf(),
            r.ids() == Seq::<Seq<char>>::empty(),
    {
        let r = JobTable { jobs: Vec::new() };
        assert(r.ids() =~= Seq::<Seq<char>>::empty());
        r
    }

    /// How many jobs run.
    pub fn len(&self) -> (r: usize)
        ensures
            r == self.ids().len(),
    {
        self.jobs.len()
    }

    fn position(&self, id: &str) -> (r: Option<usize>)
        ensures
            match r {
                Some(k) => k < self.ids().len() && self.ids()[k as int] == id@,
                None => !self.ids().contains(id@),
            },
    {
        let mut k: usize = 0;
        while k < self.jobs.len()
            invariant
                0 <= k <= self.jobs.len(),
                forall|j: int| 0 <= j < k ==> self.ids()[j] != id@,
            decreases self.jobs.len() - k,
        {
            assert(self.ids()[k as int] == self.jobs@[k as int].view.id@);
            if equal_text(self.jobs[k].view.id.as_str(), id) {
                return Some(k);
            }
            k += 1;
        }
        None
    }

    /// Whether a job with id `id` runs.
    pub fn contains(&self, id: &str) -> (r: bool)
        ensures
            r == self.ids().contains(id@),
    {
        match self.position(id) {
            Some(k) => {
                assert(self.ids()[k as int] == id@);
                true
            },
            None => false,
        }
    }

    /// Whether job `id` could start now: it must not run yet and fewer than `MAX_JOBS` jobs
    /// may run.
    pub fn check(&self, id: &str) -> (r: Result<(), String>)
        ensures
            self.ids().contains(id@) ==> (r matches Err(e) && e@ == ALREADY_RUNNING@),
            !self.ids().contains(id@) && self.ids().len() >= MAX_JOBS ==> (r matches Err(e) && e@
                == TOO_MANY_JOBS@),
            r is Ok <==> !self.ids().contains(id@) && self.ids().len() < MAX_JOBS,
    {
        admit_job(self.contains(id), self.jobs.len(), false)
    }

    /// Starts job `view` with its cancel handle, unless it already runs, `MAX_JOBS` jobs run,
    /// or the application is closing; a refused job leaves the table as it was.
    pub fn start(&mut self, view: JobView, handle: T, closing: bool) -> (r: Result<(), String>)
        requires
            old(self).wf(),
        ensures
            final(self).wf(),
            old(self).ids().contains(view.id@) ==> (r matches Err(e) && e@ == ALREADY_RUNNING@),
            !old(self).ids().contains(view.id@) && old(self).ids().len() >= MAX_JOBS ==> (r matches Err(
                e,
            ) && e@ == TOO_MANY_JOBS@),
            !old(self).ids().contains(view.id@) && old(self).ids().len() < MAX_JOBS && closing ==> (r matches Err(
                e,
            ) && e@ == CLOSING@),
            r is Ok <==> !old(self).ids().contains(view.id@) && old(self).ids().len() < MAX_JOBS
                && !closing,
            r is Ok ==> final(self).ids() == old(self).ids().push(view.id@) && final(self).views()
                == old(self).views().push(shown(view)) && final(self).handles() == old(
                self,
            ).handles().push(Some(handle)),
            r is Err ==> final(self).ids() == old(self).ids() && final(self).views() == old(
                self,
            ).views() && final(self).handles() == old(self).handles(),
    {
        let running = self.contains(view.id.as_str());
        match admit_job(running, self.jobs.len(), closing) {
            Err(e) => Err(e),
            Ok(()) => {
                let ghost before = *self;
                self.jobs.push(Job { view, handle: Some(handle) });
                assert(self.ids() =~= before.ids().push(view.id@));
                assert(self.views() =~= before.views().push(shown(view)));
                assert(self.handles() =~= before.handles().push(Some(handle)));
                assert(self.ids().no_duplicates()) by {
                    assert forall|a: int, b: int|
                        0 <= a < b < self.ids().len() implies self.ids()[a] != self.ids()[b] by {
                        if b == before.ids().len() {
                            assert(self.ids()[a] == before.ids()[a]);
                        }
                    }
                }
                Ok(())
            },
        }
    }

    /// Takes the cancel handle of job `id`; the job keeps running until it is removed.
    pub fn cancel(&mut self, id: &str) -> (r: Result<Option<T>, String>)
        requires
            old(self).wf(),
        ensures
            final(self).wf(),
            final(self).ids() == old(self).ids(),
            final(self).views() == old(self).views(),
            !old(self).ids().contains(id@) ==> (r matches Err(e) && e@ == NOT_RUNNING@)
                && final(self).handles() == old(self).handles(),
            old(self).ids().contains(id@) ==> exists|k: int|
                0 <= k < old(self).ids().len() && old(self).ids()[k] == id@ && r == Ok::<
                    Option<T>,
                    String,
                >(old(self).handles()[k]) && final(self).handles() == old(self).handles().update(
                    k,
                    None,
                ),
    {
        match self.position(id) {
            None => Err(String::from_str(NOT_RUNNING)),
            Some(k) => {
                let ghost before = *self;
                let job = self.jobs.remove(k);
                let Job { view, handle } = job;
                self.jobs.insert(k, Job { view, handle: None });
                assert(self.jobs@ =~= before.jobs@.update(k as int, Job { view, handle: None }));
                assert(self.ids() =~= before.ids());
                assert(self.views() =~= before.views());
                assert(self.handles() =~= before.handles().update(k as int, None));
                Ok(handle)
            },
        }
    }

    /// Takes every cancel handle still held, in order.
    pub fn cancel_all(&mut self) -> (r: Vec<T>)
        requires
            old(self).wf(),
        ensures
            final(self).wf(),
            final(self).ids() == old(self).ids(),
            final(self).views() == old(self).views(),
            r@ == held(old(self).handles()),
            forall|k: int| 0 <= k < final(self).handles().len() ==> #[trigger] final(self).handles()[k] is None,
            final(self).handles().len() == old(self).handles().len(),
    {
        let ghost before = *self;
        let mut taken: Vec<T> = Vec::new();
        let mut kept: Vec<Job<T>> = Vec::new();
        let mut rest = Vec::new();
        std::mem::swap(&mut rest, &mut self.jobs);
        let ghost all = rest@;
        assert(all.len() == before.ids().len());
        let mut i: usize = 0;
        while rest.len() > 0
            invariant
                all == before.jobs@,
                all.len() <= MAX_JOBS,
                i + rest@.len() == all.len(),
                rest@ == all.skip(i as int),
                job_ids(kept@) == job_ids(all.take(i as int)),
                job_views(kept@) == job_views(all.take(i as int)),
                kept@.len() == i,
                forall|k: int| 0 <= k < i ==> (#[trigger] kept@[k]).handle is None,
                taken@ == held(job_handles(all.take(i as int))),
            decreases rest.len(),
        {
            let job = rest.remove(0);
            assert(job == all[i as int]);
            let Job { view, handle } = job;
            let ghost hs = job_handles(all.take(i as int));
            let ghost hs2 = job_handles(all.take(i + 1));
            assert(hs2.drop_last() =~= hs);
            assert(hs2.last() == handle);
            match handle {
                Some(h) => {
                    taken.push(h);
                },
                None => {},
            }
            let ghost kept_before = kept@;
            kept.push(Job { view, handle: None });
            assert(all.take(i + 1) =~= all.take(i as int).push(all[i as int]));
            assert forall|k: int| 0 <= k < i implies #[trigger] kept@[k] == kept_before[k] by {}
            assert forall|k: int| 0 <= k < i + 1 implies #[trigger] job_ids(kept@)[k] == job_ids(all.take(i + 1))[k] by {
                if k < i {
                    assert(job_ids(kept_before)[k] == job_ids(all.take(i as int))[k]);
                }
            }
            assert forall|k: int| 0 <= k < i + 1 implies #[trigger] job_views(kept@)[k] == job_views(all.take(i + 1))[k] by {
                if k < i {
                    assert(job_views(kept_before)[k] == job_views(all.take(i as int))[k]);
                }
            }
            assert(job_ids(kept@) =~= job_ids(all.take(i + 1)));
            assert(job_views(kept@) =~= job_views(all.take(i + 1)));
            assert(rest@ =~= all.skip(i + 1));
            i += 1;
        }
        assert(all.take(i as int) =~= all);
        self.jobs = kept;
        assert(self.ids() =~= before.ids());
        assert(self.views() =~= before.views());
        taken
    }

    /// Forgets job `id` once it has finished.
    pub fn remove(&mut self, id: &str)
        requires
            old(self).wf(),
        ensures
            final(self).wf(),
            !final(self).ids().contains(id@),
            !old(self).ids().contains(id@) ==> final(self).ids() == old(self).ids(),
            old(self).ids().contains(id@) ==> exists|k: int|
                0 <= k < old(self).ids().len() && old(self).ids()[k] == id@ && final(self).ids()
                    == old(self).ids().remove(k) && final(self).views() == old(self).views().remove(k)
                    && final(self).handles() == old(self).handles().remove(k),
    {
        match self.position(id) {
            None => {},
            Some(k) => {
                let ghost before = *self;
                let _job = self.jobs.remove(k);
                assert(self.jobs@ =~= before.jobs@.remove(k as int));
                assert(self.ids() =~= before.ids().remove(k as int));
                assert(self.views() =~= before.views().remove(k as int));
                assert(self.handles() =~= before.handles().remove(k as int));
                assert(self.ids().no_duplicates()) by {
                    assert forall|a: int, b: int|
                        0 <= a < b < self.ids().len() implies self.ids()[a] != self.ids()[b] by {
                        let a2 = if a < k { a } else { a + 1 };
                        let b2 = if b < k { b } else { b + 1 };
                        assert(self.ids()[a] == before.ids()[a2]);
                        assert(self.ids()[b] == before.ids()[b2]);
                    }
                }
                assert(!self.ids().contains(id@)) by {
                    if self.ids().contains(id@) {
                        let a = choose|a: int| 0 <= a < self.ids().len() && self.ids()[a] == id@;
                        let a2 = if a < k { a } else { a + 1 };
                        assert(before.ids()[a2] == before.ids()[k as int]);
                    }
                }
            },
        }
    }

    /// Copies of the views of the running jobs.
    pub fn view_list(&self) -> (r: Vec<JobView>)
        ensures
            shown_all(r@) == self.views(),
    {
        let mut r: Vec<JobView> = Vec::new();
        let mut i: usize = 0;
        while i < self.jobs.len()
            invariant
                0 <= i <= self.jobs.len(),
                r@.len() == i,
                self.views().len() == self.jobs@.len(),
                shown_all(r@) == self.views().take(i as int),
            decreases self.jobs.len() - i,
        {
            let v = copy_view(&self.jobs[i].view);
            assert(self.views()[i as int] == shown(self.jobs@[i as int].view));
            let ghost before = r@;
            r.push(v);
            assert forall|k: int| 0 <= k < i + 1 implies #[trigger] shown_all(r@)[k] == self.views().take(i + 1)[k] by {
                if k < i {
                    assert(r@[k] == before[k]);
                    assert(shown_all(before)[k] == self.views().take(i as int)[k]);
                }
            }
            assert(shown_all(r@) =~= self.views().take(i + 1));
            i += 1;
        }
        assert(self.views().take(self.jobs.len() as int) =~= self.views());
        r
    }
}

/// The job table never holds more than `MAX_JOBS` jobs, nor one job id twice: `new` makes a
/// table that holds, and every operation keeps, this invariant.
pub proof fn law_jobs_bounded<T>(table: JobTable<T>)
    requires
        table.wf(),
    ensures
        table.ids().len() <= MAX_JOBS,
        forall|a: int, b: int| 0 <= a < b < table.ids().len() ==> table.ids()[a] != table.ids()[b],
{
}

} // verus!
