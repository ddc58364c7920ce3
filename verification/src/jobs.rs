//! Presentation jobs: which viewport request of a file may still work, and
//! how many may work at a time.
use crate::errors::DispatchError;
use crate::ids::ReviewFileId;
use vstd::prelude::*;

verus! {

/// How many files may have a job.
pub const MAX_PRESENTATION_JOBS: usize = 128;

/// How many jobs may work at a time.
pub const MAX_PRESENTATION_WORKERS: usize = 4;

/// The job of a file. Its ticket tells it from every other job.
#[derive(Clone, Copy, Debug, PartialEq, Eq, Structural)]
pub struct PresentationJob {
    pub file_id: ReviewFileId,
    pub generation: u64,
    pub ticket: u64,
}

/// The right to work on a viewport request. A request that is not registered is
/// never superseded.
#[derive(Clone, Copy, Debug, PartialEq, Eq, Structural)]
pub struct PresentationJobLease {
    pub file_id: ReviewFileId,
    pub generation: u64,
    pub registered: bool,
    pub ticket: u64,
}

impl PresentationJobLease {
    /// A request that is not registered.
    pub fn ephemeral(file_id: ReviewFileId, generation: u64) -> (lease: PresentationJobLease)
        ensures
            lease == (PresentationJobLease { file_id, generation, registered: false, ticket: 0 }),
    {
        PresentationJobLease { file_id, generation, registered: false, ticket: 0 }
    }
}

/// The jobs of all files, in the order of their last use.
#[derive(Debug)]
pub struct PresentationJobRegistry {
    jobs: Vec<PresentationJob>,
    next_ticket: u64,
}

/// The job of a file.
pub open spec fn job_of(jobs: Seq<PresentationJob>, file_id: ReviewFileId) -> Option<
    PresentationJob,
>
    decreases jobs.len(),
{
    if jobs.len() == 0 {
        None
    } else if jobs.last().file_id == file_id {
        Some(jobs.last())
    } else {
        job_of(jobs.drop_last(), file_id)
    }
}

/// The jobs of all files but one.
pub open spec fn jobs_without(jobs: Seq<PresentationJob>, file_id: ReviewFileId) -> Seq<
    PresentationJob,
>
    decreases jobs.len(),
{
    if jobs.len() == 0 {
        jobs
    } else if jobs.last().file_id == file_id {
        jobs.drop_last()
    } else {
        jobs_without(jobs.drop_last(), file_id).push(jobs.last())
    }
}

/// The jobs that are left when the least recently used ones make room.
pub open spec fn newest_jobs(jobs: Seq<PresentationJob>) -> Seq<PresentationJob> {
    if jobs.len() > MAX_PRESENTATION_JOBS {
        jobs.skip(jobs.len() - MAX_PRESENTATION_JOBS)
    } else {
        jobs
    }
}

/// What a request for the right to work comes to: the jobs that are left, the
/// next ticket, and the right, if it is given.
pub open spec fn acquired(
    jobs: Seq<PresentationJob>,
    next: u64,
    file_id: ReviewFileId,
    generation: u64,
) -> (Seq<PresentationJob>, u64, Option<PresentationJobLease>) {
    match job_of(jobs, file_id) {
        _ if generation == 0 => (
            jobs,
            next,
            Some(PresentationJobLease { file_id, generation, registered: false, ticket: 0 }),
        ),
        Some(job) if generation < job.generation => (jobs, next, None),
        Some(job) if generation == job.generation => (
            jobs_without(jobs, file_id).push(job),
            next,
            Some(PresentationJobLease { file_id, generation, registered: true, ticket: job.ticket }),
        ),
        _ => (
            newest_jobs(
                jobs_without(jobs, file_id).push(
                    PresentationJob { file_id, generation, ticket: next },
                ),
            ),
            (next + 1) as u64,
            Some(PresentationJobLease { file_id, generation, registered: true, ticket: next }),
        ),
    }
}

/// Whether a job has a ticket.
pub open spec fn holds_ticket(jobs: Seq<PresentationJob>, ticket: u64) -> bool {
    exists|i: int| 0 <= i < jobs.len() && (#[trigger] jobs[i]).ticket == ticket
}

proof fn lemma_job_at(jobs: Seq<PresentationJob>, index: int)
    requires
        0 <= index < jobs.len(),
        forall|i: int, j: int|
            0 <= i < j < jobs.len() ==> (#[trigger] jobs[i]).file_id != (#[trigger] jobs[j]).file_id,
    ensures
        job_of(jobs, jobs[index].file_id) == Some(jobs[index]),
        jobs_without(jobs, jobs[index].file_id) == jobs.remove(index),
    decreases jobs.len(),
{
    if index == jobs.len() - 1 {
        assert(jobs.remove(index) =~= jobs.drop_last());
    } else {
        assert(jobs.drop_last()[index] == jobs[index]);
        lemma_job_at(jobs.drop_last(), index);
        assert(jobs.remove(index) =~= jobs.drop_last().remove(index).push(jobs.last()));
    }
}

proof fn lemma_no_job(jobs: Seq<PresentationJob>, file_id: ReviewFileId)
    requires
        forall|i: int| 0 <= i < jobs.len() ==> (#[trigger] jobs[i]).file_id != file_id,
    ensures
        job_of(jobs, file_id) is None,
        jobs_without(jobs, file_id) == jobs,
    decreases jobs.len(),
{
    if jobs.len() > 0 {
        lemma_no_job(jobs.drop_last(), file_id);
        assert(jobs.drop_last().push(jobs.last()) =~= jobs);
    }
}

impl View for PresentationJobRegistry {
    type V = Seq<PresentationJob>;

    closed spec fn view(&self) -> Seq<PresentationJob> {
        self.jobs@
    }
}

impl PresentationJobRegistry {
    /// The ticket that the next job gets.
    pub closed spec fn next(self) -> u64 {
        self.next_ticket
    }

    /// A file has at most one job, no two jobs share a ticket, tickets count
    /// upwards from one, and there are not too many jobs.
    pub closed spec fn wf(self) -> bool {
        &&& self@.len() <= MAX_PRESENTATION_JOBS
        &&& self.next_ticket >= 1
        &&& forall|i: int, j: int|
            0 <= i < j < self@.len() ==> (#[trigger] self@[i]).file_id != (
            #[trigger] self@[j]).file_id
        &&& forall|i: int, j: int|
            0 <= i < j < self@.len() ==> (#[trigger] self@[i]).ticket != (
            #[trigger] self@[j]).ticket
        &&& forall|i: int|
            0 <= i < self@.len() ==> 1 <= (#[trigger] self@[i]).ticket < self.next_ticket
    }

    /// A registry in order holds no more jobs than it may, one for a file at most, and only
    /// tickets that it gave out.
    pub proof fn law_registry_keeps_its_bounds(self)
        requires
            self.wf(),
        ensures
            self@.len() <= MAX_PRESENTATION_JOBS,
            forall|ticket: u64|
                holds_ticket(self@, ticket) ==> 1 <= ticket < self.next(),
            forall|i: int, j: int|
                0 <= i < j < self@.len() ==> (#[trigger] self@[i]).file_id != (
                #[trigger] self@[j]).file_id,
    {
    }

    /// A registry without jobs.
    pub fn new() -> (registry: PresentationJobRegistry)
        ensures
            registry.wf(),
            registry@ == Seq::<PresentationJob>::empty(),
            registry.next() == 1,
    {
        PresentationJobRegistry { jobs: Vec::new(), next_ticket: 1 }
    }

    /// Whether another job can be told from all earlier ones.
    pub fn has_tickets(&self) -> (left: bool)
        ensures
            left == (self.next() < u64::MAX),
    {
        self.next_ticket < u64::MAX
    }

    /// How many files have a job.
    pub fn len(&self) -> (count: usize)
        ensures
            count == self@.len(),
    {
        self.jobs.len()
    }

    fn position(&self, file_id: ReviewFileId) -> (found: Option<usize>)
        ensures
            match found {
                Some(index) => index < self@.len() && self@[index as int].file_id == file_id,
                None => forall|i: int|
                    0 <= i < self@.len() ==> (#[trigger] self@[i]).file_id != file_id,
            },
    {
        let mut i: usize = 0;
        while i < self.jobs.len()
            invariant
                i <= self.jobs.len(),
                forall|j: int| 0 <= j < i ==> (#[trigger] self@[j]).file_id != file_id,
            decreases self.jobs.len() - i,
        {
            if self.jobs[i].file_id == file_id {
                return Some(i);
            }
            i += 1;
        }
        None
    }

    /// Asks for the right to work on a viewport request of a file.
    ///
    /// Generation zero asks without being registered and changes nothing. A
    /// request older than the job of the file is refused. One of the same age
    /// shares the job. A newer one supersedes the job, and the least recently
    /// used jobs make room for it.
    pub fn acquire(&mut self, file_id: ReviewFileId, generation: u64) -> (result: Result<
        PresentationJobLease,
        DispatchError,
    >)
        requires
            old(self).wf(),
            old(self).next() < u64::MAX,
        ensures
            final(self).wf(),
            ({
                let (jobs, next, lease) = acquired(
                    old(self)@,
                    old(self).next(),
                    file_id,
                    generation,
                );
                &&& final(self)@ == jobs
                &&& final(self).next() == next
                &&& result == match lease {
                    Some(granted) => Ok::<PresentationJobLease, DispatchError>(granted),
                    None => Err(DispatchError::Cancelled),
                }
            }),
    {
        if generation == 0 {
            return Ok(PresentationJobLease::ephemeral(file_id, generation));
        }
        let ghost before = self@;
        match self.position(file_id) {
            Some(index) => {
                let existing: PresentationJob = self.jobs[index];
                proof {
                    lemma_job_at(before, index as int);
                }
                if generation < existing.generation {
                    return Err(DispatchError::Cancelled);
                }
                let _ = self.jobs.remove(index);
                assert(self@ =~= before.remove(index as int));
                if generation == existing.generation {
                    self.jobs.push(existing);
                    assert(self@ =~= before.remove(index as int).push(existing));
                    return Ok(
                        PresentationJobLease {
                            file_id,
                            generation,
                            registered: true,
                            ticket: existing.ticket,
                        },
                    );
                }
            },
            None => {
                proof {
                    lemma_no_job(before, file_id);
                }
            },
        }
        let ghost kept = self@;
        let ticket: u64 = self.next_ticket;
        self.jobs.push(PresentationJob { file_id, generation, ticket });
        self.next_ticket = ticket + 1;
        let ghost full = kept.push(PresentationJob { file_id, generation, ticket });
        assert(self@ =~= full);
        if self.jobs.len() > MAX_PRESENTATION_JOBS {
            let _ = self.jobs.remove(0);
            assert(self@ =~= full.skip(1));
        }
        Ok(PresentationJobLease { file_id, generation, registered: true, ticket })
    }

    /// Whether the work of a lease was superseded.
    pub fn is_cancelled(&self, lease: &PresentationJobLease) -> (cancelled: bool)
        ensures
            cancelled == (lease.registered && !holds_ticket(self@, lease.ticket)),
    {
        if !lease.registered {
            return false;
        }
        let mut i: usize = 0;
        while i < self.jobs.len()
            invariant
                i <= self.jobs.len(),
                forall|j: int| 0 <= j < i ==> (#[trigger] self@[j]).ticket != lease.ticket,
            decreases self.jobs.len() - i,
        {
            if self.jobs[i].ticket == lease.ticket {
                assert(self@[i as int].ticket == lease.ticket);
                return false;
            }
            i += 1;
        }
        true
    }

    /// Whether the result of a lease may still be used: it is not registered, or
    /// the job of its file is still the one it shares.
    pub fn is_current(&self, lease: &PresentationJobLease) -> (current: bool)
        requires
            self.wf(),
        ensures
            current == (!lease.registered || job_of(self@, lease.file_id) == Some(
                PresentationJob {
                    file_id: lease.file_id,
                    generation: lease.generation,
                    ticket: lease.ticket,
                },
            )),
    {
        if !lease.registered {
            return true;
        }
        match self.position(lease.file_id) {
            Some(index) => {
                proof {
                    lemma_job_at(self@, index as int);
                }
                self.jobs[index].generation == lease.generation && self.jobs[index].ticket
                    == lease.ticket
            },
            None => {
                proof {
                    lemma_no_job(self@, lease.file_id);
                }
                false
            },
        }
    }

    /// Refuses a lease whose result may no longer be used.
    pub fn ensure_current(&self, lease: &PresentationJobLease) -> (result: Result<
        (),
        DispatchError,
    >)
        requires
            self.wf(),
        ensures
            ({
                let current = !lease.registered || job_of(self@, lease.file_id) == Some(
                    PresentationJob {
                        file_id: lease.file_id,
                        generation: lease.generation,
                        ticket: lease.ticket,
                    },
                );
                result == if current {
                    Ok::<(), DispatchError>(())
                } else {
                    Err(DispatchError::Cancelled)
                }
            }),
    {
        if self.is_current(lease) {
            Ok(())
        } else {
            Err(DispatchError::Cancelled)
        }
    }

    /// Supersedes the job of a file.
    pub fn cancel_file(&mut self, file_id: ReviewFileId)
        requires
            old(self).wf(),
        ensures
            final(self).wf(),
            final(self)@ == jobs_without(old(self)@, file_id),
            final(self).next() == old(self).next(),
    {
        let ghost before = self@;
        match self.position(file_id) {
            Some(index) => {
                proof {
                    lemma_job_at(before, index as int);
                }
                let _ = self.jobs.remove(index);
                assert(self@ =~= before.remove(index as int));
            },
            None => {
                proof {
                    lemma_no_job(before, file_id);
                }
            },
        }
    }
}

impl Default for PresentationJobRegistry {
    fn default() -> (registry: PresentationJobRegistry)
        ensures
            registry.wf(),
            registry@ == Seq::<PresentationJob>::empty(),
            registry.next() == 1,
    {
        PresentationJobRegistry::new()
    }
}

proof fn lemma_job_of_without(
    jobs: Seq<PresentationJob>,
    removed: ReviewFileId,
    file_id: ReviewFileId,
)
    requires
        removed != file_id,
    ensures
        job_of(jobs_without(jobs, removed), file_id) == job_of(jobs, file_id),
    decreases jobs.len(),
{
    if jobs.len() > 0 && jobs.last().file_id != removed {
        lemma_job_of_without(jobs.drop_last(), removed, file_id);
        assert(jobs_without(jobs, removed).drop_last() =~= jobs_without(jobs.drop_last(), removed));
    }
}

/// A request for one file leaves the job of another file as it is, as long as
/// no job has to make room.
pub proof fn law_files_do_not_disturb_each_other(
    jobs: Seq<PresentationJob>,
    added: PresentationJob,
    other: ReviewFileId,
)
    requires
        jobs.len() < MAX_PRESENTATION_JOBS,
        added.file_id != other,
    ensures
        job_of(newest_jobs(jobs_without(jobs, added.file_id).push(added)), other) == job_of(
            jobs,
            other,
        ),
{
    lemma_job_of_without(jobs, added.file_id, other);
    lemma_without_is_no_longer(jobs, added.file_id);
    let full = jobs_without(jobs, added.file_id).push(added);
    assert(full.drop_last() =~= jobs_without(jobs, added.file_id));
}

proof fn lemma_without_is_no_longer(jobs: Seq<PresentationJob>, file_id: ReviewFileId)
    ensures
        jobs_without(jobs, file_id).len() <= jobs.len(),
    decreases jobs.len(),
{
    if jobs.len() > 0 && jobs.last().file_id != file_id {
        lemma_without_is_no_longer(jobs.drop_last(), file_id);
    }
}

/// The newest request of a file owns its job, so that an older lease is not
/// current any more.
pub proof fn law_newest_generation_owns_the_job(jobs: Seq<PresentationJob>, added: PresentationJob)
    ensures
        job_of(newest_jobs(jobs_without(jobs, added.file_id).push(added)), added.file_id) == Some(
            added,
        ),
{
    let full = jobs_without(jobs, added.file_id).push(added);
    let kept = newest_jobs(full);
    assert(kept.last() == added);
}

/// A pool of work permits.
#[derive(Debug)]
pub struct PresentationWorkPool {
    available: usize,
    maximum: usize,
}

/// What a request for a work permit is answered.
#[derive(Clone, Copy, Debug, PartialEq, Eq, Structural)]
pub enum WorkPermit {
    /// The work may begin.
    Granted,
    /// Every permit is taken: ask again later.
    Wait,
    /// The request was superseded.
    Cancelled,
}

impl PresentationWorkPool {
    /// How many permits can be taken.
    pub closed spec fn free(self) -> nat {
        self.available as nat
    }

    /// How many permits there are.
    pub closed spec fn limit(self) -> nat {
        self.maximum as nat
    }

    /// There is at least one permit, and no more can be taken than there are.
    pub closed spec fn wf(self) -> bool {
        self.available <= self.maximum && self.maximum >= 1
    }

    /// A pool of `maximum` permits, at least one.
    pub fn new(maximum: usize) -> (pool: PresentationWorkPool)
        ensures
            pool.wf(),
            pool.limit() == if maximum > 1 {
                maximum as nat
            } else {
                1
            },
            pool.free() == pool.limit(),
    {
        let limit: usize = if maximum > 1 {
            maximum
        } else {
            1
        };
        PresentationWorkPool { available: limit, maximum: limit }
    }

    /// Asks for a permit. A superseded request never gets one.
    pub fn acquire(&mut self, cancelled: bool) -> (permit: WorkPermit)
        requires
            old(self).wf(),
        ensures
            final(self).wf(),
            final(self).limit() == old(self).limit(),
            permit == if cancelled {
                WorkPermit::Cancelled
            } else if old(self).free() > 0 {
                WorkPermit::Granted
            } else {
                WorkPermit::Wait
            },
            final(self).free() == if permit == WorkPermit::Granted {
                (old(self).free() - 1) as nat
            } else {
                old(self).free()
            },
    {
        if cancelled {
            WorkPermit::Cancelled
        } else if self.available > 0 {
            self.available = self.available - 1;
            WorkPermit::Granted
        } else {
            WorkPermit::Wait
        }
    }

    /// Gives a permit back.
    pub fn release(&mut self)
        requires
            old(self).wf(),
        ensures
            final(self).wf(),
            final(self).limit() == old(self).limit(),
            final(self).free() == if old(self).free() < old(self).limit() {
                old(self).free() + 1
            } else {
                old(self).limit()
            },
    {
        if self.available < self.maximum {
            self.available = self.available + 1;
        }
    }

    /// How many permits can be taken.
    pub fn available(&self) -> (count: usize)
        ensures
            count == self.free(),
    {
        self.available
    }
}

} // verus!
