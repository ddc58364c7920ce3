//! What becomes of presentation jobs over many requests.
use crate::ids::ReviewFileId;
use crate::jobs::{
    acquired, holds_ticket, job_of, jobs_without, newest_jobs, PresentationJob,
    PresentationJobLease, MAX_PRESENTATION_JOBS,
};
use vstd::prelude::*;

verus! {

/// A request for the right to work on a file.
pub struct JobRequest {
    pub file_id: ReviewFileId,
    pub generation: u64,
}

/// The jobs and the next ticket after some requests to a registry that was
/// empty.
pub open spec fn jobs_after(requests: Seq<JobRequest>) -> (Seq<PresentationJob>, u64)
    decreases requests.len(),
{
    if requests.len() == 0 {
        (Seq::empty(), 1)
    } else {
        let (jobs, next) = jobs_after(requests.drop_last());
        let request = requests.last();
        let (left, ticket, _) = acquired(jobs, next, request.file_id, request.generation);
        (left, ticket)
    }
}

/// What the request with a number was given.
pub open spec fn lease_given(requests: Seq<JobRequest>, index: int) -> Option<PresentationJobLease> {
    let (jobs, next) = jobs_after(requests.take(index));
    acquired(jobs, next, requests[index].file_id, requests[index].generation).2
}

/// The files without one of them.
pub open spec fn files_without(files: Seq<ReviewFileId>, file_id: ReviewFileId) -> Seq<ReviewFileId>
    decreases files.len(),
{
    if files.len() == 0 {
        files
    } else if files.last() == file_id {
        files.drop_last()
    } else {
        files_without(files.drop_last(), file_id).push(files.last())
    }
}

/// The files for which some registered request was granted, each once, in the
/// order of the last one.
pub open spec fn files_by_use(requests: Seq<JobRequest>) -> Seq<ReviewFileId>
    decreases requests.len(),
{
    if requests.len() == 0 {
        Seq::empty()
    } else {
        let earlier = files_by_use(requests.drop_last());
        let request = requests.last();
        if request.generation > 0 && lease_given(requests, requests.len() - 1) is Some {
            files_without(earlier, request.file_id).push(request.file_id)
        } else {
            earlier
        }
    }
}

/// The last files of a list, as many as may have a job.
pub open spec fn newest_files(files: Seq<ReviewFileId>) -> Seq<ReviewFileId> {
    if files.len() > MAX_PRESENTATION_JOBS {
        files.skip(files.len() - MAX_PRESENTATION_JOBS)
    } else {
        files
    }
}

/// The files that have a job.
pub open spec fn files_of(jobs: Seq<PresentationJob>) -> Seq<ReviewFileId> {
    jobs.map_values(|job: PresentationJob| job.file_id)
}

proof fn lemma_files_without(jobs: Seq<PresentationJob>, file_id: ReviewFileId)
    ensures
        files_of(jobs_without(jobs, file_id)) == files_without(files_of(jobs), file_id),
    decreases jobs.len(),
{
    let files = files_of(jobs);
    if jobs.len() == 0 {
        assert(files_of(jobs_without(jobs, file_id)) =~= files);
    } else {
        assert(files.drop_last() =~= files_of(jobs.drop_last()));
        if jobs.last().file_id == file_id {
            assert(files_of(jobs.drop_last()) =~= files.drop_last());
        } else {
            lemma_files_without(jobs.drop_last(), file_id);
            assert(files_of(jobs_without(jobs, file_id)) =~= files_without(
                files.drop_last(),
                file_id,
            ).push(files.last()));
        }
    }
}

/// Where a file stands, it is taken out there; where it does not, nothing is.
proof fn lemma_files_without_at(files: Seq<ReviewFileId>, file_id: ReviewFileId)
    requires
        files.no_duplicates(),
    ensures
        !files.contains(file_id) ==> files_without(files, file_id) == files,
        forall|index: int|
            0 <= index < files.len() && #[trigger] files[index] == file_id ==> files_without(
                files,
                file_id,
            ) == files.remove(index),
        files_without(files, file_id).no_duplicates(),
        !files_without(files, file_id).contains(file_id),
    decreases files.len(),
{
    if files.len() > 0 {
        let rest = files.drop_last();
        assert(rest.no_duplicates());
        lemma_files_without_at(rest, file_id);
        if files.last() == file_id {
            assert forall|index: int|
                0 <= index < files.len() && #[trigger] files[index] == file_id implies files_without(
                files,
                file_id,
            ) == files.remove(index) by {
                assert(index == files.len() - 1);
                assert(files.remove(index) =~= rest);
            }
            if rest.contains(file_id) {
                let i = choose|i: int| 0 <= i < rest.len() && rest[i] == file_id;
                assert(files[i] == files[files.len() - 1]);
            }
        } else {
            let left = files_without(rest, file_id);
            if !files.contains(file_id) {
                if rest.contains(file_id) {
                    let i = choose|i: int| 0 <= i < rest.len() && rest[i] == file_id;
                    assert(files[i] == file_id);
                }
                assert(left.push(files.last()) =~= files);
            }
            assert forall|index: int|
                0 <= index < files.len() && #[trigger] files[index] == file_id implies files_without(
                files,
                file_id,
            ) == files.remove(index) by {
                assert(rest[index] == file_id);
                assert(files.remove(index) =~= rest.remove(index).push(files.last()));
            }
            assert(!left.contains(files.last())) by {
                if left.contains(files.last()) {
                    let i = choose|i: int| 0 <= i < left.len() && left[i] == files.last();
                    if rest.contains(file_id) {
                        let p = choose|p: int| 0 <= p < rest.len() && rest[p] == file_id;
                        assert(left == rest.remove(p));
                        if i < p {
                            assert(files[i] == files[files.len() - 1]);
                        } else {
                            assert(files[i + 1] == files[files.len() - 1]);
                        }
                    } else {
                        assert(files[i] == files[files.len() - 1]);
                    }
                }
            }
            let grown = left.push(files.last());
            assert forall|i: int, j: int| 0 <= i < j < grown.len() implies grown[i] != grown[j] by {
                if j == left.len() {
                    assert(left.contains(left[i]));
                }
            }
            if grown.contains(file_id) {
                let i = choose|i: int| 0 <= i < grown.len() && grown[i] == file_id;
                assert(left.contains(left[i]));
            }
        }
    }
}

/// To keep the newest files after every use is to keep the newest of all.
proof fn lemma_newest_of_newest(files: Seq<ReviewFileId>, file_id: ReviewFileId)
    requires
        files.no_duplicates(),
    ensures
        newest_files(files_without(newest_files(files), file_id).push(file_id)) == newest_files(
            files_without(files, file_id).push(file_id),
        ),
        newest_files(files).contains(file_id) ==> files_without(
            newest_files(files),
            file_id,
        ).len() < MAX_PRESENTATION_JOBS,
{
    let kept = newest_files(files);
    let limit = MAX_PRESENTATION_JOBS as int;
    assert(kept.no_duplicates());
    lemma_files_without_at(files, file_id);
    lemma_files_without_at(kept, file_id);
    if kept.contains(file_id) {
        let q = choose|q: int| 0 <= q < kept.len() && kept[q] == file_id;
        assert(files_without(kept, file_id) == kept.remove(q));
    }
    if files.len() > limit {
        let n = files.len() as int;
        let left = newest_files(files_without(kept, file_id).push(file_id));
        let right = newest_files(files_without(files, file_id).push(file_id));
        if files.contains(file_id) {
            let p = choose|p: int| 0 <= p < files.len() && files[p] == file_id;
            assert(files_without(files, file_id) == files.remove(p));
            if p >= n - limit {
                assert(kept[p - (n - limit)] == file_id);
                assert(files_without(kept, file_id) == kept.remove(p - (n - limit)));
                assert(left =~= right);
            } else {
                if kept.contains(file_id) {
                    let q = choose|q: int| 0 <= q < kept.len() && kept[q] == file_id;
                    assert(files[q + n - limit] == files[p]);
                }
                assert(left =~= right);
            }
        } else {
            if kept.contains(file_id) {
                let q = choose|q: int| 0 <= q < kept.len() && kept[q] == file_id;
                assert(files[q + n - limit] == file_id);
            }
            assert(left =~= right);
        }
    }
}

proof fn lemma_next_ticket(requests: Seq<JobRequest>)
    requires
        requests.len() < u64::MAX,
    ensures
        1 <= jobs_after(requests).1 <= requests.len() + 1,
    decreases requests.len(),
{
    if requests.len() > 0 {
        lemma_next_ticket(requests.drop_last());
    }
}

proof fn lemma_job_of_is_listed(jobs: Seq<PresentationJob>, file_id: ReviewFileId)
    ensures
        job_of(jobs, file_id) matches Some(job) ==> jobs.contains(job) && job.file_id == file_id
            && files_of(jobs).contains(file_id),
    decreases jobs.len(),
{
    if jobs.len() > 0 {
        lemma_job_of_is_listed(jobs.drop_last(), file_id);
        if jobs.last().file_id == file_id {
            assert(files_of(jobs)[jobs.len() - 1] == file_id);
        } else if job_of(jobs, file_id) is Some {
            let job = job_of(jobs, file_id)->0;
            let i = choose|i: int| 0 <= i < jobs.drop_last().len() && jobs.drop_last()[i] == job;
            assert(jobs[i] == job);
            assert(files_of(jobs)[i] == file_id);
        }
    }
}

/// After any requests to a registry that was empty, the files that have a job
/// are the ones used last, and no more than may have one.
pub proof fn law_the_files_used_last_have_a_job(requests: Seq<JobRequest>)
    requires
        requests.len() < u64::MAX,
    ensures
        files_of(jobs_after(requests).0) == newest_files(files_by_use(requests)),
        jobs_after(requests).0.len() <= MAX_PRESENTATION_JOBS,
        files_by_use(requests).no_duplicates(),
    decreases requests.len(),
{
    if requests.len() == 0 {
        assert(files_of(jobs_after(requests).0) =~= Seq::<ReviewFileId>::empty());
    } else {
        let earlier = requests.drop_last();
        law_the_files_used_last_have_a_job(earlier);
        assert(requests.take(requests.len() - 1) =~= earlier);
        let (jobs, next) = jobs_after(earlier);
        let request = requests.last();
        let (left, _, lease) = acquired(jobs, next, request.file_id, request.generation);
        let files = files_by_use(earlier);
        assert(lease_given(requests, requests.len() - 1) == lease);
        if request.generation > 0 && lease is Some {
            let kept = jobs_without(jobs, request.file_id);
            lemma_files_without(jobs, request.file_id);
            lemma_newest_of_newest(files, request.file_id);
            lemma_files_without_at(files, request.file_id);
            lemma_job_of_is_listed(jobs, request.file_id);
            let used = files_by_use(requests);
            assert forall|i: int, j: int| 0 <= i < j < used.len() implies used[i] != used[j] by {
                let rest = files_without(files, request.file_id);
                if j == rest.len() {
                    assert(rest.contains(rest[i]));
                }
            }
            let lists = files_without(newest_files(files), request.file_id).push(
                request.file_id,
            );
            match job_of(jobs, request.file_id) {
                Some(job) if request.generation == job.generation => {
                    assert(files_of(kept.push(job)) =~= lists);
                    assert(newest_files(lists) == lists);
                },
                _ => {
                    let added = PresentationJob {
                        file_id: request.file_id,
                        generation: request.generation,
                        ticket: next,
                    };
                    assert(files_of(kept.push(added)) =~= lists);
                    assert(files_of(newest_jobs(kept.push(added))) =~= newest_files(lists));
                },
            }
            assert(left.len() == files_of(left).len());
        } else {
            assert(left == jobs);
        }
    }
}

proof fn lemma_without_is_part(jobs: Seq<PresentationJob>, file_id: ReviewFileId)
    ensures
        forall|job: PresentationJob| #[trigger]
            jobs_without(jobs, file_id).contains(job) ==> jobs.contains(job),
    decreases jobs.len(),
{
    if jobs.len() > 0 {
        let rest = jobs.drop_last();
        lemma_without_is_part(rest, file_id);
        assert forall|job: PresentationJob| #[trigger]
            jobs_without(jobs, file_id).contains(job) implies jobs.contains(job) by {
            let left = jobs_without(jobs, file_id);
            let i = choose|i: int| 0 <= i < left.len() && left[i] == job;
            if jobs.last().file_id == file_id {
                assert(jobs[i] == job);
            } else if i == left.len() - 1 {
                assert(jobs[jobs.len() - 1] == job);
            } else {
                assert(jobs_without(rest, file_id)[i] == job);
                assert(jobs_without(rest, file_id).contains(job));
                let k = choose|k: int| 0 <= k < rest.len() && rest[k] == job;
                assert(jobs[k] == job);
            }
        }
    }
}

/// A request leaves only jobs that were there, and at most one new one, which
/// has the next ticket.
proof fn lemma_acquired_is_part(
    jobs: Seq<PresentationJob>,
    next: u64,
    file_id: ReviewFileId,
    generation: u64,
)
    ensures
        forall|job: PresentationJob| #[trigger]
            acquired(jobs, next, file_id, generation).0.contains(job) ==> jobs.contains(job) || (
            job.ticket == next && job.file_id == file_id && acquired(
                jobs,
                next,
                file_id,
                generation,
            ).1 == (next + 1) as u64),
{
    let (left, _, _) = acquired(jobs, next, file_id, generation);
    let kept = jobs_without(jobs, file_id);
    lemma_without_is_part(jobs, file_id);
    lemma_job_of_is_listed(jobs, file_id);
    assert forall|job: PresentationJob| #[trigger] left.contains(job) implies jobs.contains(job) || (
    job.ticket == next && job.file_id == file_id && acquired(
        jobs,
        next,
        file_id,
        generation,
    ).1 == (next + 1) as u64) by {
        if left != jobs {
            let i = choose|i: int| 0 <= i < left.len() && left[i] == job;
            let added = left.last();
            let full = kept.push(added);
            let shift = full.len() - left.len();
            match job_of(jobs, file_id) {
                Some(found) if generation == found.generation => {
                    assert(full =~= left);
                },
                _ => {
                    assert(added == PresentationJob { file_id, generation, ticket: next });
                },
            }
            assert(left[i] == full[i + shift]);
            if i + shift < kept.len() {
                assert(kept.contains(kept[i + shift]));
            }
        }
    }
}

/// Whether every ticket among some jobs is older than the next one and belongs
/// to one file.
pub open spec fn tickets_tell_files(jobs: Seq<PresentationJob>, next: u64) -> bool {
    &&& forall|job: PresentationJob| #[trigger] jobs.contains(job) ==> job.ticket < next
    &&& forall|a: PresentationJob, b: PresentationJob| #[trigger]
        jobs.contains(a) && #[trigger] jobs.contains(b) && a.ticket == b.ticket ==> a.file_id
            == b.file_id
}

proof fn lemma_tickets_tell_files(requests: Seq<JobRequest>)
    requires
        requests.len() < u64::MAX,
    ensures
        tickets_tell_files(jobs_after(requests).0, jobs_after(requests).1),
    decreases requests.len(),
{
    if requests.len() > 0 {
        let earlier = requests.drop_last();
        let request = requests.last();
        let (jobs, next) = jobs_after(earlier);
        lemma_tickets_tell_files(earlier);
        lemma_next_ticket(earlier);
        lemma_acquired_is_part(jobs, next, request.file_id, request.generation);
    }
}

/// The ticket of a lease that was given belongs to its file for good.
proof fn lemma_ticket_of_lease(requests: Seq<JobRequest>, index: int)
    requires
        requests.len() < u64::MAX,
        0 <= index < requests.len(),
        lease_given(requests, index) is Some,
        requests[index].generation > 0,
    ensures
        ({
            let lease = lease_given(requests, index)->0;
            let (jobs, next) = jobs_after(requests);
            &&& lease.registered
            &&& lease.file_id == requests[index].file_id
            &&& lease.ticket < next
            &&& forall|job: PresentationJob| #[trigger]
                jobs.contains(job) && job.ticket == lease.ticket ==> job.file_id == lease.file_id
        }),
    decreases requests.len(),
{
    let earlier = requests.drop_last();
    let request = requests.last();
    let (jobs, next) = jobs_after(earlier);
    lemma_next_ticket(earlier);
    lemma_tickets_tell_files(earlier);
    lemma_acquired_is_part(jobs, next, request.file_id, request.generation);
    if index == requests.len() - 1 {
        assert(requests.take(index) =~= earlier);
        lemma_job_of_is_listed(jobs, request.file_id);
    } else {
        assert(earlier.take(index) =~= requests.take(index));
        assert(lease_given(earlier, index) == lease_given(requests, index));
        lemma_ticket_of_lease(earlier, index);
    }
}

/// Whoever got the right to work on a file that has made room is cancelled.
pub proof fn law_files_pushed_out_are_cancelled(requests: Seq<JobRequest>, index: int)
    requires
        requests.len() < u64::MAX,
        0 <= index < requests.len(),
        lease_given(requests, index) is Some,
        requests[index].generation > 0,
        !newest_files(files_by_use(requests)).contains(requests[index].file_id),
    ensures
        lease_given(requests, index)->0.registered,
        !holds_ticket(jobs_after(requests).0, lease_given(requests, index)->0.ticket),
{
    let (jobs, _) = jobs_after(requests);
    let lease = lease_given(requests, index)->0;
    lemma_ticket_of_lease(requests, index);
    law_the_files_used_last_have_a_job(requests);
    if holds_ticket(jobs, lease.ticket) {
        let i = choose|i: int| 0 <= i < jobs.len() && (#[trigger] jobs[i]).ticket == lease.ticket;
        assert(jobs.contains(jobs[i]));
        assert(files_of(jobs)[i] == lease.file_id);
    }
}

/// A request of generation zero is always granted, cancels nobody and pushes no
/// file out.
pub proof fn law_unregistered_requests_change_nothing(requests: Seq<JobRequest>, file_id: ReviewFileId)
    ensures
        ({
            let more = requests.push(JobRequest { file_id, generation: 0 });
            &&& jobs_after(more) == jobs_after(requests)
            &&& files_by_use(more) == files_by_use(requests)
            &&& lease_given(more, requests.len() as int) == Some(
                PresentationJobLease { file_id, generation: 0, registered: false, ticket: 0 },
            )
        }),
{
    let more = requests.push(JobRequest { file_id, generation: 0 });
    assert(more.drop_last() =~= requests);
    assert(more.take(requests.len() as int) =~= requests);
}

} // verus!
