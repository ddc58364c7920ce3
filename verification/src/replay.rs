//! Requests that were already processed are refused.
use crate::errors::{invalid, DispatchError};
use crate::text::text_eq;
use vstd::prelude::*;
use vstd::string::*;

verus! {

/// How long a request is remembered, in seconds.
pub const RETENTION_SECONDS: u64 = 300;

/// How many requests are remembered before the oldest are forgotten.
pub const MAX_REQUEST_IDS: usize = 4096;

/// A request that was processed: when it was issued, and its name.
#[derive(Debug)]
pub struct SeenRequest {
    issued_at: u64,
    id: String,
}

/// The requests that were processed lately, in the order in which they came.
#[derive(Debug)]
pub struct ReplayGuard {
    ordered: Vec<SeenRequest>,
}

/// What is left of some requests at a time: the first ones go while they are
/// too old or the requests too many.
pub open spec fn remembered(requests: Seq<(u64, Seq<char>)>, now: u64) -> Seq<(u64, Seq<char>)>
    decreases requests.len(),
{
    if requests.len() > 0 && (now - requests[0].0 > RETENTION_SECONDS || requests.len()
        > MAX_REQUEST_IDS) {
        remembered(requests.drop_first(), now)
    } else {
        requests
    }
}

/// Whether a request is among some requests.
pub open spec fn was_seen(requests: Seq<(u64, Seq<char>)>, id: Seq<char>) -> bool {
    exists|i: int| 0 <= i < requests.len() && (#[trigger] requests[i]).1 == id
}

/// A request as a guard sees it: its name, when it was issued, and when it
/// came.
pub struct RequestCall {
    pub id: Seq<char>,
    pub issued_at: u64,
    pub now: u64,
}

/// Whether a request is taken in: its name is not remembered when it comes.
pub open spec fn takes(requests: Seq<(u64, Seq<char>)>, call: RequestCall) -> bool {
    !was_seen(remembered(requests, call.now), call.id)
}

/// What is remembered after a request came.
pub open spec fn after_call(requests: Seq<(u64, Seq<char>)>, call: RequestCall) -> Seq<
    (u64, Seq<char>),
> {
    if takes(requests, call) {
        remembered(requests, call.now).push((call.issued_at, call.id))
    } else {
        remembered(requests, call.now)
    }
}

impl View for ReplayGuard {
    type V = Seq<(u64, Seq<char>)>;

    closed spec fn view(&self) -> Seq<(u64, Seq<char>)> {
        self.ordered@.map_values(|request: SeenRequest| (request.issued_at, request.id@))
    }
}

impl ReplayGuard {
    /// A guard that has seen nothing.
    pub fn new() -> (guard: ReplayGuard)
        ensures
            guard@ == Seq::<(u64, Seq<char>)>::empty(),
    {
        let guard = ReplayGuard { ordered: Vec::new() };
        assert(guard@ =~= Seq::<(u64, Seq<char>)>::empty());
        guard
    }

    /// How many requests the guard remembers.
    pub fn len(&self) -> (count: usize)
        ensures
            count == self@.len(),
    {
        self.ordered.len()
    }

    /// Accepts a request that is not remembered at the time `now`, and
    /// remembers it.
    pub fn accept_request_id(&mut self, request_id: &str, issued_at: u64, now: u64) -> (result:
        Result<(), DispatchError>)
        ensures
            ({
                let call = RequestCall { id: request_id@, issued_at, now };
                &&& final(self)@ == after_call(old(self)@, call)
                &&& if takes(old(self)@, call) {
                    result == Ok::<(), DispatchError>(())
                } else {
                    result matches Err(error) && error.is_invalid(
                        "request has already been processed"@,
                    )
                }
            }),
    {
        while self.ordered.len() > 0 && (now.saturating_sub(self.ordered[0].issued_at)
            > RETENTION_SECONDS || self.ordered.len() > MAX_REQUEST_IDS)
            invariant
                remembered(self@, now) == remembered(old(self)@, now),
            decreases self.ordered.len(),
        {
            let ghost before = self@;
            assert(before[0].0 == self.ordered@[0].issued_at);
            let _ = self.ordered.remove(0);
            assert(self@ =~= before.drop_first());
        }
        assert(self@.len() > 0 ==> self@[0].0 == self.ordered@[0].issued_at);
        let mut i: usize = 0;
        while i < self.ordered.len()
            invariant
                i <= self.ordered.len(),
                self@ == remembered(old(self)@, now),
                forall|j: int| 0 <= j < i ==> (#[trigger] self@[j]).1 != request_id@,
            decreases self.ordered.len() - i,
        {
            if text_eq(self.ordered[i].id.as_str(), request_id) {
                assert(self@[i as int].1 == request_id@);
                return Err(invalid("request has already been processed"));
            }
            assert(self@[i as int].1 == self.ordered@[i as int].id@);
            i += 1;
        }
        let ghost kept = self@;
        self.ordered.push(SeenRequest { issued_at, id: request_id.to_owned() });
        assert(self@ =~= kept.push((issued_at, request_id@)));
        Ok(())
    }
}

impl Default for ReplayGuard {
    fn default() -> (guard: ReplayGuard)
        ensures
            guard@ == Seq::<(u64, Seq<char>)>::empty(),
    {
        ReplayGuard::new()
    }
}

/// A request that was processed is refused when it comes again, as long as it
/// is not too old and not too many requests came behind it.
pub proof fn law_accepted_request_is_refused_again(
    requests: Seq<(u64, Seq<char>)>,
    index: int,
    now: u64,
)
    requires
        0 <= index < requests.len(),
        now - requests[index].0 <= RETENTION_SECONDS,
        requests.len() - index <= MAX_REQUEST_IDS,
    ensures
        was_seen(remembered(requests, now), requests[index].1),
    decreases requests.len(),
{
    if now - requests[0].0 > RETENTION_SECONDS || requests.len() > MAX_REQUEST_IDS {
        let rest = requests.drop_first();
        assert(rest[index - 1] == requests[index]);
        law_accepted_request_is_refused_again(rest, index - 1, now);
    } else {
        assert(requests[index].1 == requests[index].1);
    }
}

/// Before a request is taken in, the guard remembers no more than its limit.
pub proof fn law_remembered_requests_are_bounded(requests: Seq<(u64, Seq<char>)>, now: u64)
    ensures
        remembered(requests, now).len() <= MAX_REQUEST_IDS,
    decreases requests.len(),
{
    if requests.len() > 0 && (now - requests[0].0 > RETENTION_SECONDS || requests.len()
        > MAX_REQUEST_IDS) {
        law_remembered_requests_are_bounded(requests.drop_first(), now);
    }
}

/// What a guard remembers after some requests came to it, of which it had seen
/// none.
pub open spec fn guard_after(calls: Seq<RequestCall>) -> Seq<(u64, Seq<char>)>
    decreases calls.len(),
{
    if calls.len() == 0 {
        Seq::empty()
    } else {
        after_call(guard_after(calls.drop_last()), calls.last())
    }
}

/// Whether the request with a number was taken in.
pub open spec fn was_taken(calls: Seq<RequestCall>, index: int) -> bool {
    takes(guard_after(calls.take(index)), calls[index])
}

/// How many requests were taken in behind the one with a number.
pub open spec fn taken_since(calls: Seq<RequestCall>, index: int) -> nat
    decreases calls.len(),
{
    if calls.len() == 0 || calls.len() <= index + 1 {
        0
    } else {
        taken_since(calls.drop_last(), index) + if was_taken(calls, calls.len() - 1) {
            1nat
        } else {
            0nat
        }
    }
}

proof fn lemma_remembered_keeps(requests: Seq<(u64, Seq<char>)>, index: int, now: u64) -> (kept:
    int)
    requires
        0 <= index < requests.len(),
        now - requests[index].0 <= RETENTION_SECONDS,
        requests.len() - index <= MAX_REQUEST_IDS,
    ensures
        0 <= kept < remembered(requests, now).len(),
        remembered(requests, now)[kept] == requests[index],
        remembered(requests, now).len() - kept == requests.len() - index,
    decreases requests.len(),
{
    if now - requests[0].0 > RETENTION_SECONDS || requests.len() > MAX_REQUEST_IDS {
        let rest = requests.drop_first();
        assert(rest[index - 1] == requests[index]);
        lemma_remembered_keeps(rest, index - 1, now)
    } else {
        index
    }
}

/// A request that was taken in stays remembered, with those behind it.
proof fn lemma_taken_stays(calls: Seq<RequestCall>, index: int, now: u64) -> (place: int)
    requires
        0 <= index < calls.len(),
        was_taken(calls, index),
        now - calls[index].issued_at <= RETENTION_SECONDS,
        forall|j: int| index < j < calls.len() ==> (#[trigger] calls[j]).now <= now,
        taken_since(calls, index) < MAX_REQUEST_IDS,
    ensures
        0 <= place < guard_after(calls).len(),
        guard_after(calls)[place] == (calls[index].issued_at, calls[index].id),
        guard_after(calls).len() - place == 1 + taken_since(calls, index),
    decreases calls.len(),
{
    let earlier = calls.drop_last();
    let before = guard_after(earlier);
    if index == calls.len() - 1 {
        assert(calls.take(index) =~= earlier);
        guard_after(calls).len() - 1
    } else {
        assert(earlier.take(index) =~= calls.take(index));
        assert(calls.take(calls.len() - 1) =~= earlier);
        let place = lemma_taken_stays(earlier, index, now);
        lemma_remembered_keeps(before, place, calls.last().now)
    }
}

/// A request that was taken in is refused when it comes again, with whatever
/// stamp and however often, as long as it was issued no more than the time of
/// retention ago, the clock was not set back, and not too many others were
/// taken in since.
pub proof fn law_taken_requests_stay_refused(
    calls: Seq<RequestCall>,
    index: int,
    again: RequestCall,
)
    requires
        0 <= index < calls.len(),
        was_taken(calls, index),
        again.id == calls[index].id,
        again.now - calls[index].issued_at <= RETENTION_SECONDS,
        forall|j: int| index < j < calls.len() ==> (#[trigger] calls[j]).now <= again.now,
        taken_since(calls, index) < MAX_REQUEST_IDS,
    ensures
        !takes(guard_after(calls), again),
        taken_since(calls.push(again), index) == taken_since(calls, index),
        was_taken(calls.push(again), index),
{
    let place = lemma_taken_stays(calls, index, again.now);
    law_accepted_request_is_refused_again(guard_after(calls), place, again.now);
    assert(calls.push(again).drop_last() =~= calls);
    assert(calls.push(again).take(calls.len() as int) =~= calls);
    assert(calls.push(again).take(index) =~= calls.take(index));
}

proof fn lemma_remembered_is_part(requests: Seq<(u64, Seq<char>)>, now: u64, id: Seq<char>)
    requires
        was_seen(remembered(requests, now), id),
    ensures
        was_seen(requests, id),
    decreases requests.len(),
{
    if requests.len() > 0 && (now - requests[0].0 > RETENTION_SECONDS || requests.len()
        > MAX_REQUEST_IDS) {
        let rest = requests.drop_first();
        lemma_remembered_is_part(rest, now, id);
        let i = choose|i: int| 0 <= i < rest.len() && (#[trigger] rest[i]).1 == id;
        assert(requests[i + 1].1 == id);
    }
}

proof fn lemma_seen_was_taken(calls: Seq<RequestCall>, id: Seq<char>)
    requires
        was_seen(guard_after(calls), id),
    ensures
        exists|j: int| 0 <= j < calls.len() && calls[j].id == id && #[trigger] was_taken(calls, j),
    decreases calls.len(),
{
    let earlier = calls.drop_last();
    assert(calls.take(calls.len() - 1) =~= earlier);
    let kept = remembered(guard_after(earlier), calls.last().now);
    if was_taken(calls, calls.len() - 1) && calls.last().id == id {
    } else {
        assert(was_seen(kept, id)) by {
            let all = guard_after(calls);
            let i = choose|i: int| 0 <= i < all.len() && (#[trigger] all[i]).1 == id;
            assert(kept[i].1 == id);
        }
        lemma_remembered_is_part(guard_after(earlier), calls.last().now, id);
        lemma_seen_was_taken(earlier, id);
        let j = choose|j: int|
            0 <= j < earlier.len() && earlier[j].id == id && #[trigger] was_taken(earlier, j);
        assert(earlier.take(j) =~= calls.take(j));
        assert(was_taken(calls, j));
    }
}

/// A request whose name was never taken in is taken in.
pub proof fn law_new_requests_are_taken(calls: Seq<RequestCall>, call: RequestCall)
    requires
        forall|j: int|
            0 <= j < calls.len() && #[trigger] was_taken(calls, j) ==> calls[j].id != call.id,
    ensures
        takes(guard_after(calls), call),
{
    if !takes(guard_after(calls), call) {
        lemma_remembered_is_part(guard_after(calls), call.now, call.id);
        lemma_seen_was_taken(calls, call.id);
    }
}

/// How far apart a request and the clock may be, in seconds.
pub const REQUEST_MAX_AGE_SECONDS: u64 = 120;

/// Whether a request was issued at most two minutes from `now`, either way.
pub fn request_is_fresh(issued_at_unix_secs: u64, now: u64) -> (fresh: bool)
    ensures
        fresh == (-120 <= now - issued_at_unix_secs <= 120),
{
    if now >= issued_at_unix_secs {
        now - issued_at_unix_secs <= REQUEST_MAX_AGE_SECONDS
    } else {
        issued_at_unix_secs - now <= REQUEST_MAX_AGE_SECONDS
    }
}

} // verus!
