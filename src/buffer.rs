use vstd::prelude::*;
use crate::points::Coord;

verus! {

/// Number of query slots; the host numbers them 1 through 64.
pub const SLOTS: usize = 64;

/// Answer of a slot that has none: no query yet, or an unknown dataset.
pub const NO_ANSWER: i32 = -1;

/// The request half of a query slot.
#[derive(Clone, Copy, Debug, PartialEq, Eq, Structural)]
pub struct Request {
    pub pos: Coord,
    pub dataset: u32,
}

/// A slot number outside 1 through 64 was given.
#[derive(Clone, Copy, Debug, PartialEq, Eq, Structural)]
pub enum SlotError {
    OutOfRange(i32),
}

/// What the worker does after it was woken.
#[derive(Clone, Copy, Debug, PartialEq, Eq, Structural)]
pub enum WakeOutcome {
    /// Shutdown was asked for: the worker returns.
    Stop,
    /// Nothing was pending: the worker waits again.
    Idle,
    /// Requests were taken into the worker's copy: it answers them.
    Work,
}

/// What the worker does before it waits, once its answers are published.
#[derive(Clone, Copy, Debug, PartialEq, Eq, Structural)]
pub enum WaitDecision {
    /// Shutdown was asked for: the worker returns.
    Stop,
    /// Nothing is pending: the worker waits for the wake signal.
    Sleep,
    /// Requests are already pending: the worker takes them without waiting.
    Drain,
}

/// The worker's choice before waiting, given the shutdown flag and the
/// pending slots.
pub open spec fn wait_decision(please_die: bool, pending: u64) -> WaitDecision {
    if please_die {
        WaitDecision::Stop
    } else if pending == 0 {
        WaitDecision::Sleep
    } else {
        WaitDecision::Drain
    }
}

/// The worker's choice after being woken, given the shutdown flag and the
/// pending slots.
pub open spec fn wake_outcome(please_die: bool, pending: u64) -> WakeOutcome {
    if please_die {
        WakeOutcome::Stop
    } else if pending == 0 {
        WakeOutcome::Idle
    } else {
        WakeOutcome::Work
    }
}

/// Once shutdown was asked for, the worker stops at its next decision,
/// whether it is about to wait or has just been woken, whatever is pending;
/// and no submission or publication clears the request.
pub proof fn lemma_shutdown_stops_worker(pending: u64, mask: u64)
    ensures
        wait_decision(true, pending) == WaitDecision::Stop,
        wake_outcome(true, pending) == WakeOutcome::Stop,
        wait_decision(true, pending | mask) == WaitDecision::Stop,
{
}

/// Slot `i` is set in `m`.
pub open spec fn bit(m: u64, i: int) -> bool {
    0 <= i < 64 && (m >> (i as u64)) & 1u64 == 1u64
}

/// `old` with each slot set in `mask` taken from `new`.
pub open spec fn overwrite_masked<T>(old: Seq<T>, new: Seq<T>, mask: u64) -> Seq<T> {
    Seq::new(old.len(), |i: int| if bit(mask, i) { new[i] } else { old[i] })
}

pub proof fn lemma_bit_or(a: u64, b: u64, i: int)
    requires
        0 <= i < 64,
    ensures
        bit(a | b, i) == (bit(a, i) || bit(b, i)),
{
    let j = i as u64;
    assert(((a | b) >> j) & 1u64 == 1u64 <==> ((a >> j) & 1u64 == 1u64 || (b >> j) & 1u64 == 1u64))
        by (bit_vector);
}

pub proof fn lemma_bit_zero(i: int)
    ensures
        !bit(0u64, i),
{
    if 0 <= i < 64 {
        let j = i as u64;
        assert((0u64 >> j) & 1u64 == 0u64) by (bit_vector);
    }
}

/// Tests slot `i` of `m`.
pub fn has_bit(m: u64, i: usize) -> (r: bool)
    requires
        i < 64,
    ensures
        r == bit(m, i as int),
{
    let j: u64 = i as u64;
    let r = m & (1u64 << j) != 0;
    assert(r == ((m >> j) & 1u64 == 1u64)) by (bit_vector)
        requires
            j < 64,
            r == (m & (1u64 << j) != 0),
    ;
    r
}

/// A request naming dataset 0 at the origin.
pub fn empty_request() -> (r: Request)
    ensures
        r == (Request { pos: Coord { x: 0, y: 0, z: 0 }, dataset: 0 }),
{
    Request { pos: Coord { x: 0, y: 0, z: 0 }, dataset: 0 }
}

/// The worker's private copy: the requests it took, the mask of the slots
/// it has to answer, and the answers it computed.
pub struct WorkerState {
    pub requests: Vec<Request>,
    pub answers: Vec<i32>,
    pub mask: u64,
}

impl WorkerState {
    pub open spec fn wf(&self) -> bool {
        self.requests@.len() == SLOTS && self.answers@.len() == SLOTS
    }

    pub fn new() -> (r: Self)
        ensures
            r.wf(),
            r.mask == 0,
            forall|i: int| 0 <= i < SLOTS ==> r.answers@[i] == NO_ANSWER,
    {
        WorkerState { requests: vec![empty_request(); SLOTS], answers: vec![NO_ANSWER; SLOTS], mask: 0 }
    }
}

/// The state shared by the host and the worker, kept under one lock: the
/// latest request of each slot, the slots with a request not yet taken, the
/// latest answer of each slot and the shutdown flag.
pub struct SharedState {
    pub requests: Vec<Request>,
    pub results: Vec<i32>,
    pub pending: u64,
    pub please_die: bool,
}

impl SharedState {
    pub open spec fn wf(&self) -> bool {
        self.requests@.len() == SLOTS && self.results@.len() == SLOTS
    }

    /// Every slot empty and unanswered, nothing pending, no shutdown asked.
    pub fn new() -> (r: Self)
        ensures
            r.wf(),
            r.pending == 0,
            !r.please_die,
            forall|i: int| 0 <= i < SLOTS ==> r.results@[i] == NO_ANSWER,
    {
        SharedState {
            requests: vec![empty_request(); SLOTS],
            results: vec![NO_ANSWER; SLOTS],
            pending: 0,
            please_die: false,
        }
    }

    /// Marks the slots of `mask` pending and overwrites their requests with
    /// those of `updates`; a later submission for a slot replaces an earlier
    /// one that the worker has not taken yet.
    pub fn submit(&mut self, updates: &Vec<Request>, mask: u64)
        requires
            old(self).wf(),
            updates@.len() == SLOTS,
        ensures
            final(self).wf(),
            final(self).requests@ == overwrite_masked(old(self).requests@, updates@, mask),
            final(self).pending == old(self).pending | mask,
            final(self).results@ == old(self).results@,
            final(self).please_die == old(self).please_die,
    {
        self.pending = self.pending | mask;
        let mut i: usize = 0;
        while i < SLOTS
            invariant
                0 <= i <= SLOTS,
                self.requests@.len() == SLOTS,
                old(self).wf(),
                updates@.len() == SLOTS,
                self.results@ == old(self).results@,
                self.pending == old(self).pending | mask,
                self.please_die == old(self).please_die,
                forall|j: int| 0 <= j < i ==> self.requests@[j] == overwrite_masked(old(self).requests@, updates@, mask)[j],
                forall|j: int| i <= j < SLOTS ==> self.requests@[j] == old(self).requests@[j],
            decreases SLOTS - i,
        {
            if has_bit(mask, i) {
                self.requests.set(i, updates[i]);
            }
            i = i + 1;
        }
        assert(self.requests@ =~= overwrite_masked(old(self).requests@, updates@, mask));
    }

    /// The latest answer of slot `client` (numbered from 1).
    pub fn fetch(&self, client: i32) -> (r: Result<i32, SlotError>)
        requires
            self.wf(),
        ensures
            1 <= client <= 64 ==> r == Ok::<i32, SlotError>(self.results@[client - 1]),
            !(1 <= client <= 64) ==> r == Err::<i32, SlotError>(SlotError::OutOfRange(client)),
    {
        if client < 1 || client > 64 {
            return Err(SlotError::OutOfRange(client));
        }
        Ok(self.results[(client - 1) as usize])
    }

    /// Asks the worker to stop.
    pub fn request_shutdown(&mut self)
        ensures
            final(self).please_die,
            final(self).requests@ == old(self).requests@,
            final(self).results@ == old(self).results@,
            final(self).pending == old(self).pending,
    {
        self.please_die = true;
    }

    /// Writes the worker's answers for the slots it took into the shared
    /// results, and empties its mask.
    pub fn publish(&mut self, work: &mut WorkerState)
        requires
            old(self).wf(),
            old(work).wf(),
        ensures
            final(self).wf(),
            final(work).wf(),
            final(self).results@ == overwrite_masked(old(self).results@, old(work).answers@, old(work).mask),
            final(self).requests@ == old(self).requests@,
            final(self).pending == old(self).pending,
            final(self).please_die == old(self).please_die,
            final(work).mask == 0,
            final(work).requests@ == old(work).requests@,
            final(work).answers@ == old(work).answers@,
    {
        let mask = work.mask;
        let mut i: usize = 0;
        while i < SLOTS
            invariant
                0 <= i <= SLOTS,
                self.results@.len() == SLOTS,
                old(self).wf(),
                self.requests@ == old(self).requests@,
                self.pending == old(self).pending,
                self.please_die == old(self).please_die,
                *work == *old(work),
                mask == old(work).mask,
                work.wf(),
                forall|j: int| 0 <= j < i ==> self.results@[j] == overwrite_masked(old(self).results@, old(work).answers@, mask)[j],
                forall|j: int| i <= j < SLOTS ==> self.results@[j] == old(self).results@[j],
            decreases SLOTS - i,
        {
            if has_bit(mask, i) {
                self.results.set(i, work.answers[i]);
            }
            i = i + 1;
        }
        assert(self.results@ =~= overwrite_masked(old(self).results@, old(work).answers@, mask));
        work.mask = 0;
    }

    /// Worker side, with the lock held, before it waits: publishes the
    /// answers of the last round, then stops if shutdown was asked for,
    /// sleeps if nothing is pending, and otherwise goes on to take the
    /// pending requests at once.
    pub fn before_wait(&mut self, work: &mut WorkerState) -> (r: WaitDecision)
        requires
            old(self).wf(),
            old(work).wf(),
        ensures
            final(self).wf(),
            final(work).wf(),
            r == wait_decision(old(self).please_die, old(self).pending),
            final(self).results@ == overwrite_masked(old(self).results@, old(work).answers@, old(work).mask),
            final(self).requests@ == old(self).requests@,
            final(self).pending == old(self).pending,
            final(self).please_die == old(self).please_die,
            final(work).mask == 0,
            final(work).requests@ == old(work).requests@,
            final(work).answers@ == old(work).answers@,
    {
        self.publish(work);
        if self.please_die {
            WaitDecision::Stop
        } else if self.pending == 0 {
            WaitDecision::Sleep
        } else {
            WaitDecision::Drain
        }
    }

    /// Worker side, with the lock held, after it was woken. Unless shutdown
    /// was asked for, takes every request into the worker's copy, hands the
    /// pending slots over as the worker's mask and clears them here.
    pub fn after_wake(&mut self, work: &mut WorkerState) -> (r: WakeOutcome)
        requires
            old(self).wf(),
            old(work).wf(),
        ensures
            final(self).wf(),
            final(work).wf(),
            final(self).requests@ == old(self).requests@,
            final(self).results@ == old(self).results@,
            final(self).please_die == old(self).please_die,
            final(work).answers@ == old(work).answers@,
            r == wake_outcome(old(self).please_die, old(self).pending),
            old(self).please_die ==> *final(self) == *old(self) && *final(work) == *old(work),
            !old(self).please_die ==> {
                &&& final(work).requests@ == old(self).requests@
                &&& final(work).mask == old(self).pending
                &&& final(self).pending == 0
            },
    {
        if self.please_die {
            return WakeOutcome::Stop;
        }
        let mut i: usize = 0;
        while i < SLOTS
            invariant
                0 <= i <= SLOTS,
                self.wf(),
                *self == *old(self),
                work.requests@.len() == SLOTS,
                work.answers@ == old(work).answers@,
                work.mask == old(work).mask,
                forall|j: int| 0 <= j < i ==> work.requests@[j] == self.requests@[j],
            decreases SLOTS - i,
        {
            work.requests.set(i, self.requests[i]);
            i = i + 1;
        }
        assert(work.requests@ =~= self.requests@);
        work.mask = self.pending;
        self.pending = 0;
        if work.mask == 0 {
            WakeOutcome::Idle
        } else {
            WakeOutcome::Work
        }
    }
}

/// A slot nobody submitted to keeps the empty answer: while its bit is in
/// neither the submitted masks, the pending set nor the worker's mask, a
/// submission for other slots, the worker taking the pending slots, and the
/// worker publishing its answers all leave its result at `NO_ANSWER` and
/// its bit unset.
pub proof fn lemma_unsubmitted_slot_unanswered(
    results: Seq<i32>,
    pending: u64,
    work_mask: u64,
    answers: Seq<i32>,
    mask: u64,
    i: int,
)
    requires
        0 <= i < SLOTS,
        results.len() == SLOTS,
        results[i] == NO_ANSWER,
        !bit(pending, i),
        !bit(work_mask, i),
        !bit(mask, i),
    ensures
        !bit(pending | mask, i),
        !bit(0u64, i),
        overwrite_masked(results, answers, work_mask)[i] == NO_ANSWER,
{
    lemma_bit_or(pending, mask, i);
    lemma_bit_zero(i);
}

/// Of two submissions for the same slot that the worker has not taken in
/// between, the second one's request is what the slot holds, and the slot
/// is pending.
pub proof fn lemma_last_submit_wins(
    requests: Seq<Request>,
    pending: u64,
    first: Seq<Request>,
    first_mask: u64,
    second: Seq<Request>,
    second_mask: u64,
    i: int,
)
    requires
        0 <= i < SLOTS,
        requests.len() == SLOTS,
        bit(second_mask, i),
    ensures
        overwrite_masked(overwrite_masked(requests, first, first_mask), second, second_mask)[i] == second[i],
        bit((pending | first_mask) | second_mask, i),
{
    lemma_bit_or(pending | first_mask, second_mask, i);
}

} // verus!
