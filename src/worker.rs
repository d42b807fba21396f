use vstd::prelude::*;
use crate::points::Coord;
use crate::registry::{Dataset, Registry, has_id, is_first_match};
use crate::buffer::{Request, WorkerState, NO_ANSWER, SLOTS, bit, has_bit, overwrite_masked};

verus! {

/// `a` is a right answer to `req`: the query's answer on the first dataset
/// registered under the requested id, or `NO_ANSWER` when no dataset has it.
pub open spec fn answer_ok<I, F: Fn(&Dataset<I>, Coord) -> i32>(
    reg: Seq<Dataset<I>>,
    req: Request,
    a: i32,
    query: F,
) -> bool {
    if has_id(reg, req.dataset) {
        exists|k: int| is_first_match(reg, req.dataset, k) && query.ensures((&reg[k], req.pos), a)
    } else {
        a == NO_ANSWER
    }
}

/// `after` answers every slot of `mask` rightly and keeps `before` elsewhere.
pub open spec fn resolved<I, F: Fn(&Dataset<I>, Coord) -> i32>(
    reg: Seq<Dataset<I>>,
    requests: Seq<Request>,
    mask: u64,
    before: Seq<i32>,
    after: Seq<i32>,
    query: F,
) -> bool {
    &&& after.len() == before.len()
    &&& forall|i: int| 0 <= i < before.len() ==> {
        if bit(mask, i) {
            answer_ok(reg, requests[i], #[trigger] after[i], query)
        } else {
            after[i] == before[i]
        }
    }
}

/// Some slot of `mask` asks for dataset `id`.
pub open spec fn requested(requests: Seq<Request>, mask: u64, id: u32) -> bool {
    exists|i: int| 0 <= i < SLOTS && bit(mask, i) && requests[i].dataset == id
}

/// The distinct dataset ids that the slots of the worker's mask ask for, in
/// order of the first slot that asks for each.
pub fn unique_datasets(work: &WorkerState) -> (r: Vec<u32>)
    requires
        work.wf(),
    ensures
        r@.no_duplicates(),
        forall|id: u32| r@.contains(id) <==> requested(work.requests@, work.mask, id),
{
    let mut ids: Vec<u32> = Vec::new();
    let mut slot: usize = 0;
    while slot < SLOTS
        invariant
            0 <= slot <= SLOTS,
            work.wf(),
            ids@.no_duplicates(),
            forall|id: u32| ids@.contains(id) <==> exists|i: int| 0 <= i < slot && bit(work.mask, i) && work.requests@[i].dataset == id,
        decreases SLOTS - slot,
    {
        let ghost prev = ids@;
        if has_bit(work.mask, slot) {
            let id = work.requests[slot].dataset;
            let mut known = false;
            let mut j: usize = 0;
            while j < ids.len()
                invariant
                    0 <= j <= ids@.len(),
                    known == (exists|k: int| 0 <= k < j && ids@[k] == id),
                decreases ids@.len() - j,
            {
                if ids[j] == id {
                    known = true;
                }
                j = j + 1;
            }
            assert(known ==> prev.contains(id));
            if !known {
                ids.push(id);
                proof {
                    assert(ids@.last() == id);
                    assert forall|x: u32| prev.contains(x) implies ids@.contains(x) by {
                        let k = choose|k: int| 0 <= k < prev.len() && prev[k] == x;
                        assert(ids@[k] == x);
                    }
                    assert forall|x: u32| ids@.contains(x) && x != id implies prev.contains(x) by {
                        let k = choose|k: int| 0 <= k < ids@.len() && ids@[k] == x;
                        assert(prev[k] == x);
                    }
                    assert(ids@.contains(id)) by {
                        assert(ids@[ids@.len() - 1] == id);
                    }
                }
            }
            proof {
                assert(ids@.contains(id));
                assert forall|x: u32| ids@.contains(x) <==> (prev.contains(x) || x == id) by {}
            }
        }
        proof {
            assert forall|x: u32| ids@.contains(x) <==> exists|i: int| 0 <= i < slot + 1 && bit(work.mask, i) && work.requests@[i].dataset == x by {
                if ids@.contains(x) {
                    if prev.contains(x) {
                        let i = choose|i: int| 0 <= i < slot && bit(work.mask, i) && work.requests@[i].dataset == x;
                        assert(0 <= i < slot + 1 && bit(work.mask, i) && work.requests@[i].dataset == x);
                    } else {
                        assert(bit(work.mask, slot as int) && work.requests@[slot as int].dataset == x);
                    }
                }
                if exists|i: int| 0 <= i < slot + 1 && bit(work.mask, i) && work.requests@[i].dataset == x {
                    let i = choose|i: int| 0 <= i < slot + 1 && bit(work.mask, i) && work.requests@[i].dataset == x;
                    if i < slot {
                        assert(prev.contains(x));
                    }
                }
            }
        }
        slot = slot + 1;
    }
    ids
}

/// Answers the slots of the worker's mask, one dataset id at a time: the
/// registry is searched once per id, and the query runs for each slot that
/// asks for a dataset found there. Slots asking for an id that nothing is
/// registered under get `NO_ANSWER`.
pub fn resolve<I, F: Fn(&Dataset<I>, Coord) -> i32>(work: &mut WorkerState, registry: &Registry<I>, query: &F)
    requires
        old(work).wf(),
        forall|d: &Dataset<I>, c: Coord| query.requires((d, c)),
    ensures
        final(work).wf(),
        final(work).requests@ == old(work).requests@,
        final(work).mask == old(work).mask,
        resolved(registry@, old(work).requests@, old(work).mask, old(work).answers@, final(work).answers@, *query),
{
    let ids = unique_datasets(work);
    let ghost reqs = work.requests@;
    let ghost mask = work.mask;
    let mut u: usize = 0;
    while u < ids.len()
        invariant
            0 <= u <= ids@.len(),
            work.wf(),
            work.requests@ == reqs,
            work.mask == mask,
            reqs == old(work).requests@,
            mask == old(work).mask,
            ids@.no_duplicates(),
            forall|id: u32| ids@.contains(id) <==> requested(reqs, mask, id),
            forall|d: &Dataset<I>, c: Coord| query.requires((d, c)),
            forall|i: int| 0 <= i < SLOTS ==> {
                if bit(mask, i) && (exists|k: int| 0 <= k < u && ids@[k] == reqs[i].dataset) {
                    answer_ok(registry@, reqs[i], #[trigger] work.answers@[i], *query)
                } else {
                    work.answers@[i] == old(work).answers@[i]
                }
            },
        decreases ids@.len() - u,
    {
        let id = ids[u];
        let found = registry.find(id);
        let mut slot: usize = 0;
        while slot < SLOTS
            invariant
                0 <= slot <= SLOTS,
                0 <= u < ids@.len(),
                id == ids@[u as int],
                work.wf(),
                work.requests@ == reqs,
                work.mask == mask,
                reqs == old(work).requests@,
                mask == old(work).mask,
                ids@.no_duplicates(),
                forall|d: &Dataset<I>, c: Coord| query.requires((d, c)),
                match found {
                    Some(k) => is_first_match(registry@, id, k as int),
                    None => !has_id(registry@, id),
                },
                forall|i: int| 0 <= i < SLOTS ==> {
                    if bit(mask, i) && ((exists|k: int| 0 <= k < u && ids@[k] == reqs[i].dataset) || (i < slot && reqs[i].dataset == id)) {
                        answer_ok(registry@, reqs[i], #[trigger] work.answers@[i], *query)
                    } else {
                        work.answers@[i] == old(work).answers@[i]
                    }
                },
            decreases SLOTS - slot,
        {
            if has_bit(work.mask, slot) && work.requests[slot].dataset == id {
                let a = match found {
                    Some(k) => query(&registry.datasets[k], work.requests[slot].pos),
                    None => NO_ANSWER,
                };
                proof {
                    if let Some(k) = found {
                        assert(is_first_match(registry@, reqs[slot as int].dataset, k as int));
                    }
                }
                work.answers.set(slot, a);
                proof {
                    assert forall|i: int| 0 <= i < SLOTS && i != slot implies
                        work.answers@[i] == old(work).answers@[i] || answer_ok(registry@, reqs[i], #[trigger] work.answers@[i], *query)
                    by {}
                }
            }
            slot = slot + 1;
        }
        proof {
            assert forall|i: int| 0 <= i < SLOTS && bit(mask, i) && (exists|k: int| 0 <= k < u + 1 && ids@[k] == reqs[i].dataset)
                implies (exists|k: int| 0 <= k < u && ids@[k] == reqs[i].dataset) || reqs[i].dataset == id by {
                let k = choose|k: int| 0 <= k < u + 1 && ids@[k] == reqs[i].dataset;
                if k == u {
                } 
            }
        }
        u = u + 1;
    }
    proof {
        assert forall|i: int| 0 <= i < SLOTS && bit(mask, i) implies (exists|k: int| 0 <= k < u && ids@[k] == reqs[i].dataset) by {
            assert(requested(reqs, mask, reqs[i].dataset));
            assert(ids@.contains(reqs[i].dataset));
        }
    }
}

/// A slot whose request names an id that no dataset is registered under
/// reads `NO_ANSWER` once the worker has taken, answered and published it.
pub proof fn lemma_unknown_dataset_unanswered<I, F: Fn(&Dataset<I>, Coord) -> i32>(
    reg: Seq<Dataset<I>>,
    requests: Seq<Request>,
    mask: u64,
    before: Seq<i32>,
    after: Seq<i32>,
    results: Seq<i32>,
    query: F,
    i: int,
)
    requires
        0 <= i < SLOTS,
        before.len() == SLOTS,
        results.len() == SLOTS,
        resolved(reg, requests, mask, before, after, query),
        bit(mask, i),
        !has_id(reg, requests[i].dataset),
    ensures
        overwrite_masked(results, after, mask)[i] == NO_ANSWER,
{
    assert(answer_ok(reg, requests[i], after[i], query));
}

/// When a slot was submitted twice before the worker took it, the answer
/// the worker publishes for it is a right answer to the second request.
pub proof fn lemma_answer_follows_last_submit<I, F: Fn(&Dataset<I>, Coord) -> i32>(
    reg: Seq<Dataset<I>>,
    requests: Seq<Request>,
    first: Seq<Request>,
    first_mask: u64,
    second: Seq<Request>,
    second_mask: u64,
    mask: u64,
    before: Seq<i32>,
    after: Seq<i32>,
    results: Seq<i32>,
    query: F,
    i: int,
)
    requires
        0 <= i < SLOTS,
        requests.len() == SLOTS,
        before.len() == SLOTS,
        results.len() == SLOTS,
        bit(second_mask, i),
        bit(mask, i),
        resolved(reg, overwrite_masked(overwrite_masked(requests, first, first_mask), second, second_mask), mask, before, after, query),
    ensures
        answer_ok(reg, second[i], overwrite_masked(results, after, mask)[i], query),
{
    let taken = overwrite_masked(overwrite_masked(requests, first, first_mask), second, second_mask);
    assert(taken[i] == second[i]);
    assert(answer_ok(reg, taken[i], after[i], query));
}

} // verus!
