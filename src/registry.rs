use vstd::prelude::*;
use crate::points::{Point, RegisterError, prepare_points, prepared};

verus! {

/// Bytes counted for each dataset on top of its index.
pub const DATASET_OVERHEAD: usize = 20;

/// One registered point set: its id, its deduplicated points, the nearest
/// point index built over them and that index's memory footprint. Dropping
/// a dataset releases the points and the index together.
pub struct Dataset<I> {
    pub id: u32,
    pub points: Vec<Point>,
    pub index: I,
    pub index_bytes: usize,
}

/// The datasets in order of registration. Several may share an id; a lookup
/// finds the first.
pub struct Registry<I> {
    pub datasets: Vec<Dataset<I>>,
}

pub open spec fn has_id<I>(s: Seq<Dataset<I>>, id: u32) -> bool {
    exists|j: int| 0 <= j < s.len() && s[j].id == id
}

/// `k` is the first position of `s` whose dataset has this id.
pub open spec fn is_first_match<I>(s: Seq<Dataset<I>>, id: u32, k: int) -> bool {
    0 <= k < s.len() && s[k].id == id && forall|j: int| 0 <= j < k ==> s[j].id != id
}

/// What the registry charges for the datasets of `s`.
pub open spec fn memory_total<I>(s: Seq<Dataset<I>>) -> int
    decreases s.len(),
{
    if s.len() == 0 {
        0
    } else {
        memory_total(s.drop_last()) + DATASET_OVERHEAD + s.last().index_bytes
    }
}

/// The registry after `remove_all`.
pub open spec fn cleared<I>(s: Seq<Dataset<I>>) -> Seq<Dataset<I>> {
    Seq::empty()
}

/// The registry after `remove(id)`: the first dataset with that id is gone.
pub open spec fn removed<I>(s: Seq<Dataset<I>>, id: u32) -> Seq<Dataset<I>> {
    if has_id(s, id) {
        s.remove(choose|k: int| is_first_match(s, id, k))
    } else {
        s
    }
}

proof fn lemma_first_match_unique<I>(s: Seq<Dataset<I>>, id: u32, a: int, b: int)
    requires
        is_first_match(s, id, a),
        is_first_match(s, id, b),
    ensures
        a == b,
{
}

proof fn lemma_memory_total_monotone<I>(s: Seq<Dataset<I>>, i: int)
    requires
        0 <= i <= s.len(),
    ensures
        memory_total(s.subrange(0, i)) <= memory_total(s),
    decreases s.len() - i,
{
    if i < s.len() {
        lemma_memory_total_monotone(s, i + 1);
        assert(s.subrange(0, i + 1).drop_last() == s.subrange(0, i));
    } else {
        assert(s.subrange(0, i) == s);
    }
}

impl<I> Registry<I> {
    pub open spec fn view(&self) -> Seq<Dataset<I>> {
        self.datasets@
    }

    pub fn new() -> (r: Self)
        ensures
            r@.len() == 0,
    {
        Registry { datasets: Vec::new() }
    }

    pub fn len(&self) -> (r: usize)
        ensures
            r == self@.len(),
    {
        self.datasets.len()
    }

    /// Appends a dataset; an earlier one with the same id stays in place and
    /// keeps answering lookups for that id.
    pub fn register(&mut self, id: u32, points: Vec<Point>, index: I, index_bytes: usize)
        ensures
            final(self)@.len() == old(self)@.len() + 1,
            final(self)@.subrange(0, old(self)@.len() as int) == old(self)@,
            final(self)@.last().id == id,
            final(self)@.last().points == points,
            final(self)@.last().index == index,
            final(self)@.last().index_bytes == index_bytes,
    {
        self.datasets.push(Dataset { id, points, index, index_bytes });
        assert(self@.subrange(0, old(self)@.len() as int) =~= old(self)@);
    }

    /// Checks the requested range of the host list, keeps the first point of
    /// each coordinate, builds an index over those points and appends the
    /// dataset. When a check fails nothing is built and the registry stays
    /// as it was.
    pub fn register_dataset<B: Fn(&Vec<Point>) -> (I, usize)>(
        &mut self,
        id: u32,
        rows: &Vec<Vec<i32>>,
        offset: i32,
        start: i32,
        count: i32,
        build: &B,
    ) -> (r: Result<(), RegisterError>)
        requires
            rows@.len() <= i32::MAX,
            forall|p: &Vec<Point>| build.requires((p,)),
        ensures
            match prepared(rows@, offset, start, count) {
                Err(e) => r == Err::<(), RegisterError>(e) && final(self)@ == old(self)@,
                Ok(kept) => {
                    &&& r is Ok
                    &&& final(self)@.len() == old(self)@.len() + 1
                    &&& final(self)@.subrange(0, old(self)@.len() as int) == old(self)@
                    &&& final(self)@.last().id == id
                    &&& final(self)@.last().points@ == kept
                    &&& build.ensures((&final(self)@.last().points,), (final(self)@.last().index, final(self)@.last().index_bytes))
                },
            },
    {
        match prepare_points(rows, offset, start, count) {
            Err(e) => Err(e),
            Ok(points) => {
                let (index, index_bytes) = build(&points);
                self.register(id, points, index, index_bytes);
                Ok(())
            },
        }
    }

    /// Position of the first dataset with this id.
    pub fn find(&self, id: u32) -> (r: Option<usize>)
        ensures
            match r {
                Some(k) => is_first_match(self@, id, k as int),
                None => !has_id(self@, id),
            },
    {
        let mut k: usize = 0;
        while k < self.datasets.len()
            invariant
                0 <= k <= self@.len(),
                forall|j: int| 0 <= j < k ==> self@[j].id != id,
            decreases self@.len() - k,
        {
            if self.datasets[k].id == id {
                return Some(k);
            }
            k = k + 1;
        }
        None
    }

    /// Drops the first dataset with this id, if there is one.
    pub fn remove(&mut self, id: u32)
        ensures
            final(self)@ == removed(old(self)@, id),
    {
        match self.find(id) {
            Some(k) => {
                proof {
                    let c = choose|c: int| is_first_match(old(self)@, id, c);
                    lemma_first_match_unique(old(self)@, id, c, k as int);
                }
                let _gone = self.datasets.remove(k);
            },
            None => {},
        }
    }

    /// Drops every dataset.
    pub fn remove_all(&mut self)
        ensures
            final(self)@ == cleared(old(self)@),
    {
        self.datasets.clear();
    }

    /// Bytes used by the registered indexes plus a fixed charge per dataset,
    /// capped at `usize::MAX`.
    pub fn total_memory_bytes(&self) -> (r: usize)
        ensures
            r == if memory_total(self@) <= usize::MAX { memory_total(self@) } else { usize::MAX as int },
    {
        let mut total: usize = 0;
        let mut k: usize = 0;
        while k < self.datasets.len()
            invariant
                0 <= k <= self@.len(),
                total == memory_total(self@.subrange(0, k as int)),
            decreases self@.len() - k,
        {
            let d = &self.datasets[k];
            assert(self@.subrange(0, k + 1).drop_last() == self@.subrange(0, k as int));
            if d.index_bytes > usize::MAX - DATASET_OVERHEAD || total > usize::MAX - DATASET_OVERHEAD - d.index_bytes {
                proof {
                    lemma_memory_total_monotone(self@, k + 1);
                }
                return usize::MAX;
            }
            total = total + DATASET_OVERHEAD + d.index_bytes;
            k = k + 1;
        }
        assert(self@.subrange(0, k as int) == self@);
        total
    }
}

/// Removing every dataset twice in a row leaves the registry empty after
/// each call, just as one call does.
pub proof fn lemma_remove_all_idempotent<I>(s: Seq<Dataset<I>>)
    ensures
        cleared(s).len() == 0,
        cleared(cleared(s)).len() == 0,
        cleared(cleared(s)) == cleared(s),
{
}

} // verus!
