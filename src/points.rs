use vstd::prelude::*;

verus! {

/// A 3-D position as the host stores it: the raw cell values that hold the
/// bits of each `f32` component. Two coordinates are the same point exactly
/// when their bits agree.
#[derive(Clone, Copy, Debug, PartialEq, Eq, Structural)]
pub struct Coord {
    pub x: i32,
    pub y: i32,
    pub z: i32,
}

/// A stored point: its coordinate and its label, the position the point had
/// in the host's list before duplicates were dropped.
#[derive(Clone, Copy, Debug, PartialEq, Eq, Structural)]
pub struct Point {
    pub coord: Coord,
    pub idx: i32,
}

/// Why a registration was refused. The registry is left as it was.
#[derive(Clone, Copy, Debug, PartialEq, Eq, Structural)]
pub enum RegisterError {
    /// The offset of the coordinate inside a block is negative.
    NegativeOffset(i32),
    /// The start index is negative or not below the number of blocks.
    StartOutOfRange { start: i32, size: usize },
    /// Fewer than one point was asked for.
    CountTooSmall(i32),
    /// Some block in the range has no room for three cells at the offset.
    OffsetPastBlock(i32),
}

pub open spec fn coord_at(row: Seq<i32>, offset: int) -> Coord {
    Coord { x: row[offset], y: row[offset + 1], z: row[offset + 2] }
}

/// Number of points taken: `count`, cut down to the blocks from `start` on.
pub open spec fn taken(size: int, start: int, count: int) -> int {
    if count < size - start { count } else { size - start }
}

/// The points of blocks `start .. start + n`, in list order, each labelled
/// with its block index.
pub open spec fn source_points(rows: Seq<Vec<i32>>, offset: int, start: int, n: int) -> Seq<Point> {
    Seq::new(n as nat, |i: int| Point { coord: coord_at(rows[start + i]@, offset), idx: (start + i) as i32 })
}

pub open spec fn has_coord(s: Seq<Point>, c: Coord) -> bool {
    exists|j: int| 0 <= j < s.len() && s[j].coord == c
}

/// `s` with every point dropped whose coordinate occurs earlier in `s`.
pub open spec fn dedup_first(s: Seq<Point>) -> Seq<Point>
    decreases s.len(),
{
    if s.len() == 0 {
        Seq::empty()
    } else {
        let rest = dedup_first(s.drop_last());
        if has_coord(s.drop_last(), s.last().coord) {
            rest
        } else {
            rest.push(s.last())
        }
    }
}

/// Every block in `start .. start + n` holds three cells from `offset` on.
pub open spec fn blocks_hold(rows: Seq<Vec<i32>>, offset: int, start: int, n: int) -> bool {
    forall|i: int| start <= i < start + n ==> offset + 3 <= #[trigger] rows[i]@.len()
}

/// The outcome that `prepare_points` owes for each input.
pub open spec fn prepared(rows: Seq<Vec<i32>>, offset: i32, start: i32, count: i32) -> Result<Seq<Point>, RegisterError> {
    let size = rows.len() as int;
    if offset < 0 {
        Err(RegisterError::NegativeOffset(offset))
    } else if start < 0 || start >= size {
        Err(RegisterError::StartOutOfRange { start, size: rows.len() as usize })
    } else if count < 1 {
        Err(RegisterError::CountTooSmall(count))
    } else if !blocks_hold(rows, offset as int, start as int, taken(size, start as int, count as int)) {
        Err(RegisterError::OffsetPastBlock(offset))
    } else {
        Ok(dedup_first(source_points(rows, offset as int, start as int, taken(size, start as int, count as int))))
    }
}

proof fn lemma_dedup_has_coord(s: Seq<Point>, c: Coord)
    ensures
        has_coord(dedup_first(s), c) == has_coord(s, c),
    decreases s.len(),
{
    if s.len() > 0 {
        let p = s.drop_last();
        lemma_dedup_has_coord(p, c);
        let d = dedup_first(p);
        if has_coord(s, c) && !has_coord(p, c) {
            assert(s.last().coord == c) by {
                let j = choose|j: int| 0 <= j < s.len() && s[j].coord == c;
                if j < p.len() {
                    assert(p[j] == s[j]);
                }
            }
        }
        if has_coord(p, c) {
            let j = choose|j: int| 0 <= j < p.len() && p[j].coord == c;
            assert(s[j] == p[j]);
        }
        if !has_coord(p, s.last().coord) {
            let e = d.push(s.last());
            if has_coord(d, c) {
                let j = choose|j: int| 0 <= j < d.len() && d[j].coord == c;
                assert(e[j] == d[j]);
            }
            if has_coord(e, c) && !has_coord(d, c) {
                let j = choose|j: int| 0 <= j < e.len() && e[j].coord == c;
                if j < d.len() {
                    assert(e[j] == d[j]);
                }
            }
            assert(s[s.len() - 1] == s.last());
            assert(e[e.len() - 1] == s.last());
        } else if has_coord(s, c) && !has_coord(p, c) {
            assert(has_coord(p, c));
        }
    }
}

/// Reads the requested blocks of a host list and keeps, of each coordinate,
/// the point that comes first in list order.
///
/// `count` is cut down to the blocks available from `start` on; the checks
/// run in the order the error variants are listed.
pub fn prepare_points(rows: &Vec<Vec<i32>>, offset: i32, start: i32, count: i32) -> (r: Result<Vec<Point>, RegisterError>)
    requires
        rows@.len() <= i32::MAX,
    ensures
        match r {
            Ok(v) => prepared(rows@, offset, start, count) == Ok::<Seq<Point>, RegisterError>(v@),
            Err(e) => prepared(rows@, offset, start, count) == Err::<Seq<Point>, RegisterError>(e),
        },
{
    let size = rows.len();
    if offset < 0 {
        return Err(RegisterError::NegativeOffset(offset));
    }
    if start < 0 || start as usize >= size {
        return Err(RegisterError::StartOutOfRange { start, size });
    }
    if count < 1 {
        return Err(RegisterError::CountTooSmall(count));
    }
    let s: usize = start as usize;
    let off: usize = offset as usize;
    let n: usize = if (count as usize) < size - s { count as usize } else { size - s };
    assert(n as int == taken(size as int, start as int, count as int));
    let mut i: usize = 0;
    while i < n
        invariant
            0 <= i <= n,
            s + n <= size,
            size == rows@.len(),
            off == offset,
            s == start,
            0 <= start < size,
            offset >= 0,
            count >= 1,
            n as int == taken(size as int, start as int, count as int),
            blocks_hold(rows@, off as int, s as int, i as int),
        decreases n - i,
    {
        if rows[s + i].len() < 3 || off > rows[s + i].len() - 3 {
            assert(!blocks_hold(rows@, off as int, s as int, n as int)) by {
                assert(!(off + 3 <= rows@[s + i]@.len()));
            }
            return Err(RegisterError::OffsetPastBlock(offset));
        }
        i = i + 1;
    }
    let ghost src = source_points(rows@, off as int, s as int, n as int);
    let mut out: Vec<Point> = Vec::new();
    let mut i: usize = 0;
    while i < n
        invariant
            0 <= i <= n,
            s + n <= size <= i32::MAX,
            size == rows@.len(),
            blocks_hold(rows@, off as int, s as int, n as int),
            src == source_points(rows@, off as int, s as int, n as int),
            out@ == dedup_first(src.subrange(0, i as int)),
        decreases n - i,
    {
        assert(off + 3 <= rows@[s + i]@.len());
        let row = &rows[s + i];
        let rl: usize = row.len();
        assert(off + 3 <= rl);
        let c = Coord { x: row[off], y: row[off + 1], z: row[off + 2] };
        let p = Point { coord: c, idx: (s + i) as i32 };
        assert(p == src[i as int]);
        let mut seen = false;
        let mut j: usize = 0;
        while j < out.len()
            invariant
                0 <= j <= out.len(),
                seen == (exists|k: int| 0 <= k < j && out@[k].coord == c),
            decreases out.len() - j,
        {
            if out[j].coord == c {
                seen = true;
            }
            j = j + 1;
        }
        let ghost pre = src.subrange(0, i as int);
        proof {
            lemma_dedup_has_coord(pre, c);
            assert(src.subrange(0, i + 1).drop_last() == pre);
            assert(src.subrange(0, i + 1).last() == p);
        }
        if !seen {
            out.push(p);
        }
        i = i + 1;
    }
    assert(src.subrange(0, n as int) == src);
    Ok(out)
}

/// `j` is the first position of `s` with the coordinate of `s[j]`.
pub open spec fn first_of_coord(s: Seq<Point>, j: int) -> bool {
    0 <= j < s.len() && forall|k: int| 0 <= k < j ==> s[k].coord != s[j].coord
}

/// `p` is the point at a position of `s` that is first with its coordinate.
pub open spec fn from_first(s: Seq<Point>, p: Point) -> bool {
    exists|j: int| first_of_coord(s, j) && s[j] == p
}

pub open spec fn coords(s: Seq<Point>) -> Seq<Coord> {
    s.map_values(|p: Point| p.coord)
}

proof fn lemma_dedup_distinct(s: Seq<Point>)
    ensures
        coords(dedup_first(s)).no_duplicates(),
    decreases s.len(),
{
    if s.len() > 0 {
        let p = s.drop_last();
        lemma_dedup_distinct(p);
        lemma_dedup_has_coord(p, s.last().coord);
        let d = dedup_first(p);
        if !has_coord(p, s.last().coord) {
            let e = d.push(s.last());
            assert forall|a: int, b: int| 0 <= a < b < e.len() implies coords(e)[a] != coords(e)[b] by {
                if b == e.len() - 1 {
                    assert(e[a] == d[a]);
                    assert(!(d[a].coord == s.last().coord));
                } else {
                    assert(e[a] == d[a] && e[b] == d[b]);
                    assert(coords(d)[a] != coords(d)[b]);
                }
            }
        }
    }
}

proof fn lemma_dedup_keeps_first(s: Seq<Point>, i: int)
    requires
        first_of_coord(s, i),
    ensures
        dedup_first(s).contains(s[i]),
    decreases s.len(),
{
    let p = s.drop_last();
    if i == s.len() - 1 {
        assert(!has_coord(p, s[i].coord)) by {
            if has_coord(p, s[i].coord) {
                let j = choose|j: int| 0 <= j < p.len() && p[j].coord == s[i].coord;
                assert(s[j] == p[j]);
            }
        }
        let d = dedup_first(s);
        assert(d[d.len() - 1] == s[i]);
    } else {
        assert(p[i] == s[i]);
        assert forall|k: int| 0 <= k < i implies p[k].coord != p[i].coord by {
            assert(p[k] == s[k]);
        }
        lemma_dedup_keeps_first(p, i);
        let d = dedup_first(p);
        let k = choose|k: int| 0 <= k < d.len() && d[k] == s[i];
        if !has_coord(p, s.last().coord) {
            assert(d.push(s.last())[k] == s[i]);
        }
    }
}

proof fn lemma_dedup_only_first(s: Seq<Point>, k: int)
    requires
        0 <= k < dedup_first(s).len(),
    ensures
        exists|j: int| first_of_coord(s, j) && s[j] == dedup_first(s)[k],
    decreases s.len(),
{
    let p = s.drop_last();
    let d = dedup_first(p);
    if k < d.len() {
        lemma_dedup_only_first(p, k);
        let j = choose|j: int| first_of_coord(p, j) && p[j] == d[k];
        assert(s[j] == p[j]);
        assert forall|m: int| 0 <= m < j implies s[m].coord != s[j].coord by {
            assert(s[m] == p[m]);
        }
        if !has_coord(p, s.last().coord) {
            assert(d.push(s.last())[k] == d[k]);
        }
        assert(first_of_coord(s, j));
    } else {
        let j = s.len() - 1;
        assert(!has_coord(p, s.last().coord));
        assert forall|m: int| 0 <= m < j implies s[m].coord != s[j].coord by {
            assert(s[m] == p[m]);
            if s[m].coord == s[j].coord {
                assert(p[m].coord == s.last().coord);
            }
        }
        assert(first_of_coord(s, j));
    }
}

/// Deduplication keeps, of each coordinate, exactly the point that comes
/// first in list order, so the points kept are as many as the distinct
/// coordinates given.
pub proof fn lemma_dedup_first_wins(s: Seq<Point>)
    ensures
        coords(dedup_first(s)).no_duplicates(),
        dedup_first(s).len() == coords(s).to_set().len(),
        forall|j: int| #[trigger] first_of_coord(s, j) ==> dedup_first(s).contains(s[j]),
        forall|k: int| 0 <= k < dedup_first(s).len() ==> from_first(s, #[trigger] dedup_first(s)[k]),
{
    let d = dedup_first(s);
    lemma_dedup_distinct(s);
    assert forall|j: int| #[trigger] first_of_coord(s, j) implies d.contains(s[j]) by {
        lemma_dedup_keeps_first(s, j);
    }
    assert forall|k: int| 0 <= k < d.len() implies from_first(s, #[trigger] d[k]) by {
        lemma_dedup_only_first(s, k);
    }
    coords(d).unique_seq_to_set();
    assert(coords(d).to_set() =~= coords(s).to_set()) by {
        assert forall|c: Coord| coords(d).to_set().contains(c) <==> coords(s).to_set().contains(c) by {
            lemma_dedup_has_coord(s, c);
            if coords(d).to_set().contains(c) {
                let k = choose|k: int| 0 <= k < coords(d).len() && coords(d)[k] == c;
                assert(d[k].coord == c);
                let j = choose|j: int| 0 <= j < s.len() && s[j].coord == c;
                assert(coords(s)[j] == c);
            }
            if coords(s).to_set().contains(c) {
                let j = choose|j: int| 0 <= j < coords(s).len() && coords(s)[j] == c;
                assert(s[j].coord == c);
                let k = choose|k: int| 0 <= k < d.len() && d[k].coord == c;
                assert(coords(d)[k] == c);
            }
        }
    }
}

/// After a registration that the checks let through, every block of the
/// requested range is represented by exactly one kept point with its
/// coordinate; that point carries the label of the first block in the range
/// with this coordinate, which is the block itself when none before it has
/// the same coordinate.
pub proof fn lemma_registered_point_kept(rows: Seq<Vec<i32>>, offset: i32, start: i32, count: i32, i: int)
    requires
        offset >= 0,
        0 <= start < rows.len() <= i32::MAX,
        count >= 1,
        blocks_hold(rows, offset as int, start as int, taken(rows.len() as int, start as int, count as int)),
        start <= i < start + taken(rows.len() as int, start as int, count as int),
    ensures
        prepared(rows, offset, start, count) is Ok,
        ({
            let kept = prepared(rows, offset, start, count)->Ok_0;
            let c = coord_at(rows[i]@, offset as int);
            &&& exists|k: int| 0 <= k < kept.len() && kept[k].coord == c
            &&& forall|a: int, b: int| 0 <= a < kept.len() && 0 <= b < kept.len() && kept[a].coord == c && kept[b].coord == c ==> a == b
            &&& forall|k: int| 0 <= k < kept.len() && kept[k].coord == c ==>
                    start <= kept[k].idx <= i
                    && coord_at(rows[kept[k].idx as int]@, offset as int) == c
                    && forall|m: int| start <= m < kept[k].idx ==> coord_at(rows[m]@, offset as int) != c
        }),
{
    let n = taken(rows.len() as int, start as int, count as int);
    let s = source_points(rows, offset as int, start as int, n);
    let kept = dedup_first(s);
    let c = coord_at(rows[i]@, offset as int);
    lemma_dedup_first_wins(s);
    let li = i - start;
    assert(s[li].coord == c);
    lemma_dedup_has_coord(s, c);
    assert(has_coord(s, c));
    assert(prepared(rows, offset, start, count) == Ok::<Seq<Point>, RegisterError>(kept));
    assert(has_coord(kept, c));
    assert forall|a: int, b: int| 0 <= a < kept.len() && 0 <= b < kept.len() && kept[a].coord == c && kept[b].coord == c implies a == b by {
        if a != b {
            assert(coords(kept)[a] == coords(kept)[b]);
        }
    }
    assert forall|k: int| 0 <= k < kept.len() && kept[k].coord == c implies
        start <= kept[k].idx <= i
        && coord_at(rows[kept[k].idx as int]@, offset as int) == c
        && forall|m: int| start <= m < kept[k].idx ==> coord_at(rows[m]@, offset as int) != c by {
        assert(from_first(s, kept[k]));
        let j = choose|j: int| first_of_coord(s, j) && s[j] == kept[k];
        assert(0 <= j < n);
        assert(s[j].idx as int == start + j);
        assert(s[j].coord == coord_at(rows[start + j]@, offset as int));
        if j > li {
            assert(s[li].coord != s[j].coord);
        }
        assert(kept[k].idx as int == start + j);
        assert(start <= kept[k].idx <= i);
        assert(coord_at(rows[kept[k].idx as int]@, offset as int) == c);
        assert forall|m: int| start <= m < kept[k].idx implies coord_at(rows[m]@, offset as int) != c by {
            assert(s[m - start].coord != s[j].coord);
        }
    }
    assert(prepared(rows, offset, start, count)->Ok_0 == kept);
    assert(exists|k: int| 0 <= k < kept.len() && kept[k].coord == c);
}

} // verus!
