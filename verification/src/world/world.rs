use vstd::prelude::*;

verus! {

broadcast use vstd::seq_lib::group_seq_properties;

/// The default number of chunks kept around the player in each direction.
pub const DEFAULT_RENDER_DISTANCE: usize = 1;

/// Render distances from this one up are refused.
pub const MAX_RENDER_DISTANCE: usize = 10;

/// Whether chunk position `p` lies within `r` chunks of `c` in both directions.
pub open spec fn in_square(p: (int, int), c: (int, int), r: int) -> bool {
    &&& c.0 - r <= p.0 <= c.0 + r
    &&& c.1 - r <= p.1 <= c.1 + r
}

/// Row `j` (from the bottom) of the square of radius `r` around `c`, from
/// left to right.
pub open spec fn square_row(c: (int, int), r: int, j: int) -> Seq<(int, int)> {
    Seq::new((2 * r + 1) as nat, |i: int| (c.0 - r + i, c.1 - r + j))
}

/// Whether position `p` is in the square of radius `r` around `old`, next to
/// one (diagonally) that is not.
pub open spec fn on_frontier(p: (int, int), old: (int, int), r: int) -> bool {
    &&& in_square(p, old, r)
    &&& (!in_square((p.0 - 1, p.1 - 1), old, r) || !in_square((p.0 - 1, p.1 + 1), old, r)
        || !in_square((p.0 + 1, p.1 - 1), old, r) || !in_square((p.0 + 1, p.1 + 1), old, r))
}

/// Of row `j` of the square around `new`, the chunks to make: those not in
/// the square around `old`.
pub open spec fn created_in_row(old: (int, int), new: (int, int), r: int, j: int) -> Seq<(int, int)> {
    square_row(new, r, j).filter(|p: (int, int)| !in_square(p, old, r))
}

/// Of row `j` of the square around `old`, the chunks to drop: those not in
/// the square around `new`.
pub open spec fn removed_in_row(old: (int, int), new: (int, int), r: int, j: int) -> Seq<(int, int)> {
    square_row(old, r, j).filter(|p: (int, int)| !in_square(p, new, r))
}

/// Of row `j` of the square around `new`, the chunk to mesh again: the first
/// (from the left) that was in the square around `old` and has a diagonal
/// neighbour outside it, if any.
pub open spec fn remeshed_in_row(old: (int, int), new: (int, int), r: int, j: int) -> Seq<(int, int)> {
    let f = square_row(new, r, j).filter(|p: (int, int)| on_frontier(p, old, r));
    if f.len() > 0 {
        seq![f[0]]
    } else {
        Seq::empty()
    }
}

/// The rows `0..n` of `row`, one after another.
pub open spec fn rows(n: int, row: spec_fn(int) -> Seq<(int, int)>) -> Seq<(int, int)> {
    Seq::new(n as nat, |j: int| row(j)).flatten()
}

/// A list of chunk positions, as pairs of integers.
pub open spec fn positions(v: Seq<(i32, i32)>) -> Seq<(int, int)> {
    v.map_values(|p: (i32, i32)| (p.0 as int, p.1 as int))
}

/// What moving the player from one chunk to another asks of the world: the
/// chunks to make, the chunks to drop and the chunks to mesh again.
pub struct ChunkTranslation {
    pub Create: Vec<(i32, i32)>,
    pub Remove: Vec<(i32, i32)>,
    pub Remesh: Vec<(i32, i32)>,
}


proof fn lemma_rows_step(n: int, row: spec_fn(int) -> Seq<(int, int)>)
    requires
        0 <= n,
    ensures
        rows(n + 1, row) == rows(n, row) + row(n),
{
    assert(Seq::new((n + 1) as nat, |j: int| row(j)) =~= Seq::new(n as nat, |j: int| row(j)).push(row(n)));
    Seq::new(n as nat, |j: int| row(j)).lemma_flatten_push(row(n));
}

proof fn lemma_filter_take_step(s: Seq<(int, int)>, p: spec_fn((int, int)) -> bool, i: int)
    requires
        0 <= i < s.len(),
    ensures
        s.take(i + 1).filter(p) == if p(s[i]) {
            s.take(i).filter(p).push(s[i])
        } else {
            s.take(i).filter(p)
        },
{
    reveal(Seq::filter);
    assert(s.take(i + 1).drop_last() =~= s.take(i));
}

proof fn lemma_filter_none(s: Seq<(int, int)>, p: spec_fn((int, int)) -> bool)
    requires
        forall|k: int| 0 <= k < s.len() ==> !p(#[trigger] s[k]),
    ensures
        s.filter(p).len() == 0,
    decreases s.len(),
{
    reveal(Seq::filter);
    if s.len() > 0 {
        lemma_filter_none(s.drop_last(), p);
    }
}

proof fn lemma_filter_first(s: Seq<(int, int)>, p: spec_fn((int, int)) -> bool, i: int)
    requires
        0 <= i < s.len(),
        p(s[i]),
        forall|k: int| 0 <= k < i ==> !p(#[trigger] s[k]),
    ensures
        s.filter(p).len() > 0,
        s.filter(p)[0] == s[i],
{
    lemma_filter_none(s.take(i), p);
    lemma_filter_take_step(s, p, i);
    assert(s =~= s.take(i + 1) + s.skip(i + 1));
    Seq::filter_distributes_over_add(s.take(i + 1), s.skip(i + 1), p);
    assert(s.take(i + 1).filter(p) =~= seq![s[i]]);
}

/// Whether chunk position `p` lies within `radius` chunks of `center`.
fn InRadius(p: (i32, i32), center: (i32, i32), radius: i32) -> (r: bool)
    requires
        0 <= radius,
        i32::MIN <= center.0 - radius,
        center.0 + radius <= i32::MAX,
        i32::MIN <= center.1 - radius,
        center.1 + radius <= i32::MAX,
    ensures
        r == in_square((p.0 as int, p.1 as int), (center.0 as int, center.1 as int), radius as int),
{
    p.0 >= center.0 - radius && p.0 <= center.0 + radius && p.1 >= center.1 - radius && p.1 <= center.1 + radius
}

/// The chunks to make, drop and mesh again when the player moves from chunk
/// `oldPos` to chunk `newPos`, with `radius` chunks kept around the player:
/// row by row from the bottom, and from left to right in a row, the chunks
/// of the new square that are not in the old one, and the chunks of the old
/// square that are not in the new one; then, for each row of the new square,
/// the first chunk (if any) that was in the old square and has a diagonal
/// neighbour outside it.
pub fn TranslateChunks(oldPos: (i32, i32), newPos: (i32, i32), radius: i32) -> (r: ChunkTranslation)
    requires
        0 <= radius,
        i32::MIN < oldPos.0 - radius - 1,
        oldPos.0 + radius + 1 < i32::MAX,
        i32::MIN < oldPos.1 - radius - 1,
        oldPos.1 + radius + 1 < i32::MAX,
        i32::MIN < newPos.0 - radius - 1,
        newPos.0 + radius + 1 < i32::MAX,
        i32::MIN < newPos.1 - radius - 1,
        newPos.1 + radius + 1 < i32::MAX,
    ensures
        positions(r.Create@) == rows(2 * radius + 1, |j: int| created_in_row(
            (oldPos.0 as int, oldPos.1 as int), (newPos.0 as int, newPos.1 as int), radius as int, j)),
        positions(r.Remove@) == rows(2 * radius + 1, |j: int| removed_in_row(
            (oldPos.0 as int, oldPos.1 as int), (newPos.0 as int, newPos.1 as int), radius as int, j)),
        positions(r.Remesh@) == rows(2 * radius + 1, |j: int| remeshed_in_row(
            (oldPos.0 as int, oldPos.1 as int), (newPos.0 as int, newPos.1 as int), radius as int, j)),
{
    let ghost old = (oldPos.0 as int, oldPos.1 as int);
    let ghost new = (newPos.0 as int, newPos.1 as int);
    let ghost rr = radius as int;
    let ghost createRow = |j: int| created_in_row(old, new, rr, j);
    let ghost removeRow = |j: int| removed_in_row(old, new, rr, j);
    let ghost remeshRow = |j: int| remeshed_in_row(old, new, rr, j);
    let ghost notOld = |p: (int, int)| !in_square(p, old, rr);
    let ghost notNew = |p: (int, int)| !in_square(p, new, rr);
    let ghost frontier = |p: (int, int)| on_frontier(p, old, rr);
    let mut create: Vec<(i32, i32)> = Vec::new();
    let mut remove: Vec<(i32, i32)> = Vec::new();
    let mut offY: i32 = -radius;
    while offY <= radius
        invariant
            -radius <= offY <= radius + 1,
            0 <= radius,
            i32::MIN < oldPos.0 - radius - 1,
            oldPos.0 + radius + 1 < i32::MAX,
            i32::MIN < oldPos.1 - radius - 1,
            oldPos.1 + radius + 1 < i32::MAX,
            i32::MIN < newPos.0 - radius - 1,
            newPos.0 + radius + 1 < i32::MAX,
            i32::MIN < newPos.1 - radius - 1,
            newPos.1 + radius + 1 < i32::MAX,
            old == (oldPos.0 as int, oldPos.1 as int),
            new == (newPos.0 as int, newPos.1 as int),
            rr == radius as int,
            createRow == (|j: int| created_in_row(old, new, rr, j)),
            removeRow == (|j: int| removed_in_row(old, new, rr, j)),
            notOld == (|p: (int, int)| !in_square(p, old, rr)),
            notNew == (|p: (int, int)| !in_square(p, new, rr)),
            positions(create@) == rows(offY + radius, createRow),
            positions(remove@) == rows(offY + radius, removeRow),
        decreases radius + 1 - offY,
    {
        let ghost j = offY + radius;
        let mut offX: i32 = -radius;
        while offX <= radius
            invariant
                -radius <= offX <= radius + 1,
                -radius <= offY <= radius,
                j == offY + radius,
                0 <= radius,
                i32::MIN < oldPos.0 - radius - 1,
                oldPos.0 + radius + 1 < i32::MAX,
                i32::MIN < oldPos.1 - radius - 1,
                oldPos.1 + radius + 1 < i32::MAX,
                i32::MIN < newPos.0 - radius - 1,
                newPos.0 + radius + 1 < i32::MAX,
                i32::MIN < newPos.1 - radius - 1,
                newPos.1 + radius + 1 < i32::MAX,
                old == (oldPos.0 as int, oldPos.1 as int),
                new == (newPos.0 as int, newPos.1 as int),
                rr == radius as int,
                createRow == (|j: int| created_in_row(old, new, rr, j)),
                removeRow == (|j: int| removed_in_row(old, new, rr, j)),
                notOld == (|p: (int, int)| !in_square(p, old, rr)),
                notNew == (|p: (int, int)| !in_square(p, new, rr)),
                positions(create@) == rows(j, createRow) + square_row(new, rr, j).take(offX + radius).filter(notOld),
                positions(remove@) == rows(j, removeRow) + square_row(old, rr, j).take(offX + radius).filter(notNew),
            decreases radius + 1 - offX,
        {
            let ghost i = offX + radius;
            proof {
                lemma_filter_take_step(square_row(new, rr, j), notOld, i);
                lemma_filter_take_step(square_row(old, rr, j), notNew, i);
            }
            let ghost prevC = positions(create@);
            let ghost prevR = positions(remove@);
            let newPosOff = (newPos.0 + offX, newPos.1 + offY);
            assert(square_row(new, rr, j)[i] == (newPosOff.0 as int, newPosOff.1 as int));
            if !InRadius(newPosOff, oldPos, radius) {
                create.push(newPosOff);
            }
            let oldPosOff = (oldPos.0 + offX, oldPos.1 + offY);
            assert(square_row(old, rr, j)[i] == (oldPosOff.0 as int, oldPosOff.1 as int));
            if !InRadius(oldPosOff, newPos, radius) {
                remove.push(oldPosOff);
            }
            proof {
                let x = square_row(new, rr, j)[i];
                let y = square_row(old, rr, j)[i];
                assert(positions(create@) =~= if notOld(x) { prevC.push(x) } else { prevC });
                assert(positions(remove@) =~= if notNew(y) { prevR.push(y) } else { prevR });
                assert(positions(create@) =~= rows(j, createRow) + square_row(new, rr, j).take(i + 1).filter(notOld));
                assert(positions(remove@) =~= rows(j, removeRow) + square_row(old, rr, j).take(i + 1).filter(notNew));
            }
            offX += 1;
        }
        proof {
            assert(square_row(new, rr, j).take(2 * rr + 1) =~= square_row(new, rr, j));
            assert(square_row(old, rr, j).take(2 * rr + 1) =~= square_row(old, rr, j));
            assert(createRow(j) == square_row(new, rr, j).filter(notOld));
            assert(removeRow(j) == square_row(old, rr, j).filter(notNew));
            lemma_rows_step(j, createRow);
            lemma_rows_step(j, removeRow);
        }
        offY += 1;
    }
    let mut remesh: Vec<(i32, i32)> = Vec::new();
    let mut offY: i32 = -radius;
    while offY <= radius
        invariant
            -radius <= offY <= radius + 1,
            0 <= radius,
            i32::MIN < oldPos.0 - radius - 1,
            oldPos.0 + radius + 1 < i32::MAX,
            i32::MIN < oldPos.1 - radius - 1,
            oldPos.1 + radius + 1 < i32::MAX,
            i32::MIN < newPos.0 - radius - 1,
            newPos.0 + radius + 1 < i32::MAX,
            i32::MIN < newPos.1 - radius - 1,
            newPos.1 + radius + 1 < i32::MAX,
            old == (oldPos.0 as int, oldPos.1 as int),
            new == (newPos.0 as int, newPos.1 as int),
            rr == radius as int,
            remeshRow == (|j: int| remeshed_in_row(old, new, rr, j)),
            frontier == (|p: (int, int)| on_frontier(p, old, rr)),
            positions(remesh@) == rows(offY + radius, remeshRow),
        decreases radius + 1 - offY,
    {
        let ghost j = offY + radius;
        let ghost row = square_row(new, rr, j);
        let ghost before = positions(remesh@);
        let mut offX: i32 = -radius;
        let mut found = false;
        while offX <= radius
            invariant_except_break
                !found,
                positions(remesh@) == before,
            invariant
                -radius <= offX <= radius + 1,
                -radius <= offY <= radius,
                j == offY + radius,
                row == square_row(new, rr, j),
                0 <= radius,
                i32::MIN < oldPos.0 - radius - 1,
                oldPos.0 + radius + 1 < i32::MAX,
                i32::MIN < oldPos.1 - radius - 1,
                oldPos.1 + radius + 1 < i32::MAX,
                i32::MIN < newPos.0 - radius - 1,
                newPos.0 + radius + 1 < i32::MAX,
                i32::MIN < newPos.1 - radius - 1,
                newPos.1 + radius + 1 < i32::MAX,
                old == (oldPos.0 as int, oldPos.1 as int),
                new == (newPos.0 as int, newPos.1 as int),
                rr == radius as int,
                frontier == (|p: (int, int)| on_frontier(p, old, rr)),
                forall|k: int| 0 <= k < offX + radius ==> !on_frontier(#[trigger] row[k], old, rr),
            ensures
                found ==> positions(remesh@) == before + remeshed_in_row(old, new, rr, j),
                !found ==> positions(remesh@) == before && offX == radius + 1,
            decreases radius + 1 - offX,
        {
            let newPosOff = (newPos.0 + offX, newPos.1 + offY);
            let ghost i = offX + radius;
            assert(row[i] == (newPosOff.0 as int, newPosOff.1 as int));
            if InRadius(newPosOff, oldPos, radius) {
                let touchesNew = !InRadius((newPosOff.0 - 1, newPosOff.1 - 1), oldPos, radius)
                    || !InRadius((newPosOff.0 - 1, newPosOff.1 + 1), oldPos, radius)
                    || !InRadius((newPosOff.0 + 1, newPosOff.1 - 1), oldPos, radius)
                    || !InRadius((newPosOff.0 + 1, newPosOff.1 + 1), oldPos, radius);
                if touchesNew {
                    remesh.push(newPosOff);
                    proof {
                        lemma_filter_first(row, frontier, i);
                        assert(positions(remesh@) =~= before + remeshed_in_row(old, new, rr, j));
                    }
                    found = true;
                    break;
                }
            }
            offX += 1;
        }
        proof {
            if !found {
                lemma_filter_none(row, frontier);
                assert(remeshed_in_row(old, new, rr, j) =~= Seq::<(int, int)>::empty());
                assert(positions(remesh@) =~= before + remeshed_in_row(old, new, rr, j));
            }
            lemma_rows_step(j, remeshRow);
        }
        offY += 1;
    }
    ChunkTranslation { Create: create, Remove: remove, Remesh: remesh }
}


/// Column `i` (from the left) of the square of radius `r` around `c`, from
/// the bottom up.
pub open spec fn square_column(c: (int, int), r: int, i: int) -> Seq<(int, int)> {
    Seq::new((2 * r + 1) as nat, |j: int| (c.0 - r + i, c.1 - r + j))
}

/// Whether a render distance change from `e` picks chunk position `p`: any
/// position when `e` is 0, else one whose coordinates both lie outside
/// `-e..=e`.
pub open spec fn picked_on_resize(p: (int, int), e: int) -> bool {
    e == 0 || ((p.0 < -e || p.0 > e) && (p.1 < -e || p.1 > e))
}

/// The chunks to look up for drawing: the square of radius `distance`
/// around `target`, column by column from the left and from the bottom up
/// in a column.
pub fn RenderListUpdate(target: (i32, i32), distance: i32) -> (r: Vec<(i32, i32)>)
    requires
        0 <= distance,
        i32::MIN <= target.0 - distance,
        target.0 + distance <= i32::MAX,
        i32::MIN <= target.1 - distance,
        target.1 + distance <= i32::MAX,
    ensures
        positions(r@) == rows(2 * distance + 1, |i: int| square_column((target.0 as int, target.1 as int), distance as int, i)),
{
    let ghost t = (target.0 as int, target.1 as int);
    let ghost e = distance as int;
    let ghost column = |i: int| square_column(t, e, i);
    let d: i64 = distance as i64;
    let mut list: Vec<(i32, i32)> = Vec::new();
    let mut a: i64 = -d;
    while a <= d
        invariant
            -d <= a <= d + 1,
            d == distance,
            0 <= distance,
            i32::MIN <= target.0 - distance,
            target.0 + distance <= i32::MAX,
            i32::MIN <= target.1 - distance,
            target.1 + distance <= i32::MAX,
            t == (target.0 as int, target.1 as int),
            e == distance as int,
            column == (|i: int| square_column(t, e, i)),
            positions(list@) == rows(a + d, column),
        decreases d + 1 - a,
    {
        let ghost i = a + d;
        let ghost before = positions(list@);
        let mut b: i64 = -d;
        while b <= d
            invariant
                -d <= b <= d + 1,
                -d <= a <= d,
                d == distance,
                i == a + d,
                0 <= distance,
                i32::MIN <= target.0 - distance,
                target.0 + distance <= i32::MAX,
                i32::MIN <= target.1 - distance,
                target.1 + distance <= i32::MAX,
                t == (target.0 as int, target.1 as int),
                e == distance as int,
                positions(list@) == before + square_column(t, e, i).take(b + d),
            decreases d + 1 - b,
        {
            let pos = ((a + target.0 as i64) as i32, (b + target.1 as i64) as i32);
            let ghost x = square_column(t, e, i)[b + d];
            assert(x == (pos.0 as int, pos.1 as int));
            let ghost prev = positions(list@);
            list.push(pos);
            assert(positions(list@) =~= prev.push(x));
            assert(square_column(t, e, i).take(b + d + 1) =~= square_column(t, e, i).take(b + d).push(x));
            assert(positions(list@) =~= before + square_column(t, e, i).take(b + d + 1));
            b += 1;
        }
        proof {
            assert(square_column(t, e, i).take(2 * e + 1) =~= square_column(t, e, i));
            lemma_rows_step(i, column);
        }
        a += 1;
    }
    list
}

/// The chunks to make when the render distance goes from `current` to
/// `requested`, or `None` when it stays (a request of
/// `MAX_RENDER_DISTANCE` or more is refused): over the square of radius
/// `current` around `target`, column by column from the left and from the
/// bottom up, the positions picked by `picked_on_resize`. A smaller distance
/// is left out: the world's count of chunks to make underflows there.
pub fn RenderDistanceUpdate(current: usize, requested: usize, target: (i32, i32)) -> (r: Option<Vec<(i32, i32)>>)
    requires
        requested < MAX_RENDER_DISTANCE && requested != current ==> {
            &&& requested > current
            &&& i32::MIN + 10 <= target.0 <= i32::MAX - 10
            &&& i32::MIN + 10 <= target.1 <= i32::MAX - 10
        },
    ensures
        match r {
            None => requested >= MAX_RENDER_DISTANCE || requested == current,
            Some(list) => {
                &&& requested < MAX_RENDER_DISTANCE
                &&& requested != current
                &&& positions(list@) == rows(2 * current + 1, |i: int| square_column(
                    (target.0 as int, target.1 as int), current as int, i).filter(|p: (int, int)| picked_on_resize(p, current as int)))
                &&& current > 0 ==> forall|k: int| 0 <= k < list@.len() ==> {
                    &&& in_square(
                        (#[trigger] list@[k].0 as int, list@[k].1 as int),
                        (target.0 as int, target.1 as int),
                        current as int,
                    )
                    &&& (list@[k].0 < -(current as int) || list@[k].0 > current)
                    &&& (list@[k].1 < -(current as int) || list@[k].1 > current)
                }
            },
        },
{
    if requested >= MAX_RENDER_DISTANCE {
        return None;
    } else if requested == current {
        return None;
    }
    let extents: i32 = current as i32;
    let ghost t = (target.0 as int, target.1 as int);
    let ghost e = current as int;
    let ghost picked = |p: (int, int)| picked_on_resize(p, e);
    let ghost column = |i: int| square_column(t, e, i).filter(picked);
    let mut newChunks: Vec<(i32, i32)> = Vec::new();
    let mut a: i32 = -extents;
    while a <= extents
        invariant
            -extents <= a <= extents + 1,
            0 <= extents < 10,
            i32::MIN + 10 <= target.0 <= i32::MAX - 10,
            i32::MIN + 10 <= target.1 <= i32::MAX - 10,
            t == (target.0 as int, target.1 as int),
            e == extents as int,
            picked == (|p: (int, int)| picked_on_resize(p, e)),
            column == (|i: int| square_column(t, e, i).filter(picked)),
            positions(newChunks@) == rows(a + extents, column),
        decreases extents + 1 - a,
    {
        let ghost i = a + extents;
        let ghost before = positions(newChunks@);
        let mut b: i32 = -extents;
        while b <= extents
            invariant
                -extents <= b <= extents + 1,
                -extents <= a <= extents,
                i == a + extents,
                0 <= extents < 10,
                i32::MIN + 10 <= target.0 <= i32::MAX - 10,
                i32::MIN + 10 <= target.1 <= i32::MAX - 10,
                t == (target.0 as int, target.1 as int),
                e == extents as int,
                picked == (|p: (int, int)| picked_on_resize(p, e)),
                positions(newChunks@) == before + square_column(t, e, i).take(b + extents).filter(picked),
            decreases extents + 1 - b,
        {
            let ghost prev = positions(newChunks@);
            proof {
                lemma_filter_take_step(square_column(t, e, i), picked, b + extents);
            }
            let pos = (a + target.0, b + target.1);
            assert(square_column(t, e, i)[b + extents] == (pos.0 as int, pos.1 as int));
            if extents == 0 || (pos.0 < -extents || pos.0 > extents) && (pos.1 < -extents || pos.1 > extents) {
                newChunks.push(pos);
            }
            proof {
                let x = square_column(t, e, i)[b + extents];
                assert(positions(newChunks@) =~= if picked(x) { prev.push(x) } else { prev });
                assert(positions(newChunks@) =~= before + square_column(t, e, i).take(b + extents + 1).filter(picked));
            }
            b += 1;
        }
        proof {
            assert(square_column(t, e, i).take(2 * e + 1) =~= square_column(t, e, i));
            assert(column(i) == square_column(t, e, i).filter(picked));
            lemma_rows_step(i, column);
        }
        a += 1;
    }
    proof {
        if e > 0 {
            assert forall|k: int| 0 <= k < newChunks@.len() implies {
                &&& in_square((#[trigger] newChunks@[k].0 as int, newChunks@[k].1 as int), t, e)
                &&& (newChunks@[k].0 < -e || newChunks@[k].0 > e)
                &&& (newChunks@[k].1 < -e || newChunks@[k].1 > e)
            } by {
                let q = (newChunks@[k].0 as int, newChunks@[k].1 as int);
                assert(positions(newChunks@)[k] == q);
                assert(rows(2 * e + 1, column).contains(q));
                law_resize_makes_the_outer_corners(t, e, q);
            }
        }
    }
    Some(newChunks)
}


/// Neighbour `a` of chunk position `p`: to the left, right, front and back
/// for `a` = 0, 1, 2, 3.
pub open spec fn neighbour(p: (int, int), a: int) -> (int, int) {
    if a == 0 {
        (p.0 - 1, p.1)
    } else if a == 1 {
        (p.0 + 1, p.1)
    } else if a == 2 {
        (p.0, p.1 - 1)
    } else {
        (p.0, p.1 + 1)
    }
}

/// The last index of `q` in `ps`, if `q` occurs there.
pub open spec fn last_index(ps: Seq<(int, int)>, q: (int, int)) -> Option<int>
    decreases ps.len(),
{
    if ps.len() == 0 {
        None
    } else if ps.last() == q {
        Some(ps.len() - 1)
    } else {
        last_index(ps.drop_last(), q)
    }
}

/// For each chunk of a batch at positions `chunkPositions`, the chunk of the
/// same batch (by index) that is its neighbour on each side (left, right,
/// front, back), if there is one; where several share a position, the last.
pub fn BatchNeighbours(chunkPositions: &Vec<(i32, i32)>) -> (r: Vec<[Option<usize>; 4]>)
    requires
        forall|k: int| 0 <= k < chunkPositions@.len() ==> i32::MIN < (#[trigger] chunkPositions@[k]).0 < i32::MAX
            && i32::MIN < chunkPositions@[k].1 < i32::MAX,
    ensures
        r@.len() == chunkPositions@.len(),
        forall|i: int, a: int| 0 <= i < r@.len() && 0 <= a < 4 ==> match #[trigger] r@[i][a] {
            Some(j) => last_index(positions(chunkPositions@), neighbour(positions(chunkPositions@)[i], a)) == Some(j as int),
            None => last_index(positions(chunkPositions@), neighbour(positions(chunkPositions@)[i], a)) is None,
        },
{
    let ghost ps = positions(chunkPositions@);
    let mut result: Vec<[Option<usize>; 4]> = Vec::new();
    let mut i: usize = 0;
    while i < chunkPositions.len()
        invariant
            i <= chunkPositions@.len(),
            ps == positions(chunkPositions@),
            forall|k: int| 0 <= k < chunkPositions@.len() ==> i32::MIN < (#[trigger] chunkPositions@[k]).0 < i32::MAX
                && i32::MIN < chunkPositions@[k].1 < i32::MAX,
            result@.len() == i,
            forall|k: int, a: int| 0 <= k < i && 0 <= a < 4 ==> match #[trigger] result@[k][a] {
                Some(j) => last_index(ps, neighbour(ps[k], a)) == Some(j as int),
                None => last_index(ps, neighbour(ps[k], a)) is None,
            },
        decreases chunkPositions@.len() - i,
    {
        let pos = chunkPositions[i];
        let near: [(i32, i32); 4] = [(pos.0 - 1, pos.1), (pos.0 + 1, pos.1), (pos.0, pos.1 - 1), (pos.0, pos.1 + 1)];
        assert forall|a: int| 0 <= a < 4 implies (near[a].0 as int, near[a].1 as int) == #[trigger] neighbour(ps[i as int], a) by {}
        let mut adj: [Option<usize>; 4] = [None, None, None, None];
        let mut j: usize = 0;
        while j < chunkPositions.len()
            invariant
                j <= chunkPositions@.len(),
                i < chunkPositions@.len(),
                ps == positions(chunkPositions@),
                forall|a: int| 0 <= a < 4 ==> (near[a].0 as int, near[a].1 as int) == #[trigger] neighbour(ps[i as int], a),
                forall|a: int| 0 <= a < 4 ==> match #[trigger] adj[a] {
                    Some(m) => last_index(ps.take(j as int), neighbour(ps[i as int], a)) == Some(m as int),
                    None => last_index(ps.take(j as int), neighbour(ps[i as int], a)) is None,
                },
            decreases chunkPositions@.len() - j,
        {
            let other = chunkPositions[j];
            proof {
                assert(ps.take(j + 1).drop_last() =~= ps.take(j as int));
                assert(ps.take(j + 1).last() == (other.0 as int, other.1 as int));
            }
            let mut a: usize = 0;
            while a < 4
                invariant
                    a <= 4,
                    j < chunkPositions@.len(),
                    i < chunkPositions@.len(),
                    ps == positions(chunkPositions@),
                    other == chunkPositions@[j as int],
                    ps.take(j + 1).drop_last() == ps.take(j as int),
                    ps.take(j + 1).last() == (other.0 as int, other.1 as int),
                    forall|b: int| 0 <= b < 4 ==> (near[b].0 as int, near[b].1 as int) == #[trigger] neighbour(ps[i as int], b),
                    forall|b: int| 0 <= b < 4 ==> match #[trigger] adj[b] {
                        Some(m) => last_index(ps.take(if b < a { j + 1 } else { j as int }), neighbour(ps[i as int], b)) == Some(m as int),
                        None => last_index(ps.take(if b < a { j + 1 } else { j as int }), neighbour(ps[i as int], b)) is None,
                    },
                decreases 4 - a,
            {
                if other.0 == near[a].0 && other.1 == near[a].1 {
                    adj[a] = Some(j);
                }
                a += 1;
            }
            j += 1;
        }
        assert(ps.take(chunkPositions@.len() as int) =~= ps);
        result.push(adj);
        i += 1;
    }
    result
}


proof fn lemma_rows_empty(n: int, row: spec_fn(int) -> Seq<(int, int)>)
    requires
        0 <= n,
        forall|j: int| 0 <= j < n ==> #[trigger] row(j).len() == 0,
    ensures
        rows(n, row).len() == 0,
    decreases n,
{
    if n > 0 {
        lemma_rows_empty(n - 1, row);
        lemma_rows_step(n - 1, row);
    } else {
        assert(Seq::new(0, |j: int| row(j)) =~= Seq::<Seq<(int, int)>>::empty());
    }
}

/// A player who stays in the same chunk asks for no chunk to be made or
/// dropped.
pub proof fn law_standing_still_moves_no_chunk(p: (int, int), r: int)
    requires
        0 <= r,
    ensures
        rows(2 * r + 1, |j: int| created_in_row(p, p, r, j)).len() == 0,
        rows(2 * r + 1, |j: int| removed_in_row(p, p, r, j)).len() == 0,
{
    assert forall|j: int| 0 <= j < 2 * r + 1 implies #[trigger] created_in_row(p, p, r, j).len() == 0 by {
        lemma_filter_none(square_row(p, r, j), |q: (int, int)| !in_square(q, p, r));
    }
    assert forall|j: int| 0 <= j < 2 * r + 1 implies #[trigger] removed_in_row(p, p, r, j).len() == 0 by {
        lemma_filter_none(square_row(p, r, j), |q: (int, int)| !in_square(q, p, r));
    }
    lemma_rows_empty(2 * r + 1, |j: int| created_in_row(p, p, r, j));
    lemma_rows_empty(2 * r + 1, |j: int| removed_in_row(p, p, r, j));
}


proof fn lemma_rows_contains(n: int, row: spec_fn(int) -> Seq<(int, int)>, q: (int, int))
    requires
        0 <= n,
    ensures
        rows(n, row).contains(q) <==> exists|j: int| 0 <= j < n && #[trigger] row(j).contains(q),
    decreases n,
{
    if n == 0 {
        assert(Seq::new(0, |j: int| row(j)) =~= Seq::<Seq<(int, int)>>::empty());
        assert(rows(0, row) =~= Seq::<(int, int)>::empty());
    } else {
        lemma_rows_contains(n - 1, row, q);
        lemma_rows_step(n - 1, row);
        let a = rows(n - 1, row);
        let b = row(n - 1);
        if (a + b).contains(q) {
            let k = choose|k: int| 0 <= k < (a + b).len() && (a + b)[k] == q;
            if k < a.len() {
                assert(a[k] == q);
                assert(a.contains(q));
            } else {
                assert(b[k - a.len()] == q);
                assert(b.contains(q));
            }
        }
        if exists|j: int| 0 <= j < n && #[trigger] row(j).contains(q) {
            let j = choose|j: int| 0 <= j < n && #[trigger] row(j).contains(q);
            if j < n - 1 {
                let k = choose|k: int| 0 <= k < a.len() && a[k] == q;
                assert((a + b)[k] == q);
            } else {
                let k = choose|k: int| 0 <= k < b.len() && b[k] == q;
                assert((a + b)[a.len() + k] == q);
            }
        }
    }
}

proof fn lemma_square_rows_contain(c: (int, int), r: int, q: (int, int))
    requires
        0 <= r,
    ensures
        in_square(q, c, r) <==> exists|j: int| 0 <= j < 2 * r + 1 && #[trigger] square_row(c, r, j).contains(q),
{
    if in_square(q, c, r) {
        let j = q.1 - c.1 + r;
        let i = q.0 - c.0 + r;
        assert(square_row(c, r, j)[i] == q);
        assert(square_row(c, r, j).contains(q));
    }
    if exists|j: int| 0 <= j < 2 * r + 1 && #[trigger] square_row(c, r, j).contains(q) {
        let j = choose|j: int| 0 <= j < 2 * r + 1 && #[trigger] square_row(c, r, j).contains(q);
        let i = choose|i: int| 0 <= i < square_row(c, r, j).len() && square_row(c, r, j)[i] == q;
        assert(square_row(c, r, j)[i] == q);
    }
}

proof fn lemma_filter_contains_iff(s: Seq<(int, int)>, p: spec_fn((int, int)) -> bool, q: (int, int))
    ensures
        s.filter(p).contains(q) <==> s.contains(q) && p(q),
{
    if s.filter(p).contains(q) {
        s.lemma_filter_contains_rev(p, q);
        let k = choose|k: int| 0 <= k < s.filter(p).len() && s.filter(p)[k] == q;
        s.lemma_filter_pred(p, k);
    }
    if s.contains(q) && p(q) {
        let k = choose|k: int| 0 <= k < s.len() && s[k] == q;
        s.lemma_filter_contains(p, k);
    }
}

/// Moving from chunk `old` to chunk `new` turns the square of chunks around
/// the one into the square around the other: a chunk is made exactly when
/// it lies in the new square and not in the old one, and dropped exactly
/// when it lies in the old square and not in the new one.
pub proof fn law_moving_swaps_the_squares(old: (int, int), new: (int, int), r: int, q: (int, int))
    requires
        0 <= r,
    ensures
        rows(2 * r + 1, |j: int| created_in_row(old, new, r, j)).contains(q)
            <==> (in_square(q, new, r) && !in_square(q, old, r)),
        rows(2 * r + 1, |j: int| removed_in_row(old, new, r, j)).contains(q)
            <==> (in_square(q, old, r) && !in_square(q, new, r)),
{
    let created = |j: int| created_in_row(old, new, r, j);
    let removed = |j: int| removed_in_row(old, new, r, j);
    let notOld = |p: (int, int)| !in_square(p, old, r);
    let notNew = |p: (int, int)| !in_square(p, new, r);
    lemma_rows_contains(2 * r + 1, created, q);
    lemma_rows_contains(2 * r + 1, removed, q);
    lemma_square_rows_contain(new, r, q);
    lemma_square_rows_contain(old, r, q);
    assert forall|j: int| 0 <= j < 2 * r + 1 implies (#[trigger] created(j)).contains(q)
        == (square_row(new, r, j).contains(q) && !in_square(q, old, r)) by {
        lemma_filter_contains_iff(square_row(new, r, j), notOld, q);
    }
    assert forall|j: int| 0 <= j < 2 * r + 1 implies (#[trigger] removed(j)).contains(q)
        == (square_row(old, r, j).contains(q) && !in_square(q, new, r)) by {
        lemma_filter_contains_iff(square_row(old, r, j), notNew, q);
    }
    if in_square(q, new, r) && !in_square(q, old, r) {
        let j = choose|j: int| 0 <= j < 2 * r + 1 && #[trigger] square_row(new, r, j).contains(q);
        assert(created(j).contains(q));
    }
    if in_square(q, old, r) && !in_square(q, new, r) {
        let j = choose|j: int| 0 <= j < 2 * r + 1 && #[trigger] square_row(old, r, j).contains(q);
        assert(removed(j).contains(q));
    }
}

/// The chunks looked up for drawing are exactly the square around the
/// player: a position is among them when, and only when, it lies within the
/// render distance of the target in both directions.
pub proof fn law_render_list_is_the_square(t: (int, int), e: int, q: (int, int))
    requires
        0 <= e,
    ensures
        rows(2 * e + 1, |i: int| square_column(t, e, i)).contains(q) <==> in_square(q, t, e),
{
    let column = |i: int| square_column(t, e, i);
    lemma_rows_contains(2 * e + 1, column, q);
    if in_square(q, t, e) {
        let i = q.0 - t.0 + e;
        let j = q.1 - t.1 + e;
        assert(column(i)[j] == q);
        assert(column(i).contains(q));
    }
    if exists|i: int| 0 <= i < 2 * e + 1 && #[trigger] column(i).contains(q) {
        let i = choose|i: int| 0 <= i < 2 * e + 1 && #[trigger] column(i).contains(q);
        let j = choose|j: int| 0 <= j < column(i).len() && #[trigger] column(i)[j] == q;
        assert(column(i)[j] == q);
    }
}

proof fn lemma_square_columns_contain(c: (int, int), r: int, q: (int, int))
    requires
        0 <= r,
    ensures
        in_square(q, c, r) <==> exists|i: int| 0 <= i < 2 * r + 1 && #[trigger] square_column(c, r, i).contains(q),
{
    if in_square(q, c, r) {
        let i = q.0 - c.0 + r;
        let k = q.1 - c.1 + r;
        assert(square_column(c, r, i)[k] == q);
        assert(square_column(c, r, i).contains(q));
    }
    if exists|i: int| 0 <= i < 2 * r + 1 && #[trigger] square_column(c, r, i).contains(q) {
        let i = choose|i: int| 0 <= i < 2 * r + 1 && #[trigger] square_column(c, r, i).contains(q);
        let k = choose|k: int| 0 <= k < square_column(c, r, i).len() && square_column(c, r, i)[k] == q;
        assert(square_column(c, r, i)[k] == q);
    }
}

/// Growing the render distance from `e` > 0 makes exactly the chunks of
/// the old square of radius `e` around `t` whose coordinates both lie
/// outside `-e..=e`: no chunk whose x or whose y lies inside that range.
pub proof fn law_resize_makes_the_outer_corners(t: (int, int), e: int, q: (int, int))
    requires
        e > 0,
    ensures
        rows(2 * e + 1, |i: int| square_column(t, e, i).filter(|p: (int, int)| picked_on_resize(p, e))).contains(q)
            <==> in_square(q, t, e) && (q.0 < -e || q.0 > e) && (q.1 < -e || q.1 > e),
{
    let picked = |p: (int, int)| picked_on_resize(p, e);
    let column = |i: int| square_column(t, e, i).filter(|p: (int, int)| picked_on_resize(p, e));
    lemma_rows_contains(2 * e + 1, column, q);
    lemma_square_columns_contain(t, e, q);
    assert forall|i: int| 0 <= i < 2 * e + 1 implies #[trigger] column(i).contains(q) == (square_column(t, e, i).contains(q)
        && picked_on_resize(q, e)) by {
        lemma_filter_contains_iff(square_column(t, e, i), picked, q);
        assert(column(i) == square_column(t, e, i).filter(picked));
    }
    if in_square(q, t, e) && picked_on_resize(q, e) {
        let i = choose|i: int| 0 <= i < 2 * e + 1 && #[trigger] square_column(t, e, i).contains(q);
        assert(column(i).contains(q));
    }
    if rows(2 * e + 1, column).contains(q) {
        let i = choose|i: int| 0 <= i < 2 * e + 1 && #[trigger] column(i).contains(q);
        assert(square_column(t, e, i).contains(q));
    }
}

} // verus!
