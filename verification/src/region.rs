//! The tiles that a run asks for: the cells of all areas of interest that
//! lie within the grid, each once, in the order in which the areas name
//! them.

use vstd::arithmetic::div_mod::lemma_fundamental_div_mod_converse;
use vstd::prelude::*;

use crate::area::{lemma_cell_in_square, CorePoint};
use crate::config::Config;
use crate::distinct::{
    first_occurrences, lemma_first_occurrences_distinct, lemma_first_occurrences_renamed,
    lemma_first_occurrences_same_items, unique,
};
use crate::global_constants::{MAX_POINT_DIM, MIN_POINT_DIM};
use crate::point::{in_grid, Point};

verus! {

/// The first `count` cells of `area` that name a tile of the grid, in their
/// order, as points.
pub open spec fn area_tiles_among(area: CorePoint, count: nat) -> Seq<Point> {
    Seq::new(count, |k: int| area.cell(k)).filter(|c: (int, int)| in_grid(c.0, c.1)).map_values(
        |c: (int, int)| Point(c.0 as i16, c.1 as i16),
    )
}

/// The cells of `area` that name a tile of the grid, in their order.
pub open spec fn area_tiles(area: CorePoint) -> Seq<Point> {
    area_tiles_among(area, area.size())
}

/// The tiles of one area after the other, in the order of `areas`. A tile
/// that several areas cover, or one area twice, stands here each time.
pub open spec fn candidate_tiles(areas: Seq<CorePoint>) -> Seq<Point>
    decreases areas.len(),
{
    if areas.len() == 0 {
        Seq::empty()
    } else {
        candidate_tiles(areas.drop_last()) + area_tiles(areas.last())
    }
}

/// The tiles that a run with the given areas of interest asks for: every
/// candidate where it first occurs.
pub open spec fn selected_tiles(areas: Seq<CorePoint>) -> Seq<Point> {
    first_occurrences(candidate_tiles(areas))
}

/// Whether `p` is a cell of `area`.
pub open spec fn covers(area: CorePoint, p: Point) -> bool {
    &&& area.center.0 - area.radius <= p.0 < area.center.0 - area.radius + area.side()
    &&& area.center.1 - area.radius <= p.1 < area.center.1 - area.radius + area.side()
}

/// A point as one number: different points have different numbers.
pub open spec fn key_of(p: Point) -> u32 {
    ((p.0 + 32768) * 65536 + (p.1 + 32768)) as u32
}

/// The point that has the number `key`.
pub open spec fn point_of_key(key: u32) -> Point {
    Point((key / 65536 - 32768) as i16, (key % 65536 - 32768) as i16)
}

/// A point is found again from its number.
pub proof fn lemma_point_of_key(p: Point)
    ensures
        point_of_key(key_of(p)) == p,
        key_of(p) == (p.0 + 32768) * 65536 + (p.1 + 32768),
{
    let high = p.0 + 32768;
    let low = p.1 + 32768;
    assert(0 <= high * 65536 + low < 0x1_0000_0000) by (nonlinear_arith)
        requires
            0 <= high < 65536,
            0 <= low < 65536,
    ;
    assert(high * 65536 + low == 65536 * high + low) by (nonlinear_arith);
    lemma_fundamental_div_mod_converse(high * 65536 + low, 65536, high, low);
}

/// Collects the tiles to fetch: the cells of each area of interest that lie
/// in the grid, area by area and within an area row by row, each tile only
/// where it first occurs.
///
/// No tile of the result lies outside the grid, and none occurs twice.
pub fn filter_points(config: &Config) -> (tiles: Vec<Point>)
    ensures
        tiles@ == selected_tiles(config.core_points@),
        tiles@.no_duplicates(),
        forall|i: int| 0 <= i < tiles@.len() ==> (#[trigger] tiles@[i]).is_tile(),
{
    let ghost areas = config.core_points@;
    let mut keys: Vec<u32> = Vec::new();
    let mut a: usize = 0;
    proof {
        assert(areas.take(0) =~= Seq::<CorePoint>::empty());
        assert(keys@ =~= candidate_tiles(areas.take(0)).map_values(|p: Point| key_of(p)));
    }
    while a < config.core_points.len()
        invariant
            areas == config.core_points@,
            a <= areas.len(),
            keys@ == candidate_tiles(areas.take(a as int)).map_values(|p: Point| key_of(p)),
        decreases areas.len() - a,
    {
        let area: CorePoint = config.core_points[a];
        let side: u32 = area.side_dimension() as u32;
        let corner_x: i32 = area.center.0 as i32 - area.radius as i32;
        let corner_y: i32 = area.center.1 as i32 - area.radius as i32;
        assert(side * side <= 255 * 255) by (nonlinear_arith)
            requires
                side <= 255,
        ;
        let size: u32 = side * side;
        let ghost before = candidate_tiles(areas.take(a as int));
        let mut k: u32 = 0;
        proof {
            lemma_area_tiles_start(area);
            assert(before + area_tiles_among(area, 0) =~= before);
        }
        while k < size
            invariant
                side == area.side(),
                0 < side <= 255,
                size == area.size(),
                corner_x == area.center.0 - area.radius,
                corner_y == area.center.1 - area.radius,
                k <= size,
                keys@ == (before + area_tiles_among(area, k as nat)).map_values(
                    |p: Point| key_of(p),
                ),
            decreases size - k,
        {
            proof {
                lemma_cell_in_square(area, k as int);
                lemma_area_tiles_step(area, k as nat);
            }
            let x: i32 = corner_x + (k % side) as i32;
            let y: i32 = corner_y + (k / side) as i32;
            if x >= MIN_POINT_DIM as i32 && y >= MIN_POINT_DIM as i32 && x < MAX_POINT_DIM as i32
                && y < MAX_POINT_DIM as i32 {
                let tile = Point(x as i16, y as i16);
                let ghost so_far = before + area_tiles_among(area, k as nat);
                keys.push(encode(tile));
                proof {
                    assert(before + area_tiles_among(area, k as nat).push(tile) =~= so_far.push(
                        tile,
                    ));
                    assert(so_far.push(tile).map_values(|p: Point| key_of(p))
                        =~= so_far.map_values(|p: Point| key_of(p)).push(key_of(tile)));
                }
            }
            k = k + 1;
        }
        proof {
            let longer = areas.take(a + 1);
            assert(longer.drop_last() =~= areas.take(a as int));
            assert(longer.last() == area);
        }
        a = a + 1;
    }
    proof {
        assert(areas.take(a as int) =~= areas);
    }
    let kept: Vec<u32> = unique(&keys);
    let ghost candidates = candidate_tiles(areas);
    proof {
        assert forall|p: Point, q: Point| #[trigger] key_of(p) == #[trigger] key_of(q) implies p
            == q by {
            lemma_point_of_key(p);
            lemma_point_of_key(q);
        }
        lemma_first_occurrences_renamed(candidates, |p: Point| key_of(p));
        lemma_first_occurrences_distinct(candidates);
        lemma_first_occurrences_same_items(candidates);
        lemma_candidates_are_tiles(areas);
    }
    let mut tiles: Vec<Point> = Vec::with_capacity(kept.len());
    let mut i: usize = 0;
    while i < kept.len()
        invariant
            i <= kept@.len(),
            kept@ == selected_tiles(areas).map_values(|p: Point| key_of(p)),
            tiles@ == selected_tiles(areas).take(i as int),
        decreases kept@.len() - i,
    {
        proof {
            lemma_point_of_key(selected_tiles(areas)[i as int]);
            assert(selected_tiles(areas).take(i + 1) =~= selected_tiles(areas).take(i as int).push(
                selected_tiles(areas)[i as int],
            ));
        }
        tiles.push(decode(kept[i]));
        i = i + 1;
    }
    proof {
        assert(selected_tiles(areas).take(i as int) =~= selected_tiles(areas));
        assert forall|j: int| 0 <= j < tiles@.len() implies (#[trigger] tiles@[j]).is_tile() by {
            assert(selected_tiles(areas).contains(tiles@[j]));
            assert(candidates.contains(tiles@[j]));
        }
    }
    tiles
}

/// Turns a point into its number.
fn encode(p: Point) -> (key: u32)
    ensures
        key == key_of(p),
{
    proof {
        lemma_point_of_key(p);
    }
    let high: u32 = (p.0 as i32 + 32768) as u32;
    let low: u32 = (p.1 as i32 + 32768) as u32;
    high * 65536 + low
}

/// Turns a number back into its point.
fn decode(key: u32) -> (p: Point)
    ensures
        p == point_of_key(key),
{
    let high: i32 = (key / 65536) as i32 - 32768;
    let low: i32 = (key % 65536) as i32 - 32768;
    Point(high as i16, low as i16)
}

proof fn lemma_area_tiles_start(area: CorePoint)
    ensures
        area_tiles_among(area, 0) == Seq::<Point>::empty(),
        area.size() == area.side() * area.side(),
{
    reveal(Seq::filter);
    let cells = Seq::new(0, |k: int| area.cell(k));
    assert(cells.filter(|c: (int, int)| in_grid(c.0, c.1)) =~= Seq::<(int, int)>::empty());
    assert(area_tiles_among(area, 0) =~= Seq::<Point>::empty());
    assert(area.side() * area.side() >= 0) by (nonlinear_arith);
}

/// The tiles among one cell more: the cell is added if it names a tile.
proof fn lemma_area_tiles_step(area: CorePoint, count: nat)
    ensures
        area_tiles_among(area, count + 1) == if in_grid(area.cell(count as int).0, area.cell(count as int).1) {
            area_tiles_among(area, count).push(
                Point(area.cell(count as int).0 as i16, area.cell(count as int).1 as i16),
            )
        } else {
            area_tiles_among(area, count)
        },
{
    reveal(Seq::filter);
    let wanted = |c: (int, int)| in_grid(c.0, c.1);
    let as_point = |c: (int, int)| Point(c.0 as i16, c.1 as i16);
    let shorter = Seq::new(count, |k: int| area.cell(k));
    let longer = Seq::new(count + 1, |k: int| area.cell(k));
    assert(longer.drop_last() =~= shorter);
    assert(longer.last() == area.cell(count as int));
    if wanted(longer.last()) {
        assert(longer.filter(wanted) == shorter.filter(wanted).push(longer.last()));
        assert(shorter.filter(wanted).push(longer.last()).map_values(as_point)
            =~= shorter.filter(wanted).map_values(as_point).push(as_point(longer.last())));
    } else {
        assert(longer.filter(wanted) == shorter.filter(wanted));
    }
}

/// A point is among the first `count` tiles of an area exactly if it names
/// a tile of the grid and is one of the area's first `count` cells.
proof fn lemma_area_tiles_among_members(area: CorePoint, count: nat, p: Point)
    ensures
        area_tiles_among(area, count).contains(p) <==> p.is_tile() && exists|k: int|
            0 <= k < count && area.cell(k) == (p.0 as int, p.1 as int),
    decreases count,
{
    if count == 0 {
        lemma_area_tiles_start(area);
    } else {
        let fewer = (count - 1) as nat;
        lemma_area_tiles_among_members(area, fewer, p);
        lemma_area_tiles_step(area, fewer);
        let shorter = area_tiles_among(area, fewer);
        let cell = area.cell(fewer as int);
        let longer = area_tiles_among(area, count);
        if longer.contains(p) {
            let i = choose|i: int| 0 <= i < longer.len() && longer[i] == p;
            if i < shorter.len() {
                assert(shorter[i] == p);
                let k = choose|k: int| 0 <= k < fewer && area.cell(k) == (p.0 as int, p.1 as int);
                assert(0 <= k < count && area.cell(k) == (p.0 as int, p.1 as int));
            } else {
                assert(area.cell(fewer as int) == (p.0 as int, p.1 as int));
            }
        }
        if p.is_tile() && exists|k: int|
            0 <= k < count && area.cell(k) == (p.0 as int, p.1 as int) {
            let k = choose|k: int| 0 <= k < count && area.cell(k) == (p.0 as int, p.1 as int);
            if k < fewer {
                assert(shorter.contains(p));
                let i = choose|i: int| 0 <= i < shorter.len() && shorter[i] == p;
                assert(longer[i] == p);
            } else {
                assert(longer[shorter.len() as int] == p);
            }
        }
    }
}

/// The tiles of an area are the tiles of the grid that the area covers.
pub proof fn lemma_area_tiles_members(area: CorePoint, p: Point)
    ensures
        area_tiles(area).contains(p) <==> p.is_tile() && covers(area, p),
{
    lemma_area_tiles_among_members(area, area.size(), p);
    let side = area.side();
    assert(side * side >= 0) by (nonlinear_arith);
    if exists|k: int| 0 <= k < area.size() && area.cell(k) == (p.0 as int, p.1 as int) {
        let k = choose|k: int| 0 <= k < area.size() && area.cell(k) == (p.0 as int, p.1 as int);
        lemma_cell_in_square(area, k);
    }
    if covers(area, p) {
        let column = p.0 - (area.center.0 - area.radius);
        let row = p.1 - (area.center.1 - area.radius);
        let k = row * side + column;
        assert(0 <= k < side * side) by (nonlinear_arith)
            requires
                k == row * side + column,
                0 <= column < side,
                0 <= row < side,
        ;
        assert(k == side * row + column) by (nonlinear_arith)
            requires
                k == row * side + column,
        ;
        lemma_fundamental_div_mod_converse(k, side, row, column);
        assert(area.cell(k) == (p.0 as int, p.1 as int));
    }
}

/// A point is a candidate exactly if it names a tile of the grid and one
/// of the areas covers it.
pub proof fn lemma_candidates_members(areas: Seq<CorePoint>, p: Point)
    ensures
        candidate_tiles(areas).contains(p) <==> p.is_tile() && exists|i: int|
            0 <= i < areas.len() && covers(#[trigger] areas[i], p),
    decreases areas.len(),
{
    if areas.len() > 0 {
        let front = areas.drop_last();
        let last = areas.last();
        lemma_candidates_members(front, p);
        lemma_area_tiles_members(last, p);
        let earlier = candidate_tiles(front);
        let added = area_tiles(last);
        let all = candidate_tiles(areas);
        if all.contains(p) {
            let j = choose|j: int| 0 <= j < all.len() && all[j] == p;
            if j < earlier.len() {
                assert(earlier[j] == p);
                let i = choose|i: int| 0 <= i < front.len() && covers(#[trigger] front[i], p);
                assert(covers(areas[i], p));
            } else {
                assert(added[j - earlier.len()] == p);
                assert(covers(areas[areas.len() - 1], p));
            }
        }
        if p.is_tile() && exists|i: int| 0 <= i < areas.len() && covers(#[trigger] areas[i], p) {
            let i = choose|i: int| 0 <= i < areas.len() && covers(#[trigger] areas[i], p);
            if i < front.len() {
                assert(covers(front[i], p));
                let j = choose|j: int| 0 <= j < earlier.len() && earlier[j] == p;
                assert(all[j] == p);
            } else {
                let j = choose|j: int| 0 <= j < added.len() && added[j] == p;
                assert(all[earlier.len() + j] == p);
            }
        }
    }
}

proof fn lemma_candidates_are_tiles(areas: Seq<CorePoint>)
    ensures
        forall|p: Point| #[trigger] candidate_tiles(areas).contains(p) ==> p.is_tile(),
{
    assert forall|p: Point| #[trigger] candidate_tiles(areas).contains(p) implies p.is_tile() by {
        lemma_candidates_members(areas, p);
    }
}

/// The tiles that a run asks for are the tiles of the grid that some area
/// of interest covers: the union of the areas, cut to the grid. None is
/// asked for twice, however many areas cover it.
pub proof fn lemma_selected_is_union(areas: Seq<CorePoint>, p: Point)
    ensures
        selected_tiles(areas).contains(p) <==> p.is_tile() && exists|i: int|
            0 <= i < areas.len() && covers(#[trigger] areas[i], p),
        selected_tiles(areas).no_duplicates(),
{
    lemma_first_occurrences_same_items(candidate_tiles(areas));
    lemma_first_occurrences_distinct(candidate_tiles(areas));
    lemma_candidates_members(areas, p);
}

/// Where an area fits the coordinates that a point holds, its tiles are
/// the points of the walk through it that lie in the grid.
pub proof fn lemma_area_tiles_of_walk(area: CorePoint)
    requires
        area.fits(),
    ensures
        area_tiles(area) == area.area().filter(|p: Point| p.is_tile()),
{
    lemma_area_tiles_of_walk_among(area, area.size());
    assert(Seq::new(area.size(), |k: int| area.point(k)) =~= area.area());
}

proof fn lemma_area_tiles_of_walk_among(area: CorePoint, count: nat)
    requires
        area.fits(),
        count <= area.size(),
    ensures
        area_tiles_among(area, count) == Seq::new(count, |k: int| area.point(k)).filter(
            |p: Point| p.is_tile(),
        ),
    decreases count,
{
    reveal(Seq::filter);
    let wanted = |p: Point| p.is_tile();
    let walk = Seq::new(count, |k: int| area.point(k));
    if count == 0 {
        lemma_area_tiles_start(area);
        assert(walk.filter(wanted) =~= Seq::<Point>::empty());
    } else {
        let fewer = (count - 1) as nat;
        lemma_area_tiles_of_walk_among(area, fewer);
        lemma_area_tiles_step(area, fewer);
        lemma_cell_in_square(area, fewer as int);
        assert(walk.drop_last() =~= Seq::new(fewer, |k: int| area.point(k)));
        assert(walk.last() == area.point(fewer as int));
    }
}

} // verus!
