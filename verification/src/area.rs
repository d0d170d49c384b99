//! Areas of interest: a centre tile and the square of tiles around it.

use vstd::arithmetic::div_mod::{
    lemma_fundamental_div_mod, lemma_fundamental_div_mod_converse, lemma_mod_bound,
};
use vstd::prelude::*;

use crate::point::Point;

verus! {

/// An area of interest: the square of cells that reaches `radius` cells
/// from `center` in each direction.
#[derive(Clone, Copy, Debug)]
pub struct CorePoint {
    pub center: Point,
    pub radius: u8,
}

impl CorePoint {
    /// The number of cells along one side of the area: `2 * radius + 1`
    /// where a `u8` can hold that, and 255 where it cannot.
    pub open spec fn side(self) -> int {
        if self.radius <= 127 {
            2 * self.radius + 1
        } else {
            255
        }
    }

    /// The number of cells of the area.
    pub open spec fn size(self) -> nat {
        (self.side() * self.side()) as nat
    }

    /// The `k`-th cell of the area. Cells are counted row by row from the
    /// corner `(center.0 - radius, center.1 - radius)`, along the first
    /// coordinate within a row.
    pub open spec fn cell(self, k: int) -> (int, int) {
        (
            self.center.0 - self.radius + k % self.side(),
            self.center.1 - self.radius + k / self.side(),
        )
    }

    /// Whether every cell of the area has coordinates that a `Point` holds.
    pub open spec fn fits(self) -> bool {
        &&& i16::MIN <= self.center.0 - self.radius
        &&& self.center.0 - self.radius + self.side() - 1 <= i16::MAX
        &&& i16::MIN <= self.center.1 - self.radius
        &&& self.center.1 - self.radius + self.side() - 1 <= i16::MAX
    }

    /// The `k`-th cell of the area as a point.
    pub open spec fn point(self, k: int) -> Point {
        Point(self.cell(k).0 as i16, self.cell(k).1 as i16)
    }

    /// The cells of the area as points, in their order.
    pub open spec fn area(self) -> Seq<Point> {
        Seq::new(self.size(), |k: int| self.point(k))
    }

    /// The area that reaches `radius` cells from `center`.
    pub fn new(center: Point, radius: u8) -> (area: Self)
        ensures
            area.center == center,
            area.radius == radius,
    {
        CorePoint { center, radius }
    }

    /// The number of cells along one side of the area.
    pub fn side_dimension(&self) -> (side: u8)
        ensures
            side == self.side(),
    {
        if self.radius <= 127 {
            2 * self.radius + 1
        } else {
            255
        }
    }

    /// Tests whether every cell of the area has coordinates that a `Point`
    /// holds, which is what a walk through the area needs.
    pub fn area_fits(&self) -> (fits: bool)
        ensures
            fits == self.fits(),
    {
        let corner_x: i32 = self.center.0 as i32 - self.radius as i32;
        let corner_y: i32 = self.center.1 as i32 - self.radius as i32;
        let reach: i32 = self.side_dimension() as i32 - 1;
        corner_x >= i16::MIN as i32 && corner_x + reach <= i16::MAX as i32 && corner_y
            >= i16::MIN as i32 && corner_y + reach <= i16::MAX as i32
    }

    /// Walks the cells of the area row by row.
    ///
    /// The area must fit the range of coordinates that a `Point` holds.
    pub fn get_all_points_in_area(&self) -> (cells: CorePointIterator)
        requires
            self.fits(),
        ensures
            cells@ == self.area(),
    {
        let side_dimension: u8 = self.side_dimension();
        let start_x: i16 = self.center.0 - self.radius as i16;
        let start_y: i16 = self.center.1 - self.radius as i16;
        let cells = CorePointIterator {
            start_position: (start_x, start_y),
            current_position_index: (0u8, 0u8),
            side_dimension,
        };
        proof {
            let side = side_dimension as int;
            assert(side * side - 0 * side - 0 == self.size()) by (nonlinear_arith)
                requires
                    self.size() == side * side,
            ;
            assert forall|k: int| 0 <= k < self.size() implies cells.upcoming(k) == self.point(
                k,
            ) by {
                assert(0 * side + 0 + k == k) by (nonlinear_arith);
            }
            assert(cells@ =~= self.area());
        }
        cells
    }
}

/// A walk through the cells of an area. Its view is the sequence of points
/// that it has yet to hand out.
pub struct CorePointIterator {
    start_position: (i16, i16),
    current_position_index: (u8, u8),
    side_dimension: u8,
}

impl View for CorePointIterator {
    type V = Seq<Point>;

    closed spec fn view(&self) -> Seq<Point> {
        Seq::new(self.left(), |k: int| self.upcoming(k))
    }
}

impl CorePointIterator {
    #[verifier::type_invariant]
    spec fn valid(&self) -> bool {
        &&& self.side_dimension >= 1
        &&& self.current_position_index.0 < self.side_dimension
        &&& self.current_position_index.1 <= self.side_dimension
        &&& self.current_position_index.1 == self.side_dimension
            ==> self.current_position_index.0 == 0
        &&& self.start_position.0 + self.side_dimension - 1 <= i16::MAX
        &&& self.start_position.1 + self.side_dimension - 1 <= i16::MAX
    }

    /// The number of cells handed out so far.
    spec fn position(&self) -> int {
        self.current_position_index.1 * self.side_dimension + self.current_position_index.0
    }

    /// The number of cells yet to come.
    spec fn left(&self) -> nat {
        (self.side_dimension * self.side_dimension - self.position()) as nat
    }

    /// The cell that comes `k` places from now.
    spec fn upcoming(&self, k: int) -> Point {
        let at = self.position() + k;
        Point(
            (self.start_position.0 + at % (self.side_dimension as int)) as i16,
            (self.start_position.1 + at / (self.side_dimension as int)) as i16,
        )
    }

    /// Hands out the next cell of the walk, or `None` once every cell has
    /// been handed out.
    pub fn next(&mut self) -> (cell: Option<Point>)
        ensures
            old(self)@.len() == 0 ==> cell is None && final(self)@ == old(self)@,
            old(self)@.len() > 0 ==> cell == Some(old(self)@[0]) && final(self)@ == old(
                self,
            )@.drop_first(),
    {
        proof {
            use_type_invariant(&*self);
        }
        let side: u8 = self.side_dimension;
        let column: u8 = self.current_position_index.0;
        let row: u8 = self.current_position_index.1;
        proof {
            lemma_row_major(side as int, column as int, row as int);
        }
        if column >= side || row >= side {
            return None;
        }
        let current_point = Point(
            self.start_position.0 + column as i16,
            self.start_position.1 + row as i16,
        );
        proof {
            lemma_fundamental_div_mod_converse(
                self.position(),
                side as int,
                row as int,
                column as int,
            );
            assert(self.upcoming(0) == current_point);
        }
        let ghost before = *self;
        if column + 1 == side {
            self.current_position_index = (0, row + 1);
        } else {
            self.current_position_index = (column + 1, row);
        }
        proof {
            lemma_row_major(side as int, self.current_position_index.0 as int, self.current_position_index.1 as int);
            assert(self.position() == before.position() + 1) by (nonlinear_arith)
                requires
                    before.position() == row * side + column,
                    self.position() == self.current_position_index.1 * side
                        + self.current_position_index.0,
                    column + 1 == side ==> self.current_position_index.0 == 0
                        && self.current_position_index.1 == row + 1,
                    column + 1 != side ==> self.current_position_index.0 == column + 1
                        && self.current_position_index.1 == row,
            ;
            assert forall|k: int| 0 <= k < self.left() implies self.upcoming(k)
                == before.upcoming(k + 1) by {}
            assert(self@ =~= before@.drop_first());
        }
        Some(current_point)
    }

    /// Walks to the end and returns the cells that were still to come, in
    /// their order.
    pub fn into_vec(self) -> (cells: Vec<Point>)
        ensures
            cells@ == self@,
    {
        let mut walk = self;
        let mut cells: Vec<Point> = Vec::new();
        let mut cell: Option<Point> = walk.next();
        proof {
            if self@.len() > 0 {
                assert(seq![self@[0]] + self@.drop_first() =~= self@);
            }
        }
        while cell.is_some()
            invariant
                cell matches Some(p) ==> cells@.push(p) + walk@ == self@,
                cell is None ==> cells@ == self@,
            decreases
                    walk@.len() + if cell is Some {
                        1nat
                    } else {
                        0nat
                    },
        {
            let ghost before = walk@;
            cells.push(cell.unwrap());
            cell = walk.next();
            proof {
                if before.len() > 0 {
                    assert(cells@.push(before[0]) + before.drop_first() =~= cells@ + before);
                } else {
                    assert(cells@ + before =~= cells@);
                }
            }
        }
        cells
    }
}

/// In a square of `side` rows, the cell in column `column` of row `row` has
/// a number below `side * side`, unless `row` is past the last row.
proof fn lemma_row_major(side: int, column: int, row: int)
    requires
        side >= 1,
        0 <= column < side,
        0 <= row <= side,
        row == side ==> column == 0,
    ensures
        0 <= row * side + column <= side * side,
        row < side <==> row * side + column < side * side,
{
    assert(row * side + column <= side * side && 0 <= row * side) by (nonlinear_arith)
        requires
            side >= 1,
            0 <= column < side,
            0 <= row <= side,
            row == side ==> column == 0,
    ;
    if row < side {
        assert(row * side + column < side * side) by (nonlinear_arith)
            requires
                0 <= column < side,
                0 <= row <= side - 1,
        ;
    } else {
        assert(row * side == side * side) by (nonlinear_arith)
            requires
                row == side,
        ;
    }
}

/// The cells of an area lie within its square: each coordinate of the
/// `k`-th cell is less than a side away from the corner.
pub proof fn lemma_cell_in_square(area: CorePoint, k: int)
    requires
        0 <= k < area.size(),
    ensures
        0 <= k % area.side() < area.side(),
        0 <= k / area.side() < area.side(),
        k == (k / area.side()) * area.side() + k % area.side(),
        area.fits() ==> area.point(k).0 == area.cell(k).0 && area.point(k).1 == area.cell(k).1,
{
    let side = area.side();
    lemma_fundamental_div_mod(k, side);
    lemma_mod_bound(k, side);
    assert(0 <= k / side < side) by (nonlinear_arith)
        requires
            0 <= k < side * side,
            side > 0,
    ;
    assert(side * (k / side) == (k / side) * side) by (nonlinear_arith);
}

/// An area has as many cells as a square of its side, which for a radius
/// up to 127 is `(2 * radius + 1)` squared, and no cell occurs twice.
pub proof fn lemma_area_count_and_distinct(area: CorePoint)
    ensures
        area.area().len() == area.side() * area.side(),
        area.radius <= 127 ==> area.area().len() == (2 * area.radius + 1) * (2 * area.radius + 1),
        forall|j: int, k: int|
            0 <= j < area.size() && 0 <= k < area.size() && j != k ==> area.cell(j) != area.cell(k),
        area.fits() ==> area.area().no_duplicates(),
{
    assert(area.side() * area.side() >= 0) by (nonlinear_arith);
    assert forall|j: int, k: int|
        0 <= j < area.size() && 0 <= k < area.size() && j != k implies area.cell(j) != area.cell(
        k,
    ) by {
        lemma_cell_in_square(area, j);
        lemma_cell_in_square(area, k);
    }
    if area.fits() {
        assert forall|j: int, k: int|
            0 <= j < area.area().len() && 0 <= k < area.area().len() && j != k implies area.area()[j]
            != area.area()[k] by {
            lemma_cell_in_square(area, j);
            lemma_cell_in_square(area, k);
            assert(area.cell(j) != area.cell(k));
        }
    }
}

/// The area of a radius up to 127 is the square around its centre: a point
/// belongs to it exactly if neither coordinate is more than `radius` away
/// from the centre's.
pub proof fn lemma_area_is_square(area: CorePoint, p: Point)
    requires
        area.fits(),
        area.radius <= 127,
    ensures
        area.area().contains(p) <==> (area.center.0 - area.radius <= p.0 <= area.center.0
            + area.radius && area.center.1 - area.radius <= p.1 <= area.center.1 + area.radius),
{
    let side = area.side();
    assert(side * side >= 0) by (nonlinear_arith);
    if area.area().contains(p) {
        let k = choose|k: int| 0 <= k < area.area().len() && area.area()[k] == p;
        lemma_cell_in_square(area, k);
    }
    if area.center.0 - area.radius <= p.0 <= area.center.0 + area.radius && area.center.1
        - area.radius <= p.1 <= area.center.1 + area.radius {
        let column = p.0 - (area.center.0 - area.radius);
        let row = p.1 - (area.center.1 - area.radius);
        let k = row * side + column;
        assert(0 <= k < side * side) by (nonlinear_arith)
            requires
                k == row * side + column,
                0 <= column < side,
                0 <= row < side,
        ;
        assert(k == side * row + column) by (nonlinear_arith)
            requires
                k == row * side + column,
        ;
        lemma_fundamental_div_mod_converse(k, side, row, column);
        assert(area.area()[k] == p);
    }
}

} // verus!
