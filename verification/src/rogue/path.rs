//! The four-way grid that monsters search for a path to the player on.

use crate::rogue::map::flat_index;
use crate::rogue::map::in_grid;
use crate::rogue::map::lemma_cell_of_index;
use crate::rogue::map::lemma_flat_index_in_grid;
use crate::rogue::map::DungeonMap;
use vstd::prelude::*;

verus! {

/// The map seen as a graph of cells joined to their four neighbours, in which
/// the destination counts as walkable even when something stands on it (so
/// that a monster can reach a solid player).
pub struct FourWayGridForceWalkableTarget<'a> {
    pub map: &'a DungeonMap,
    pub width: i32,
    pub height: i32,
    pub to: (i32, i32),
}

/// The distance the search estimates is the same both ways.
pub proof fn law_heuristic_symmetric(xa: int, ya: int, xb: int, yb: int)
    ensures
        (if xa >= xb { xa - xb } else { xb - xa }) + (if ya >= yb { ya - yb } else { yb - ya }) == (if xb >= xa {
            xb - xa
        } else {
            xa - xb
        }) + (if yb >= ya { yb - ya } else { ya - yb }),
{
}

impl<'a> FourWayGridForceWalkableTarget<'a> {
    pub open spec fn walkable_spec(&self, x: int, y: int) -> bool {
        (in_grid(self.map.width as int, self.map.height as int, x, y) && !self.map.blocked@[flat_index(
            self.map.width as int,
            x,
            y,
        )]) || (self.to.0 == x && self.to.1 == y)
    }

    /// A node the search may enter.
    pub open spec fn qualified(&self, x: int, y: int) -> bool {
        in_grid(self.width as int, self.height as int, x, y) && self.walkable_spec(x, y)
    }

    pub open spec fn node_of(&self, x: int, y: int) -> usize {
        flat_index(self.width as int, x, y) as usize
    }

    pub open spec fn wf(&self) -> bool {
        &&& self.map.wf()
        &&& self.width == self.map.width
        &&& self.height == self.map.height
    }

    pub fn new(map: &'a DungeonMap, to: (i32, i32)) -> (graph: Self)
        requires
            map.wf(),
        ensures
            graph.wf(),
            graph.map == map,
            graph.to == to,
    {
        let (width, height) = map.dimensions();
        FourWayGridForceWalkableTarget { map, width, height, to }
    }

    /// Whether the node at `(x, y)` is walkable.
    pub fn is_walkable(&self, x: i32, y: i32) -> (walkable: bool)
        requires
            self.wf(),
        ensures
            walkable == self.walkable_spec(x as int, y as int),
    {
        self.map.is_walkable(x, y) || (self.to.0 == x && self.to.1 == y)
    }

    pub fn point_to_index(&self, point: (i32, i32)) -> (index: usize)
        requires
            i32::MIN <= point.1 * self.width <= i32::MAX,
            i32::MIN <= point.0 + point.1 * self.width <= i32::MAX,
        ensures
            index == (point.0 + point.1 * self.width) as usize,
    {
        let (x, y) = point;
        (x + y * self.width) as usize
    }

    pub fn index_to_point(&self, index: usize) -> (point: (i32, i32))
        requires
            0 < self.width,
            index <= i32::MAX,
        ensures
            point.0 == index as int % self.width as int,
            point.1 == index as int / self.width as int,
    {
        (index as i32 % self.width, index as i32 / self.width)
    }

    pub fn node_count(&self) -> (count: usize)
        requires
            self.wf(),
        ensures
            count == self.width * self.height,
    {
        (self.width * self.height) as usize
    }

    /// The number of steps between two nodes along the grid, ignoring walls:
    /// the estimate the search is guided by.
    pub fn heuristic(&self, a: usize, b: usize) -> (distance: i32)
        requires
            self.wf(),
            a < self.width * self.height,
            b < self.width * self.height,
        ensures
            ({
                let (xa, ya) = (a as int % self.width as int, a as int / self.width as int);
                let (xb, yb) = (b as int % self.width as int, b as int / self.width as int);
                distance == (if xa >= xb { xa - xb } else { xb - xa }) + (if ya >= yb { ya - yb } else { yb - ya })
            }),
    {
        let (xa, ya) = self.index_to_point(a);
        let (xb, yb) = self.index_to_point(b);
        proof {
            lemma_cell_of_index(self.width as int, self.height as int, a as int);
            lemma_cell_of_index(self.width as int, self.height as int, b as int);
        }
        let dx = if xa >= xb { xa - xb } else { xb - xa };
        let dy = if ya >= yb { ya - yb } else { yb - ya };
        proof {
            assert(dx + dy <= self.width * self.height) by (nonlinear_arith)
                requires
                    0 <= dx < self.width,
                    0 <= dy < self.height,
            ;
        }
        dx + dy
    }

    /// Whether the step from `a` to `b` gets the small extra cost that makes
    /// paths alternate between horizontal and vertical steps: on cells whose
    /// coordinates sum to an even number, horizontal steps cost more; on the
    /// others, vertical ones.
    pub fn is_nudged(&self, a: usize, b: usize) -> (nudged: bool)
        requires
            self.wf(),
            a < self.width * self.height,
            b < self.width * self.height,
        ensures
            ({
                let (x1, y1) = (a as int % self.width as int, a as int / self.width as int);
                let (x2, y2) = (b as int % self.width as int, b as int / self.width as int);
                nudged == (((x1 + y1) % 2 == 0 && x2 != x1) || ((x1 + y1) % 2 == 1 && y2 != y1))
            }),
    {
        let (x1, y1) = self.index_to_point(a);
        let (x2, y2) = self.index_to_point(b);
        proof {
            lemma_cell_of_index(self.width as int, self.height as int, a as int);
            lemma_cell_of_index(self.width as int, self.height as int, b as int);
            assert(x1 + y1 <= self.width * self.height) by (nonlinear_arith)
                requires
                    0 <= x1 < self.width,
                    0 <= y1 < self.height,
            ;
        }
        ((x1 + y1) % 2 == 0 && x2 != x1) || ((x1 + y1) % 2 == 1 && y2 != y1)
    }

    fn add_to_neighboors_if_qualified(&self, point: (i32, i32), into: &mut Vec<usize>)
        requires
            self.wf(),
        ensures
            final(into)@ == if self.qualified(point.0 as int, point.1 as int) {
                old(into)@.push(self.node_of(point.0 as int, point.1 as int))
            } else {
                old(into)@
            },
    {
        let (x, y) = point;
        if x < 0 || y < 0 || x >= self.width || y >= self.height || !self.is_walkable(x, y) {
            return;
        }
        proof {
            lemma_flat_index_in_grid(self.width as int, self.height as int, x as int, y as int);
            assert(y as int * self.width as int == self.width as int * y as int) by (nonlinear_arith);
        }
        into.push(self.point_to_index((x, y)));
    }

    /// Appends to `into` the nodes next to `a` that the search may enter,
    /// in the order below, above, left, right.
    pub fn neighboors(&self, a: usize, into: &mut Vec<usize>)
        requires
            self.wf(),
            a < self.width * self.height,
        ensures
            ({
                let (x, y) = (a as int % self.width as int, a as int / self.width as int);
                let pick = |px: int, py: int|
                    if self.qualified(px, py) {
                        seq![self.node_of(px, py)]
                    } else {
                        Seq::<usize>::empty()
                    };
                final(into)@ == old(into)@ + pick(x, y + 1) + pick(x, y - 1) + pick(x - 1, y) + pick(x + 1, y)
            }),
    {
        let (x, y) = self.index_to_point(a);
        proof {
            lemma_cell_of_index(self.width as int, self.height as int, a as int);
        }
        let ghost start = into@;
        self.add_to_neighboors_if_qualified((x, y + 1), into);
        let ghost after_below = into@;
        self.add_to_neighboors_if_qualified((x, y - 1), into);
        let ghost after_above = into@;
        self.add_to_neighboors_if_qualified((x - 1, y), into);
        let ghost after_left = into@;
        self.add_to_neighboors_if_qualified((x + 1, y), into);
        proof {
            let pick = |px: int, py: int|
                if self.qualified(px, py) {
                    seq![self.node_of(px, py)]
                } else {
                    Seq::<usize>::empty()
                };
            assert(after_below =~= start + pick(x as int, y + 1));
            assert(after_above =~= start + pick(x as int, y + 1) + pick(x as int, y - 1));
            assert(after_left =~= start + pick(x as int, y + 1) + pick(x as int, y - 1) + pick(x - 1, y as int));
            assert(into@ =~= start + pick(x as int, y + 1) + pick(x as int, y - 1) + pick(x - 1, y as int) + pick(
                x + 1,
                y as int,
            ));
        }
    }
}

} // verus!
