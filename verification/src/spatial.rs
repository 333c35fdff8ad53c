//! Spatial indexes over lattice positions: a uniform grid and a quadtree
//! behind one interface.
//!
//! Positions are points of an integer lattice. An index is rebuilt from the
//! positions of all particles and then answers which particles lie within a
//! radius of a point, by particle index.
pub use crate::grid::SpatialGrid;
pub use crate::quadtree::Quad;
pub use crate::quadtree::QuadTree;
pub use crate::quadtree::QuadTreeManager;
pub use crate::quadtree::SpatialStatistics;
use crate::sequences::not_index;
use vstd::prelude::*;

verus! {

/// A point of the integer lattice.
#[derive(Debug, Clone, Copy, PartialEq, Eq, Structural)]
pub struct Position {
    pub x: i32,
    pub y: i32,
}

/// Whether two points are at most `radius` apart, by Euclidean distance.
pub open spec fn within_radius(a: Position, b: Position, radius: u32) -> bool {
    (a.x - b.x) * (a.x - b.x) + (a.y - b.y) * (a.y - b.y) <= radius * radius
}

/// Whether `p` lies in the closed rectangle spanned by `range`.
pub open spec fn in_range(p: Position, range: (Position, Position)) -> bool {
    range.0.x <= p.x <= range.1.x && range.0.y <= p.y <= range.1.y
}

impl Position {
    /// A point from its two coordinates.
    pub fn new(x: i32, y: i32) -> (p: Position)
        ensures
            p == (Position { x, y }),
    {
        Position { x, y }
    }

    /// Whether `other` is at most `radius` away.
    pub fn within(&self, other: &Position, radius: u32) -> (w: bool)
        ensures
            w == within_radius(*self, *other, radius),
    {
        let dx: i128 = self.x as i128 - other.x as i128;
        let dy: i128 = self.y as i128 - other.y as i128;
        let r: i128 = radius as i128;
        assert(0 <= dx * dx <= 0x1_0000_0000 * 0x1_0000_0000) by (nonlinear_arith)
            requires
                -0x1_0000_0000 <= dx <= 0x1_0000_0000,
        ;
        assert(0 <= dy * dy <= 0x1_0000_0000 * 0x1_0000_0000) by (nonlinear_arith)
            requires
                -0x1_0000_0000 <= dy <= 0x1_0000_0000,
        ;
        assert(0 <= r * r <= 0x1_0000_0000 * 0x1_0000_0000) by (nonlinear_arith)
            requires
                0 <= r <= 0x1_0000_0000,
        ;
        dx * dx + dy * dy <= r * r
    }

    /// Whether the point lies in the closed rectangle spanned by `range`.
    pub fn inside(&self, range: &(Position, Position)) -> (b: bool)
        ensures
            b == in_range(*self, *range),
    {
        range.0.x <= self.x && self.x <= range.1.x && range.0.y <= self.y && self.y <= range.1.y
    }
}

/// Distance does not depend on the order of the two points.
pub proof fn lemma_within_symmetric(a: Position, b: Position, radius: u32)
    ensures
        within_radius(a, b, radius) == within_radius(b, a, radius),
{
    assert((a.x - b.x) * (a.x - b.x) == (b.x - a.x) * (b.x - a.x)) by (nonlinear_arith);
    assert((a.y - b.y) * (a.y - b.y) == (b.y - a.y) * (b.y - a.y)) by (nonlinear_arith);
}

/// A spatial index of either kind.
#[derive(Debug)]
pub enum SpatialPartitioning {
    Grid(SpatialGrid),
    QuadTree(QuadTreeManager),
}

impl View for SpatialPartitioning {
    type V = Seq<Position>;

    /// The positions that the index holds, by particle index.
    open spec fn view(&self) -> Seq<Position> {
        match self {
            SpatialPartitioning::Grid(grid) => grid@,
            SpatialPartitioning::QuadTree(manager) => manager@,
        }
    }
}

impl SpatialPartitioning {
    /// Whether the index inside is well formed.
    pub open spec fn wf(&self) -> bool {
        match self {
            SpatialPartitioning::Grid(grid) => grid.wf(),
            SpatialPartitioning::QuadTree(manager) => manager.wf(),
        }
    }

    /// A uniform grid; see `SpatialGrid::new`.
    pub fn new_grid(cell_size: u32, bounds: (Position, Position)) -> (index: Self)
        requires
            cell_size > 0,
        ensures
            index.wf(),
            index@ == Seq::<Position>::empty(),
            index matches SpatialPartitioning::Grid(grid) && grid.side() == cell_size && grid.extent() == bounds,
    {
        SpatialPartitioning::Grid(SpatialGrid::new(cell_size, bounds))
    }

    /// A quadtree; see `QuadTreeManager::new`.
    pub fn new_quadtree(bounds: (Position, Position), max_particles_per_node: usize, max_depth: usize) -> (index:
        Self)
        ensures
            index.wf(),
            index@ == Seq::<Position>::empty(),
            index matches SpatialPartitioning::QuadTree(manager) && manager.tree() == (Quad {
                lower: bounds.0,
                upper: bounds.1,
                items: Seq::empty(),
                quadrants: Seq::empty(),
                capacity: max_particles_per_node as nat,
                depth_limit: max_depth as nat,
                depth: 0,
            }),
    {
        SpatialPartitioning::QuadTree(QuadTreeManager::new(bounds, max_particles_per_node, max_depth))
    }

    /// Rebuilds the index from `positions`.
    pub fn update(&mut self, positions: &Vec<Position>)
        requires
            old(self).wf(),
        ensures
            final(self).wf(),
            final(self)@ == positions@,
            match (*old(self), *final(self)) {
                (SpatialPartitioning::Grid(before), SpatialPartitioning::Grid(after)) => after.side()
                    == before.side() && after.extent() == before.extent(),
                (SpatialPartitioning::QuadTree(before), SpatialPartitioning::QuadTree(after)) => after.tree()
                    == before.tree().cleared().populated(positions@, positions@.len() as int),
                _ => false,
            },
    {
        match self {
            SpatialPartitioning::Grid(grid) => grid.update(positions),
            SpatialPartitioning::QuadTree(manager) => manager.update(positions),
        }
    }

    /// Whether the index takes a particle at `p`. A grid takes every
    /// particle; a quadtree takes those inside its rectangle.
    pub open spec fn covers(&self, p: Position) -> bool {
        match self {
            SpatialPartitioning::Grid(grid) => true,
            SpatialPartitioning::QuadTree(manager) => manager.tree().contains_point(p),
        }
    }

    /// The particles that the index took and that lie within `radius` of
    /// `position`, each once. A grid reports them in the order of
    /// `SpatialGrid::query_neighbors`, a quadtree in the order of its nodes.
    pub fn query_neighbors(&self, position: Position, radius: u32) -> (neighbors: Vec<usize>)
        requires
            self.wf(),
        ensures
            neighbors@.no_duplicates(),
            forall|x: usize|
                neighbors@.contains(x) <==> x < self@.len() && self.covers(self@[x as int]) && within_radius(
                    position,
                    self@[x as int],
                    radius,
                ),
            self matches SpatialPartitioning::QuadTree(manager) ==> neighbors@ == manager.tree().radius_hits(
                position,
                radius,
                manager@,
            ),
            self matches SpatialPartitioning::Grid(grid) ==> forall|s: int, t: int|
                0 <= s < t < neighbors.len() ==> grid.reported_before(
                    #[trigger] neighbors[s],
                    #[trigger] neighbors[t],
                ),
    {
        match self {
            SpatialPartitioning::Grid(grid) => {
                let neighbors = grid.query_neighbors(position, radius);
                proof {
                    assert forall|x: usize|
                        neighbors@.contains(x) <==> x < grid@.len() && within_radius(
                            position,
                            grid@[x as int],
                            radius,
                        ) by {
                        if x < grid@.len() {
                            lemma_within_symmetric(position, grid@[x as int], radius);
                        }
                        if neighbors@.contains(x) {
                            let t = choose|t: int| 0 <= t < neighbors@.len() && neighbors@[t] == x;
                            assert(neighbors[t] < grid@.len());
                        } else if x < grid@.len() && within_radius(grid@[x as int], position, radius) {
                            assert(neighbors@.contains((x as int) as usize));
                        }
                    }
                    assert forall|s: int, t: int|
                        0 <= s < neighbors@.len() && 0 <= t < neighbors@.len() && s != t implies neighbors@[s]
                        != neighbors@[t] by {
                        if s < t {
                            assert(grid.reported_before(neighbors[s], neighbors[t]));
                        } else {
                            assert(grid.reported_before(neighbors[t], neighbors[s]));
                        }
                    }
                }
                neighbors
            },
            SpatialPartitioning::QuadTree(manager) => manager.query_neighbors(position, radius),
        }
    }

    /// The particles that the index took and that lie within `radius` of
    /// particle `particle_index`, each once, without that particle itself;
    /// none where the index holds no such particle.
    pub fn query_neighbors_for_particle(&self, particle_index: usize, radius: u32) -> (neighbors: Vec<usize>)
        requires
            self.wf(),
        ensures
            neighbors@.no_duplicates(),
            forall|x: usize|
                neighbors@.contains(x) <==> x != particle_index && particle_index < self@.len() && x < self@.len()
                    && self.covers(self@[x as int]) && within_radius(
                    self@[particle_index as int],
                    self@[x as int],
                    radius,
                ),
            self matches SpatialPartitioning::QuadTree(manager) ==> neighbors@ == if particle_index
                < manager@.len() {
                manager.tree().radius_hits(manager@[particle_index as int], radius, manager@).filter(
                    not_index(particle_index),
                )
            } else {
                Seq::empty()
            },
            self matches SpatialPartitioning::Grid(grid) ==> forall|s: int, t: int|
                0 <= s < t < neighbors.len() ==> grid.reported_before(
                    #[trigger] neighbors[s],
                    #[trigger] neighbors[t],
                ),
    {
        match self {
            SpatialPartitioning::Grid(grid) => {
                let neighbors = grid.query_neighbors_in_range(particle_index, radius);
                proof {
                    assert forall|x: usize|
                        neighbors@.contains(x) <==> x != particle_index && particle_index < grid@.len() && x
                            < grid@.len() && within_radius(
                            grid@[particle_index as int],
                            grid@[x as int],
                            radius,
                        ) by {
                        if x < grid@.len() && particle_index < grid@.len() {
                            lemma_within_symmetric(grid@[particle_index as int], grid@[x as int], radius);
                        }
                        if neighbors@.contains(x) {
                            let t = choose|t: int| 0 <= t < neighbors@.len() && neighbors@[t] == x;
                            assert(neighbors[t] < grid@.len());
                            assert(particle_index < grid@.len());
                        } else if x != particle_index && particle_index < grid@.len() && x < grid@.len()
                            && within_radius(grid@[x as int], grid@[particle_index as int], radius) {
                            assert(neighbors@.contains((x as int) as usize));
                        }
                    }
                    assert forall|s: int, t: int|
                        0 <= s < neighbors@.len() && 0 <= t < neighbors@.len() && s != t implies neighbors@[s]
                        != neighbors@[t] by {
                        if s < t {
                            assert(grid.reported_before(neighbors[s], neighbors[t]));
                        } else {
                            assert(grid.reported_before(neighbors[t], neighbors[s]));
                        }
                    }
                }
                neighbors
            },
            SpatialPartitioning::QuadTree(manager) => manager.query_neighbors_for_particle(particle_index, radius),
        }
    }
}

} // verus!
