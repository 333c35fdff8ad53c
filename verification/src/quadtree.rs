//! The quadtree: a rectangle of the lattice, divided into four quadrants
//! wherever more particles fall into it than a node holds.
//!
//! `Quad` is the tree as a mathematical value; what the tree does is stated
//! over it. `QuadTree` is the tree that runs.
use crate::sequences::lemma_filter_exact;
use crate::sequences::lemma_filter_step;
use crate::sequences::not_index;
use crate::spatial::in_range;
use crate::spatial::within_radius;
use crate::spatial::Position;
use crate::tree_laws::lemma_radius_query_exact;
use crate::tree_laws::lemma_range_query_exact;
use vstd::prelude::*;

verus! {

/// The mathematical model of a quadtree: a node with its rectangle, the
/// particle indices it holds, and no or four quadrants.
pub struct Quad {
    pub lower: Position,
    pub upper: Position,
    /// The particle indices held by this node itself, in insertion order.
    pub items: Seq<usize>,
    /// Empty for a leaf; else the four quadrants, in the order lower-left,
    /// lower-right, upper-left, upper-right of the coordinates.
    pub quadrants: Seq<Quad>,
    /// How many indices a node takes before it hands on to its quadrants.
    pub capacity: nat,
    /// The depth below which no node is subdivided.
    pub depth_limit: nat,
    pub depth: nat,
}

/// The midpoint of two lattice coordinates, rounded down.
pub open spec fn midpoint(a: int, b: int) -> int {
    (a + b) / 2
}

/// The test that every rectangle passes.
pub open spec fn any_rectangle() -> spec_fn(Position, Position) -> bool {
    |lower: Position, upper: Position| true
}

/// The test that every index passes.
pub open spec fn any_index() -> spec_fn(usize) -> bool {
    |i: usize| true
}

/// The test whether the rectangle from `lower` to `upper` and the closed
/// rectangle `range` have a point in common.
pub open spec fn meets_range(range: (Position, Position)) -> spec_fn(Position, Position) -> bool {
    |lower: Position, upper: Position|
        !(upper.x < range.0.x || lower.x > range.1.x || upper.y < range.0.y || lower.y > range.1.y)
}

/// The test whether the position of a particle is known and lies in `range`.
pub open spec fn lies_in_range(range: (Position, Position), positions: Seq<Position>) -> spec_fn(usize) -> bool {
    |i: usize| i < positions.len() && in_range(positions[i as int], range)
}

/// The test whether the rectangle from `lower` to `upper` and the square of
/// half-side `radius` around `center` have a point in common.
pub open spec fn meets_square(center: Position, radius: u32) -> spec_fn(Position, Position) -> bool {
    |lower: Position, upper: Position|
        !(upper.x < center.x - radius || lower.x > center.x + radius || upper.y < center.y - radius || lower.y
            > center.y + radius)
}

/// The test whether the position of a particle is known and lies within
/// `radius` of `center`.
pub open spec fn lies_within(center: Position, radius: u32, positions: Seq<Position>) -> spec_fn(usize) -> bool {
    |i: usize| i < positions.len() && within_radius(center, positions[i as int], radius)
}

impl Quad {
    /// Whether the node's closed rectangle contains `p`.
    pub open spec fn contains_point(self, p: Position) -> bool {
        self.lower.x <= p.x <= self.upper.x && self.lower.y <= p.y <= self.upper.y
    }

    /// Whether the node's rectangle and the closed rectangle from
    /// `(lo_x, lo_y)` to `(hi_x, hi_y)` have a point in common.
    pub open spec fn intersects(self, lo_x: int, lo_y: int, hi_x: int, hi_y: int) -> bool {
        !(self.upper.x < lo_x || self.lower.x > hi_x || self.upper.y < lo_y || self.lower.y > hi_y)
    }

    /// The centre of the node's rectangle, at which it is divided.
    pub open spec fn center(self) -> Position {
        Position {
            x: midpoint(self.lower.x as int, self.upper.x as int) as i32,
            y: midpoint(self.lower.y as int, self.upper.y as int) as i32,
        }
    }

    /// The empty quadrant `k` of this node, one level deeper.
    pub open spec fn quadrant(self, k: int) -> Quad {
        let c = self.center();
        let (lower, upper) = if k == 0 {
            (self.lower, c)
        } else if k == 1 {
            (Position { x: c.x, y: self.lower.y }, Position { x: self.upper.x, y: c.y })
        } else if k == 2 {
            (Position { x: self.lower.x, y: c.y }, Position { x: c.x, y: self.upper.y })
        } else {
            (c, self.upper)
        };
        Quad {
            lower,
            upper,
            items: Seq::empty(),
            quadrants: Seq::empty(),
            capacity: self.capacity,
            depth_limit: self.depth_limit,
            depth: self.depth + 1,
        }
    }

    /// This node with four empty quadrants. The node keeps its own items.
    pub open spec fn subdivided(self) -> Quad {
        Quad { quadrants: Seq::new(4, |k: int| self.quadrant(k)), ..self }
    }

    /// This node without items and without quadrants.
    pub open spec fn cleared(self) -> Quad {
        Quad { items: Seq::empty(), quadrants: Seq::empty(), ..self }
    }

    /// Whether quadrant `k` is in its place: it covers its quarter of this
    /// node's rectangle, lies one level deeper and has this node's limits.
    pub open spec fn quadrant_fits(self, k: int) -> bool {
        let q = self.quadrants[k];
        &&& q.lower == self.quadrant(k).lower
        &&& q.upper == self.quadrant(k).upper
        &&& q.capacity == self.capacity
        &&& q.depth_limit == self.depth_limit
        &&& q.depth == self.depth + 1
    }

    /// A node is well formed if it is no deeper than the limit, has no or
    /// four quadrants, each in its place, and each well formed.
    pub open spec fn wf(self) -> bool
        decreases self,
    {
        &&& self.depth <= self.depth_limit
        &&& (self.quadrants.len() == 0 || self.quadrants.len() == 4)
        &&& forall|k: int|
            0 <= k < self.quadrants.len() ==> self.quadrant_fits(k) && (#[trigger] self.quadrants[k]).wf()
    }

    /// The first of the quadrants from `from` on that contains `p`, or the
    /// number of quadrants if none does.
    pub open spec fn first_containing(self, p: Position, from: int) -> int
        decreases self.quadrants.len() - from,
    {
        if from < 0 || from >= self.quadrants.len() {
            self.quadrants.len() as int
        } else if self.quadrants[from].contains_point(p) {
            from
        } else {
            self.first_containing(p, from + 1)
        }
    }

    /// The tree after inserting particle `index` at `p`.
    ///
    /// A point outside the node changes nothing. A node below its capacity, or
    /// at the depth limit, takes the index itself. A full node is subdivided
    /// if it is a leaf and hands the index to the first quadrant that contains
    /// the point; if none does, it takes the index itself.
    pub open spec fn inserted(self, index: usize, p: Position) -> Quad
        decreases self.depth_limit - self.depth,
    {
        if !self.contains_point(p) {
            self
        } else if self.items.len() < self.capacity || self.depth >= self.depth_limit {
            Quad { items: self.items.push(index), ..self }
        } else {
            let s = if self.quadrants.len() == 0 {
                self.subdivided()
            } else {
                self
            };
            let k = s.first_containing(p, 0);
            if k < s.quadrants.len() && s.quadrant_fits(k) {
                Quad { quadrants: s.quadrants.update(k, s.quadrants[k].inserted(index, p)), ..s }
            } else {
                Quad { items: s.items.push(index), ..s }
            }
        }
    }

    /// Dividing a well-formed leaf above the depth limit keeps it well formed.
    pub proof fn lemma_subdivided_wf(self)
        requires
            self.wf(),
            self.quadrants.len() == 0,
            self.depth < self.depth_limit,
        ensures
            self.subdivided().wf(),
    {
        let s = self.subdivided();
        assert forall|k: int| 0 <= k < s.quadrants.len() implies s.quadrant_fits(k) && (#[trigger] s.quadrants[k]).wf() by {
            assert(s.quadrants[k] == self.quadrant(k));
            assert(s.quadrant(k) == self.quadrant(k));
        }
    }

    /// Inserting into a well-formed tree leaves it well formed.
    pub proof fn lemma_inserted_wf(self, index: usize, p: Position)
        requires
            self.wf(),
        ensures
            self.inserted(index, p).wf(),
        decreases self.depth_limit - self.depth,
    {
        if !self.contains_point(p) {
        } else if self.items.len() < self.capacity || self.depth >= self.depth_limit {
            let t = self.inserted(index, p);
            assert forall|k: int| 0 <= k < t.quadrants.len() implies t.quadrant_fits(k) && (#[trigger] t.quadrants[k]).wf() by {
                assert(self.quadrant_fits(k));
                assert(t.quadrant(k) == self.quadrant(k));
            }
        } else {
            let s = if self.quadrants.len() == 0 {
                self.subdivided()
            } else {
                self
            };
            if self.quadrants.len() == 0 {
                self.lemma_subdivided_wf();
            }
            let k = s.first_containing(p, 0);
            let t = self.inserted(index, p);
            if k < s.quadrants.len() && s.quadrant_fits(k) {
                s.lemma_first_containing(p, 0);
                s.quadrants[k].lemma_inserted_wf(index, p);
                s.quadrants[k].lemma_inserted_frame(index, p);
                assert forall|j: int| 0 <= j < t.quadrants.len() implies t.quadrant_fits(j) && (#[trigger] t.quadrants[j]).wf() by {
                    assert(s.quadrant_fits(j));
                    assert(s.quadrants[j].wf());
                    assert(t.quadrant(j) == s.quadrant(j));
                }
            } else {
                assert forall|j: int| 0 <= j < t.quadrants.len() implies t.quadrant_fits(j) && (#[trigger] t.quadrants[j]).wf() by {
                    assert(s.quadrant_fits(j));
                    assert(s.quadrants[j].wf());
                    assert(t.quadrant(j) == s.quadrant(j));
                }
            }
        }
    }

    /// Inserting changes neither a node's rectangle nor its limits nor its
    /// depth.
    pub proof fn lemma_inserted_frame(self, index: usize, p: Position)
        ensures
            self.inserted(index, p).lower == self.lower,
            self.inserted(index, p).upper == self.upper,
            self.inserted(index, p).capacity == self.capacity,
            self.inserted(index, p).depth_limit == self.depth_limit,
            self.inserted(index, p).depth == self.depth,
    {
    }

    /// `first_containing` finds a quadrant that contains the point, or none.
    pub proof fn lemma_first_containing(self, p: Position, from: int)
        requires
            0 <= from,
        ensures
            from <= self.first_containing(p, from) || self.first_containing(p, from) == self.quadrants.len(),
            self.first_containing(p, from) < self.quadrants.len() ==> self.quadrants[self.first_containing(
                p,
                from,
            )].contains_point(p),
        decreases self.quadrants.len() - from,
    {
        if from < self.quadrants.len() && !self.quadrants[from].contains_point(p) {
            self.lemma_first_containing(p, from + 1);
        }
    }

    /// The tree after inserting, in this order, particles `0` to `n - 1` at
    /// their positions.
    pub open spec fn populated(self, positions: Seq<Position>, n: int) -> Quad
        decreases n,
    {
        if n <= 0 || n > positions.len() {
            self
        } else {
            self.populated(positions, n - 1).inserted((n - 1) as usize, positions[n - 1])
        }
    }

    /// Populating changes neither the root's rectangle nor its limits nor its
    /// depth, and keeps a well-formed tree well formed.
    pub proof fn lemma_populated_frame(self, positions: Seq<Position>, n: int)
        ensures
            self.populated(positions, n).lower == self.lower,
            self.populated(positions, n).upper == self.upper,
            self.populated(positions, n).capacity == self.capacity,
            self.populated(positions, n).depth_limit == self.depth_limit,
            self.populated(positions, n).depth == self.depth,
            self.wf() ==> self.populated(positions, n).wf(),
        decreases n,
    {
        if 0 < n <= positions.len() {
            self.lemma_populated_frame(positions, n - 1);
            self.populated(positions, n - 1).lemma_inserted_frame((n - 1) as usize, positions[n - 1]);
            if self.wf() {
                self.populated(positions, n - 1).lemma_inserted_wf((n - 1) as usize, positions[n - 1]);
            }
        }
    }

    /// The indices that a query reports from this tree. Of every node whose
    /// rectangle passes `meets`, and whose ancestors all do, the query reports
    /// the items that pass `wanted`: a node's own before those of its
    /// quadrants, the quadrants in their order. A node that fails `meets` is
    /// passed over with all below it.
    pub open spec fn hits(
        self,
        meets: spec_fn(Position, Position) -> bool,
        wanted: spec_fn(usize) -> bool,
    ) -> Seq<usize>
        decreases self,
    {
        if !meets(self.lower, self.upper) {
            Seq::empty()
        } else {
            self.items.filter(wanted) + Self::hits_in(self.quadrants, self.quadrants.len() as int, meets, wanted)
        }
    }

    /// What a query reports from the first `n` of `quadrants`.
    pub open spec fn hits_in(
        quadrants: Seq<Quad>,
        n: int,
        meets: spec_fn(Position, Position) -> bool,
        wanted: spec_fn(usize) -> bool,
    ) -> Seq<usize>
        decreases quadrants, n,
    {
        if n <= 0 || n > quadrants.len() {
            Seq::empty()
        } else {
            Self::hits_in(quadrants, n - 1, meets, wanted) + quadrants[n - 1].hits(meets, wanted)
        }
    }

    /// All indices in the tree: a node's own before those of its quadrants.
    pub open spec fn stored(self) -> Seq<usize> {
        self.hits(any_rectangle(), any_index())
    }

    /// The indices that a rectangle query reports: of the nodes whose
    /// rectangle meets `range`, the items whose position is known and lies in
    /// `range`.
    pub open spec fn range_hits(self, range: (Position, Position), positions: Seq<Position>) -> Seq<usize> {
        self.hits(meets_range(range), lies_in_range(range, positions))
    }

    /// The indices that a radius query reports: of the nodes whose rectangle
    /// meets the square around `center`, the items whose position is known
    /// and lies within `radius` of `center`.
    pub open spec fn radius_hits(self, center: Position, radius: u32, positions: Seq<Position>) -> Seq<usize> {
        self.hits(meets_square(center, radius), lies_within(center, radius, positions))
    }

    /// The number of nodes of the tree.
    pub open spec fn node_count(self) -> nat
        decreases self,
    {
        1 + Self::node_count_in(self.quadrants, self.quadrants.len() as int)
    }

    /// The number of nodes in the first `n` of `quadrants`.
    pub open spec fn node_count_in(quadrants: Seq<Quad>, n: int) -> nat
        decreases quadrants, n,
    {
        if n <= 0 || n > quadrants.len() {
            0
        } else {
            Self::node_count_in(quadrants, n - 1) + quadrants[n - 1].node_count()
        }
    }

    /// The depth of the deepest node of the tree.
    pub open spec fn deepest(self) -> nat
        decreases self,
    {
        let below = Self::deepest_in(self.quadrants, self.quadrants.len() as int);
        if below > self.depth {
            below
        } else {
            self.depth
        }
    }

    /// The depth of the deepest node in the first `n` of `quadrants`; zero
    /// for none.
    pub open spec fn deepest_in(quadrants: Seq<Quad>, n: int) -> nat
        decreases quadrants, n,
    {
        if n <= 0 || n > quadrants.len() {
            0
        } else {
            let before = Self::deepest_in(quadrants, n - 1);
            let here = quadrants[n - 1].deepest();
            if here > before {
                here
            } else {
                before
            }
        }
    }
}

/// A node count as far as a `usize` can hold it.
pub open spec fn saturated(n: nat) -> usize {
    if n <= usize::MAX {
        n as usize
    } else {
        usize::MAX
    }
}

/// A quadtree over a rectangle of the lattice. A node holds particle indices
/// up to a capacity and is then divided into four quadrants, down to a depth
/// limit.
#[derive(Debug)]
pub struct QuadTree {
    lower: Position,
    upper: Position,
    particles: Vec<usize>,
    children: Vec<QuadTree>,
    max_particles: usize,
    max_depth: usize,
    depth: usize,
}

impl Clone for QuadTree {
    /// A tree with the same nodes and items.
    fn clone(&self) -> (copy: Self)
        ensures
            copy@ == self@,
        decreases self,
    {
        let mut particles: Vec<usize> = Vec::new();
        let mut j: usize = 0;
        while j < self.particles.len()
            invariant
                j <= self.particles@.len(),
                particles@ == self.particles@.take(j as int),
            decreases self.particles@.len() - j,
        {
            particles.push(self.particles[j]);
            proof {
                assert(particles@ =~= self.particles@.take(j as int + 1));
            }
            j = j + 1;
        }
        let mut children: Vec<QuadTree> = Vec::new();
        let mut k: usize = 0;
        while k < self.children.len()
            invariant
                k <= self.children@.len(),
                children@.len() == k,
                forall|c: int| 0 <= c < k ==> (#[trigger] children@[c])@ == self.children@[c]@,
            decreases self.children@.len() - k,
        {
            let child = self.children[k].clone();
            children.push(child);
            k = k + 1;
        }
        let copy = QuadTree {
            lower: self.lower,
            upper: self.upper,
            particles,
            children,
            max_particles: self.max_particles,
            max_depth: self.max_depth,
            depth: self.depth,
        };
        proof {
            copy.lemma_quadrants();
            self.lemma_quadrants();
            assert(self.particles@.take(self.particles@.len() as int) =~= self.particles@);
            assert(copy@.quadrants =~= self@.quadrants);
        }
        copy
    }
}

impl View for QuadTree {
    type V = Quad;

    closed spec fn view(&self) -> Quad {
        self.model()
    }
}

impl QuadTree {
    spec fn model(&self) -> Quad
        decreases self,
    {
        Quad {
            lower: self.lower,
            upper: self.upper,
            items: self.particles@,
            quadrants: Self::models_of(self.children@, self.children@.len() as int),
            capacity: self.max_particles as nat,
            depth_limit: self.max_depth as nat,
            depth: self.depth as nat,
        }
    }

    spec fn models_of(children: Seq<QuadTree>, n: int) -> Seq<Quad>
        decreases children, n,
    {
        if n <= 0 || n > children.len() {
            Seq::empty()
        } else {
            Self::models_of(children, n - 1).push(children[n - 1].model())
        }
    }

    proof fn lemma_models(children: Seq<QuadTree>, n: int)
        requires
            0 <= n <= children.len(),
        ensures
            Self::models_of(children, n).len() == n,
            forall|k: int| 0 <= k < n ==> (#[trigger] Self::models_of(children, n)[k]) == children[k]@,
        decreases n,
    {
        if n > 0 {
            Self::lemma_models(children, n - 1);
        }
    }

    /// The quadrants of the model are the models of the children.
    proof fn lemma_quadrants(&self)
        ensures
            self@.quadrants.len() == self.children@.len(),
            forall|k: int| 0 <= k < self.children@.len() ==> (#[trigger] self@.quadrants[k]) == self.children@[k]@,
            self@.lower == self.lower,
            self@.upper == self.upper,
            self@.items == self.particles@,
            self@.capacity == self.max_particles,
            self@.depth_limit == self.max_depth,
            self@.depth == self.depth,
    {
        Self::lemma_models(self.children@, self.children@.len() as int);
    }

    /// An empty tree over `bounds` whose nodes hold up to `max_particles`
    /// indices and are divided no deeper than `max_depth`.
    pub fn new(bounds: (Position, Position), max_particles: usize, max_depth: usize) -> (tree: Self)
        ensures
            tree@ == (Quad {
                lower: bounds.0,
                upper: bounds.1,
                items: Seq::empty(),
                quadrants: Seq::empty(),
                capacity: max_particles as nat,
                depth_limit: max_depth as nat,
                depth: 0,
            }),
            tree@.wf(),
    {
        let tree = QuadTree {
            lower: bounds.0,
            upper: bounds.1,
            particles: Vec::new(),
            children: Vec::new(),
            max_particles,
            max_depth,
            depth: 0,
        };
        proof {
            tree.lemma_quadrants();
            assert(tree@.quadrants =~= Seq::empty());
            assert(tree@.items =~= Seq::empty());
        }
        tree
    }

    fn new_with_depth(lower: Position, upper: Position, max_particles: usize, max_depth: usize, depth: usize) -> (tree:
        Self)
        ensures
            tree@ == (Quad {
                lower,
                upper,
                items: Seq::empty(),
                quadrants: Seq::empty(),
                capacity: max_particles as nat,
                depth_limit: max_depth as nat,
                depth: depth as nat,
            }),
    {
        let tree = QuadTree {
            lower,
            upper,
            particles: Vec::new(),
            children: Vec::new(),
            max_particles,
            max_depth,
            depth,
        };
        proof {
            tree.lemma_quadrants();
            assert(tree@.quadrants =~= Seq::empty());
            assert(tree@.items =~= Seq::empty());
        }
        tree
    }

    /// Empties the tree: the root keeps its rectangle and limits and loses its
    /// items and quadrants.
    pub fn clear(&mut self)
        ensures
            final(self)@ == old(self)@.cleared(),
            old(self)@.wf() ==> final(self)@.wf(),
    {
        self.particles.clear();
        self.children = Vec::new();
        proof {
            self.lemma_quadrants();
            old(self).lemma_quadrants();
            assert(self@.quadrants =~= Seq::empty());
            assert(self@.items =~= Seq::empty());
        }
    }

    /// Gives a leaf its four empty quadrants. The node keeps its own items.
    fn subdivide(&mut self)
        requires
            old(self).children@.len() == 0,
            old(self).depth < old(self).max_depth,
        ensures
            final(self)@ == old(self)@.subdivided(),
            final(self).children@.len() == 4,
            final(self).depth == old(self).depth,
            final(self).max_depth == old(self).max_depth,
            final(self).max_particles == old(self).max_particles,
    {
        let center = Position { x: middle(self.lower.x, self.upper.x), y: middle(self.lower.y, self.upper.y) };
        proof {
            old(self).lemma_quadrants();
            assert(center == old(self)@.center());
        }
        let deeper = self.depth + 1;
        self.children.push(
            QuadTree::new_with_depth(self.lower, center, self.max_particles, self.max_depth, deeper),
        );
        self.children.push(
            QuadTree::new_with_depth(
                Position { x: center.x, y: self.lower.y },
                Position { x: self.upper.x, y: center.y },
                self.max_particles,
                self.max_depth,
                deeper,
            ),
        );
        self.children.push(
            QuadTree::new_with_depth(
                Position { x: self.lower.x, y: center.y },
                Position { x: center.x, y: self.upper.y },
                self.max_particles,
                self.max_depth,
                deeper,
            ),
        );
        self.children.push(
            QuadTree::new_with_depth(center, self.upper, self.max_particles, self.max_depth, deeper),
        );
        proof {
            self.lemma_quadrants();
            let target = old(self)@.subdivided();
            assert(self@.quadrants.len() == 4);
            assert forall|k: int| 0 <= k < 4 implies self@.quadrants[k] == target.quadrants[k] by {
                assert(self@.quadrants[k] == self.children@[k]@);
            }
            assert(self@.quadrants =~= target.quadrants);
        }
    }

    /// Inserts particle `particle_index` at `position`. A point outside the
    /// tree's rectangle is refused and changes nothing; any other is taken.
    pub fn insert(&mut self, particle_index: usize, position: Position) -> (accepted: bool)
        requires
            old(self)@.wf(),
        ensures
            final(self)@ == old(self)@.inserted(particle_index, position),
            final(self)@.wf(),
            accepted == old(self)@.contains_point(position),
        decreases old(self)@.depth_limit - old(self)@.depth,
    {
        proof {
            old(self).lemma_quadrants();
            old(self)@.lemma_inserted_wf(particle_index, position);
        }
        if !self.contains_point(&position) {
            return false;
        }
        if self.particles.len() < self.max_particles || self.depth >= self.max_depth {
            self.particles.push(particle_index);
            proof {
                self.lemma_quadrants();
                assert(self@.quadrants =~= old(self)@.quadrants);
            }
            return true;
        }
        if self.children.len() == 0 {
            self.subdivide();
        }
        let ghost s = self@;
        proof {
            self.lemma_quadrants();
            if old(self).children@.len() == 0 {
                old(self)@.lemma_subdivided_wf();
            }
            assert(s.wf());
        }
        let mut k: usize = 0;
        while k < self.children.len()
            invariant
                k <= self.children@.len(),
                self@ == s,
                s.wf(),
                old(self)@.wf(),
                old(self)@.contains_point(position),
                old(self)@.items.len() >= old(self)@.capacity,
                old(self)@.depth < old(self)@.depth_limit,
                s == (if old(self)@.quadrants.len() == 0 {
                    old(self)@.subdivided()
                } else {
                    old(self)@
                }),
                old(self)@.inserted(particle_index, position).wf(),
                s.quadrants.len() == 4,
                s.quadrants.len() == self.children@.len(),
                forall|j: int| 0 <= j < self.children@.len() ==> (#[trigger] s.quadrants[j]) == self.children@[j]@,
                s.first_containing(position, 0) == s.first_containing(position, k as int),
                self.depth < self.max_depth,
                self.depth == old(self).depth,
                self.max_depth == old(self).max_depth,
            decreases self.children@.len() - k,
        {
            if self.children[k].contains_point(&position) {
                let ghost before = self.children@;
                proof {
                    assert(s.quadrants[k as int] == self.children@[k as int]@);
                    assert(s.quadrant_fits(k as int));
                    self.children@[k as int].lemma_quadrants();
                }
                let child = &mut self.children[k];
                child.insert(particle_index, position);
                proof {
                    self.lemma_quadrants();
                    let target = old(self)@.inserted(particle_index, position);
                    assert(s.first_containing(position, k as int) == k);
                    assert(self.children@ =~= before.update(k as int, self.children@[k as int]));
                    assert forall|j: int| 0 <= j < 4 implies self@.quadrants[j] == target.quadrants[j] by {
                        assert(self@.quadrants[j] == self.children@[j]@);
                        if j != k {
                            assert(self.children@[j] == before[j]);
                        }
                    }
                    assert(self@.quadrants =~= target.quadrants);
                }
                return true;
            }
            k = k + 1;
        }
        self.particles.push(particle_index);
        proof {
            self.lemma_quadrants();
            assert(self@.quadrants =~= s.quadrants);
        }
        true
    }

    /// Appends to `results` the indices in the tree whose position, looked up
    /// in `particle_positions`, lies in the closed rectangle `range`. Nodes
    /// whose rectangle does not meet `range` are passed over unread.
    pub fn query_range(
        &self,
        range: (Position, Position),
        results: &mut Vec<usize>,
        particle_positions: &Vec<Position>,
    )
        ensures
            final(results)@ == old(results)@ + self@.range_hits(range, particle_positions@),
        decreases self,
    {
        proof {
            self.lemma_quadrants();
        }
        if !self.intersects_range(range.0.x as i64, range.0.y as i64, range.1.x as i64, range.1.y as i64) {
            assert(results@ =~= old(results)@ + Seq::<usize>::empty());
            return ;
        }
        let ghost meets = meets_range(range);
        let ghost wanted = lies_in_range(range, particle_positions@);
        let mut j: usize = 0;
        while j < self.particles.len()
            invariant
                j <= self.particles@.len(),
                results@ == old(results)@ + self.particles@.take(j as int).filter(wanted),
                meets == meets_range(range),
                wanted == lies_in_range(range, particle_positions@),
            decreases self.particles@.len() - j,
        {
            let index = self.particles[j];
            proof {
                lemma_filter_step(self.particles@, j as int, wanted);
            }
            if index < particle_positions.len() {
                if particle_positions[index].inside(&range) {
                    results.push(index);
                }
            }
            proof {
                assert(results@ =~= old(results)@ + self.particles@.take(j as int + 1).filter(wanted));
            }
            j = j + 1;
        }
        proof {
            assert(self.particles@.take(self.particles@.len() as int) =~= self.particles@);
        }
        let ghost own = results@;
        let mut k: usize = 0;
        while k < self.children.len()
            invariant
                k <= self.children@.len(),
                own == old(results)@ + self@.items.filter(wanted),
                meets == meets_range(range),
                wanted == lies_in_range(range, particle_positions@),
                self@.quadrants.len() == self.children@.len(),
                forall|c: int| 0 <= c < self.children@.len() ==> (#[trigger] self@.quadrants[c]) == self.children@[c]@,
                results@ == own + Quad::hits_in(self@.quadrants, k as int, meets, wanted),
            decreases self.children@.len() - k,
        {
            let ghost so_far = results@;
            self.children[k].query_range(range, results, particle_positions);
            proof {
                assert(self@.quadrants[k as int] == self.children@[k as int]@);
                assert(results@ =~= own + Quad::hits_in(self@.quadrants, k as int + 1, meets, wanted));
            }
            k = k + 1;
        }
        proof {
            assert(results@ =~= old(results)@ + self@.range_hits(range, particle_positions@));
        }
    }

    /// Appends to `results` the indices in the tree whose position, looked up
    /// in `particle_positions`, lies within `radius` of `center`. Nodes whose
    /// rectangle does not meet the square around `center` are passed over
    /// unread.
    pub fn query_radius(
        &self,
        center: Position,
        radius: u32,
        results: &mut Vec<usize>,
        particle_positions: &Vec<Position>,
    )
        ensures
            final(results)@ == old(results)@ + self@.radius_hits(center, radius, particle_positions@),
        decreases self,
    {
        proof {
            self.lemma_quadrants();
        }
        if !self.intersects_range(
            center.x as i64 - radius as i64,
            center.y as i64 - radius as i64,
            center.x as i64 + radius as i64,
            center.y as i64 + radius as i64,
        ) {
            assert(results@ =~= old(results)@ + Seq::<usize>::empty());
            return ;
        }
        let ghost meets = meets_square(center, radius);
        let ghost wanted = lies_within(center, radius, particle_positions@);
        let mut j: usize = 0;
        while j < self.particles.len()
            invariant
                j <= self.particles@.len(),
                results@ == old(results)@ + self.particles@.take(j as int).filter(wanted),
                meets == meets_square(center, radius),
                wanted == lies_within(center, radius, particle_positions@),
            decreases self.particles@.len() - j,
        {
            let index = self.particles[j];
            proof {
                lemma_filter_step(self.particles@, j as int, wanted);
            }
            if index < particle_positions.len() {
                if center.within(&particle_positions[index], radius) {
                    results.push(index);
                }
            }
            proof {
                assert(results@ =~= old(results)@ + self.particles@.take(j as int + 1).filter(wanted));
            }
            j = j + 1;
        }
        proof {
            assert(self.particles@.take(self.particles@.len() as int) =~= self.particles@);
        }
        let ghost own = results@;
        let mut k: usize = 0;
        while k < self.children.len()
            invariant
                k <= self.children@.len(),
                own == old(results)@ + self@.items.filter(wanted),
                meets == meets_square(center, radius),
                wanted == lies_within(center, radius, particle_positions@),
                self@.quadrants.len() == self.children@.len(),
                forall|c: int| 0 <= c < self.children@.len() ==> (#[trigger] self@.quadrants[c]) == self.children@[c]@,
                results@ == own + Quad::hits_in(self@.quadrants, k as int, meets, wanted),
            decreases self.children@.len() - k,
        {
            self.children[k].query_radius(center, radius, results, particle_positions);
            proof {
                assert(self@.quadrants[k as int] == self.children@[k as int]@);
                assert(results@ =~= own + Quad::hits_in(self@.quadrants, k as int + 1, meets, wanted));
            }
            k = k + 1;
        }
        proof {
            assert(results@ =~= old(results)@ + self@.radius_hits(center, radius, particle_positions@));
        }
    }

    /// The number of nodes of the tree, as far as a `usize` can hold it.
    pub fn get_node_count(&self) -> (count: usize)
        ensures
            count == saturated(self@.node_count()),
        decreases self,
    {
        proof {
            self.lemma_quadrants();
        }
        let mut count: usize = 1;
        let mut k: usize = 0;
        while k < self.children.len()
            invariant
                k <= self.children@.len(),
                self@.quadrants.len() == self.children@.len(),
                forall|c: int| 0 <= c < self.children@.len() ==> (#[trigger] self@.quadrants[c]) == self.children@[c]@,
                count == saturated(1 + Quad::node_count_in(self@.quadrants, k as int)),
            decreases self.children@.len() - k,
        {
            let below = self.children[k].get_node_count();
            proof {
                assert(self@.quadrants[k as int] == self.children@[k as int]@);
            }
            count = count.saturating_add(below);
            k = k + 1;
        }
        count
    }

    /// The depth of the deepest node of the tree; the root has depth zero.
    pub fn get_max_depth(&self) -> (deepest: usize)
        ensures
            deepest == self@.deepest(),
        decreases self,
    {
        proof {
            self.lemma_quadrants();
        }
        let mut below: usize = 0;
        let mut k: usize = 0;
        while k < self.children.len()
            invariant
                k <= self.children@.len(),
                self@.quadrants.len() == self.children@.len(),
                forall|c: int| 0 <= c < self.children@.len() ==> (#[trigger] self@.quadrants[c]) == self.children@[c]@,
                below == Quad::deepest_in(self@.quadrants, k as int),
            decreases self.children@.len() - k,
        {
            let here = self.children[k].get_max_depth();
            proof {
                assert(self@.quadrants[k as int] == self.children@[k as int]@);
            }
            if here > below {
                below = here;
            }
            k = k + 1;
        }
        if below > self.depth {
            below
        } else {
            self.depth
        }
    }

    fn contains_point(&self, point: &Position) -> (inside: bool)
        ensures
            inside == self@.contains_point(*point),
    {
        proof {
            self.lemma_quadrants();
        }
        point.x >= self.lower.x && point.x <= self.upper.x && point.y >= self.lower.y && point.y <= self.upper.y
    }

    fn intersects_range(&self, lo_x: i64, lo_y: i64, hi_x: i64, hi_y: i64) -> (meets: bool)
        ensures
            meets == self@.intersects(lo_x as int, lo_y as int, hi_x as int, hi_y as int),
    {
        proof {
            self.lemma_quadrants();
        }
        !((self.upper.x as i64) < lo_x || self.lower.x as i64 > hi_x || (self.upper.y as i64) < lo_y
            || self.lower.y as i64 > hi_y)
    }
}

/// The midpoint of two lattice coordinates, rounded down.
fn middle(a: i32, b: i32) -> (m: i32)
    ensures
        m == midpoint(a as int, b as int),
{
    let sum: i64 = a as i64 + b as i64;
    match sum.checked_div_euclid(2) {
        Some(half) => half as i32,
        None => 0,
    }
}

/// Figures that describe a quadtree index.
#[derive(Debug, Clone, Copy, PartialEq, Eq, Structural)]
pub struct SpatialStatistics {
    pub node_count: usize,
    pub max_depth: usize,
    pub particle_count: usize,
}

/// A quadtree together with the positions that it indexes.
#[derive(Debug)]
pub struct QuadTreeManager {
    quadtree: QuadTree,
    particle_positions: Vec<Position>,
}

impl View for QuadTreeManager {
    type V = Seq<Position>;

    /// The positions that the tree indexes, by particle index.
    closed spec fn view(&self) -> Seq<Position> {
        self.particle_positions@
    }
}

impl QuadTreeManager {
    /// The tree, as its model.
    pub closed spec fn tree(&self) -> Quad {
        self.quadtree@
    }

    /// The tree is well formed and is what inserting every indexed position,
    /// in the order of the indices, into the empty tree gives.
    pub open spec fn wf(&self) -> bool {
        &&& self.tree().wf()
        &&& self.tree() == self.tree().cleared().populated(self@, self@.len() as int)
    }

    /// A manager of an empty tree over `bounds`; see `QuadTree::new`.
    pub fn new(bounds: (Position, Position), max_particles_per_node: usize, max_depth: usize) -> (manager: Self)
        ensures
            manager.wf(),
            manager@ == Seq::<Position>::empty(),
            manager.tree() == (Quad {
                lower: bounds.0,
                upper: bounds.1,
                items: Seq::empty(),
                quadrants: Seq::empty(),
                capacity: max_particles_per_node as nat,
                depth_limit: max_depth as nat,
                depth: 0,
            }),
    {
        QuadTreeManager {
            quadtree: QuadTree::new(bounds, max_particles_per_node, max_depth),
            particle_positions: Vec::new(),
        }
    }

    /// Forgets the indexed positions and indexes `positions` instead:
    /// particle `i` is the one at `positions[i]`. A particle outside the
    /// tree's rectangle is not in the tree and no query finds it.
    pub fn update(&mut self, positions: &Vec<Position>)
        requires
            old(self).wf(),
        ensures
            final(self).wf(),
            final(self)@ == positions@,
            final(self).tree() == old(self).tree().cleared().populated(positions@, positions@.len() as int),
    {
        self.quadtree.clear();
        self.particle_positions.clear();
        let ghost root = old(self).tree().cleared();
        let mut index: usize = 0;
        while index < positions.len()
            invariant
                index <= positions@.len(),
                root == old(self).tree().cleared(),
                self.particle_positions@ == positions@.take(index as int),
                self.quadtree@ == root.populated(positions@, index as int),
                self.quadtree@.wf(),
            decreases positions@.len() - index,
        {
            self.particle_positions.push(positions[index]);
            self.quadtree.insert(index, positions[index]);
            proof {
                assert(self.particle_positions@ =~= positions@.take(index as int + 1));
            }
            index = index + 1;
        }
        proof {
            assert(positions@.take(positions@.len() as int) =~= positions@);
            root.lemma_populated_frame(positions@, positions@.len() as int);
            assert(self.tree().cleared() == root);
        }
    }

    /// The indices in the tree whose position lies within `radius` of
    /// `position`, in the order of the tree's nodes.
    pub fn query_neighbors(&self, position: Position, radius: u32) -> (neighbors: Vec<usize>)
        requires
            self.wf(),
        ensures
            neighbors@ == self.tree().radius_hits(position, radius, self@),
            neighbors@.no_duplicates(),
            forall|x: usize|
                neighbors@.contains(x) <==> x < self@.len() && self.tree().contains_point(self@[x as int])
                    && within_radius(position, self@[x as int], radius),
    {
        let mut results: Vec<usize> = Vec::new();
        self.quadtree.query_radius(position, radius, &mut results, &self.particle_positions);
        proof {
            assert(results@ =~= self.tree().radius_hits(position, radius, self@));
            assert(self@.len() == self.particle_positions.len());
            lemma_radius_query_exact(self.tree(), self@, position, radius);
        }
        results
    }

    /// The indices that `query_neighbors` gives for the position of particle
    /// `particle_index`, without that particle itself; none where no such
    /// particle is indexed.
    pub fn query_neighbors_for_particle(&self, particle_index: usize, radius: u32) -> (neighbors: Vec<usize>)
        requires
            self.wf(),
        ensures
            neighbors@ == if particle_index < self@.len() {
                self.tree().radius_hits(self@[particle_index as int], radius, self@).filter(
                    not_index(particle_index),
                )
            } else {
                Seq::empty()
            },
            neighbors@.no_duplicates(),
            forall|x: usize|
                neighbors@.contains(x) <==> x != particle_index && particle_index < self@.len() && x < self@.len()
                    && self.tree().contains_point(self@[x as int]) && within_radius(
                    self@[particle_index as int],
                    self@[x as int],
                    radius,
                ),
    {
        let mut others: Vec<usize> = Vec::new();
        if particle_index < self.particle_positions.len() {
            let found = self.query_neighbors(self.particle_positions[particle_index], radius);
            let ghost other = not_index(particle_index);
            let mut k: usize = 0;
            while k < found.len()
                invariant
                    k <= found@.len(),
                    other == not_index(particle_index),
                    others@ == found@.take(k as int).filter(other),
                decreases found@.len() - k,
            {
                proof {
                    lemma_filter_step(found@, k as int, other);
                }
                if found[k] != particle_index {
                    others.push(found[k]);
                }
                k = k + 1;
            }
            proof {
                assert(found@.take(found@.len() as int) =~= found@);
                lemma_filter_exact(found@, other);
                assert forall|x: usize|
                    others@.contains(x) <==> x != particle_index && x < self@.len() && self.tree().contains_point(
                        self@[x as int],
                    ) && within_radius(self@[particle_index as int], self@[x as int], radius) by {
                    assert(others@.contains(x) <==> found@.contains(x) && other(x));
                }
            }
        }
        others
    }

    /// The indices in the tree whose position lies in the closed rectangle
    /// `range`, in the order of the tree's nodes.
    pub fn query_range(&self, range: (Position, Position)) -> (found: Vec<usize>)
        requires
            self.wf(),
        ensures
            found@ == self.tree().range_hits(range, self@),
            found@.no_duplicates(),
            forall|x: usize|
                found@.contains(x) <==> x < self@.len() && self.tree().contains_point(self@[x as int]) && in_range(
                    self@[x as int],
                    range,
                ),
    {
        let mut results: Vec<usize> = Vec::new();
        self.quadtree.query_range(range, &mut results, &self.particle_positions);
        proof {
            assert(results@ =~= self.tree().range_hits(range, self@));
            assert(self@.len() == self.particle_positions.len());
            lemma_range_query_exact(self.tree(), self@, range);
        }
        results
    }

    /// The number of nodes, the depth of the deepest node, and the number of
    /// indexed positions.
    pub fn get_statistics(&self) -> (statistics: SpatialStatistics)
        ensures
            statistics.node_count == saturated(self.tree().node_count()),
            statistics.max_depth == self.tree().deepest(),
            statistics.particle_count == self@.len(),
    {
        SpatialStatistics {
            node_count: self.quadtree.get_node_count(),
            max_depth: self.quadtree.get_max_depth(),
            particle_count: self.particle_positions.len(),
        }
    }
}

} // verus!
