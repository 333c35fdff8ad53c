//! The uniform grid: square cells of a fixed side, each holding the indices
//! of the particles whose position falls into it.
use crate::spatial::lemma_within_symmetric;
use crate::spatial::within_radius;
use crate::spatial::Position;
use std::collections::HashMap;
use vstd::arithmetic::div_mod::lemma_div_is_ordered;
use vstd::arithmetic::div_mod::lemma_fundamental_div_mod;
use vstd::prelude::*;

verus! {

broadcast use vstd::std_specs::hash::group_hash_axioms;

/// Cell coordinates stay strictly inside `-CELL_LIMIT .. CELL_LIMIT`.
pub const CELL_LIMIT: i64 = 0x4_0000_0000;

/// The cell coordinate, along one axis, of lattice coordinate `v` in a grid
/// that starts at `origin` and has cells of side `cell_size`: the number of
/// whole cells between the origin and `v`, rounded down.
pub open spec fn cell_of(v: int, origin: int, cell_size: int) -> int {
    (v - origin) / cell_size
}

/// The bucket key of cell `(cx, cy)`. Distinct cells have distinct keys.
pub open spec fn cell_key(cx: int, cy: int) -> int {
    (cx + 0x4_0000_0000) * 0x8_0000_0000 + (cy + 0x4_0000_0000)
}

/// Rounding down keeps a quotient between zero and the dividend.
proof fn lemma_cell_bounds(x: int, d: int)
    requires
        d >= 1,
    ensures
        x >= 0 ==> 0 <= x / d <= x,
        x < 0 ==> x <= x / d < 0,
{
    lemma_fundamental_div_mod(x, d);
    let q = x / d;
    let r = x % d;
    assert(0 <= r < d);
    if x >= 0 {
        assert(q >= 0 && q <= x) by (nonlinear_arith)
            requires
                x == d * q + r,
                0 <= r < d,
                d >= 1,
                x >= 0,
        ;
    } else {
        assert(q < 0 && x <= q) by (nonlinear_arith)
            requires
                x == d * q + r,
                0 <= r < d,
                d >= 1,
                x < 0,
        ;
    }
}

/// Two cells inside the limit that share a key are the same cell.
pub proof fn lemma_cell_key_injective(ax: int, ay: int, bx: int, by: int)
    requires
        -CELL_LIMIT <= ax < CELL_LIMIT,
        -CELL_LIMIT <= ay < CELL_LIMIT,
        -CELL_LIMIT <= bx < CELL_LIMIT,
        -CELL_LIMIT <= by < CELL_LIMIT,
        cell_key(ax, ay) == cell_key(bx, by),
    ensures
        ax == bx,
        ay == by,
{
}

/// The cell coordinate of `v` along one axis.
fn cell_coord(v: i64, origin: i32, cell_size: u32) -> (c: i64)
    requires
        cell_size > 0,
        -0x2_0000_0000 <= v <= 0x2_0000_0000,
    ensures
        c == cell_of(v as int, origin as int, cell_size as int),
        -CELL_LIMIT < c < CELL_LIMIT,
{
    let offset: i64 = v - origin as i64;
    proof {
        lemma_cell_bounds(offset as int, cell_size as int);
    }
    match offset.checked_div_euclid(cell_size as i64) {
        Some(c) => c,
        None => 0,
    }
}

/// The bucket key of a cell.
fn pack_cell(cx: i64, cy: i64) -> (k: u128)
    requires
        -CELL_LIMIT <= cx < CELL_LIMIT,
        -CELL_LIMIT <= cy < CELL_LIMIT,
    ensures
        k == cell_key(cx as int, cy as int),
{
    let column: u128 = (cx + CELL_LIMIT) as u128;
    let row: u128 = (cy + CELL_LIMIT) as u128;
    column * 0x8_0000_0000u128 + row
}

/// A uniform grid: square cells of a fixed side, each holding the indices of
/// the particles whose position falls into it.
#[derive(Debug, Clone)]
pub struct SpatialGrid {
    cell_size: u32,
    lower: Position,
    upper: Position,
    grid: HashMap<u128, Vec<usize>>,
    particle_positions: Vec<Position>,
}

impl View for SpatialGrid {
    type V = Seq<Position>;

    /// The positions that the grid indexes, by particle index.
    closed spec fn view(&self) -> Seq<Position> {
        self.particle_positions@
    }
}

impl SpatialGrid {
    /// The side of a cell.
    pub closed spec fn side(&self) -> u32 {
        self.cell_size
    }

    /// The rectangle that the grid was made for. Its lower corner is the
    /// origin of the cells; positions outside of it are indexed all the same.
    pub closed spec fn extent(&self) -> (Position, Position) {
        (self.lower, self.upper)
    }

    /// The cell column of a position.
    pub open spec fn column_of(&self, p: Position) -> int {
        cell_of(p.x as int, self.extent().0.x as int, self.side() as int)
    }

    /// The cell row of a position.
    pub open spec fn row_of(&self, p: Position) -> int {
        cell_of(p.y as int, self.extent().0.y as int, self.side() as int)
    }

    /// The bucket key of the cell that a position falls into.
    pub open spec fn key_of(&self, p: Position) -> int {
        cell_key(self.column_of(p), self.row_of(p))
    }

    /// The keys of the cells that hold at least one particle.
    pub open spec fn occupied(&self) -> Set<u128> {
        Set::new(|k: u128| exists|i: int| 0 <= i < self@.len() && self.key_of(#[trigger] self@[i]) == k)
    }

    /// The particles in the cell with bucket key `key`, by index.
    pub open spec fn residents(&self, key: int) -> Set<usize> {
        Set::new(|i: usize| i < self@.len() && self.key_of(self@[i as int]) == key)
    }

    /// The order in which a query reports particles: by cell column, then by
    /// cell row, then by index.
    pub open spec fn reported_before(&self, i: usize, j: usize) -> bool {
        let a = self@[i as int];
        let b = self@[j as int];
        self.column_of(a) < self.column_of(b) || (self.column_of(a) == self.column_of(b) && (
            self.row_of(a) < self.row_of(b) || (self.row_of(a) == self.row_of(b) && i < j)))
    }

    spec fn bucket_ok(&self, k: u128) -> bool {
        let b = self.grid@[k]@;
        &&& b.len() > 0
        &&& forall|j: int|
            0 <= j < b.len() ==> (#[trigger] b[j]) < self@.len() && self.key_of(self@[b[j] as int]) == k
        &&& forall|j1: int, j2: int| 0 <= j1 < j2 < b.len() ==> b[j1] < b[j2]
    }

    spec fn filed(&self, i: int) -> bool {
        let k = self.key_of(self@[i]) as u128;
        self.grid@.contains_key(k) && self.grid@[k]@.contains(i as usize)
    }

    /// Every particle index sits in the bucket of the cell that its position
    /// falls into and in no other, and every bucket is in ascending order.
    pub closed spec fn wf(&self) -> bool {
        &&& self.cell_size > 0
        &&& forall|k: u128| #[trigger] self.grid@.contains_key(k) ==> self.bucket_ok(k)
        &&& forall|i: int| 0 <= i < self@.len() ==> #[trigger] self.filed(i)
    }

    /// The indices in the bucket with key `key`; none where there is no such
    /// bucket.
    pub closed spec fn bucket(&self, key: u128) -> Seq<usize> {
        if self.grid@.contains_key(key) {
            self.grid@[key]@
        } else {
            Seq::empty()
        }
    }

    /// In a well-formed grid every particle is filed once, in the bucket of
    /// the cell that its position falls into, and in no other bucket.
    pub proof fn lemma_each_filed_once(&self, i: usize, key: u128)
        requires
            self.wf(),
            i < self@.len(),
        ensures
            self.bucket(key).contains(i) <==> key == self.key_of(self@[i as int]),
            self.bucket(key).no_duplicates(),
    {
        let b = self.bucket(key);
        if self.grid@.contains_key(key) {
            assert(self.bucket_ok(key));
            assert forall|j1: int, j2: int| 0 <= j1 < b.len() && 0 <= j2 < b.len() && j1 != j2 implies b[j1]
                != b[j2] by {
                if j1 < j2 {
                    assert(b[j1] < b[j2]);
                } else {
                    assert(b[j2] < b[j1]);
                }
            }
            if b.contains(i) {
                let j = choose|j: int| 0 <= j < b.len() && b[j] == i;
                assert(self.key_of(self@[b[j] as int]) == key);
            }
        }
        assert(self.filed(i as int));
        self.lemma_cell_in_limit(i as int);
    }

    /// An empty grid with cells of side `cell_size`, whose cell `(0, 0)` has
    /// its lower corner at `bounds.0`.
    pub fn new(cell_size: u32, bounds: (Position, Position)) -> (grid: Self)
        requires
            cell_size > 0,
        ensures
            grid.wf(),
            grid@ == Seq::<Position>::empty(),
            grid.side() == cell_size,
            grid.extent() == bounds,
    {
        SpatialGrid {
            cell_size,
            lower: bounds.0,
            upper: bounds.1,
            grid: HashMap::new(),
            particle_positions: Vec::new(),
        }
    }

    /// The cell key of a position, computed.
    fn position_to_cell(&self, position: &Position) -> (cell: (i64, i64))
        requires
            self.cell_size > 0,
        ensures
            cell.0 == self.column_of(*position),
            cell.1 == self.row_of(*position),
            -CELL_LIMIT < cell.0 < CELL_LIMIT,
            -CELL_LIMIT < cell.1 < CELL_LIMIT,
    {
        let cx = cell_coord(position.x as i64, self.lower.x, self.cell_size);
        let cy = cell_coord(position.y as i64, self.lower.y, self.cell_size);
        (cx, cy)
    }

    spec fn hit(&self, i: int, p: Position, r: u32) -> bool {
        0 <= i < self@.len() && within_radius(self@[i], p, r)
    }

    spec fn passed(&self, i: int, x: int, y: int) -> bool {
        let c = self.column_of(self@[i]);
        c < x || (c == x && self.row_of(self@[i]) < y)
    }

    spec fn taken(&self, i: int, x: int, y: int, b: Seq<usize>, j: int) -> bool {
        self.passed(i, x, y) || (self.column_of(self@[i]) == x && self.row_of(self@[i]) == y && exists|
            w: int,
        | 0 <= w < j && #[trigger] b[w] == i)
    }

    /// A particle within `r` of `p` lies in a cell of the box of cells that
    /// the square around `p` overlaps.
    proof fn lemma_hit_in_box(&self, i: int, p: Position, r: u32)
        requires
            self.side() > 0,
            self.hit(i, p, r),
        ensures
            cell_of(p.x - r, self.extent().0.x as int, self.side() as int) <= self.column_of(self@[i]),
            self.column_of(self@[i]) <= cell_of(p.x + r, self.extent().0.x as int, self.side() as int),
            cell_of(p.y - r, self.extent().0.y as int, self.side() as int) <= self.row_of(self@[i]),
            self.row_of(self@[i]) <= cell_of(p.y + r, self.extent().0.y as int, self.side() as int),
    {
        let q = self@[i];
        let dx = q.x - p.x;
        let dy = q.y - p.y;
        let rr = r as int;
        assert(-rr <= dx <= rr && -rr <= dy <= rr) by (nonlinear_arith)
            requires
                dx * dx + dy * dy <= rr * rr,
                rr >= 0,
        ;
        let ox = self.extent().0.x as int;
        let oy = self.extent().0.y as int;
        let d = self.side() as int;
        lemma_div_is_ordered(p.x - r - ox, q.x - ox, d);
        lemma_div_is_ordered(q.x - ox, p.x + r - ox, d);
        lemma_div_is_ordered(p.y - r - oy, q.y - oy, d);
        lemma_div_is_ordered(q.y - oy, p.y + r - oy, d);
    }

    /// The indices of the particles within `radius` of `position`, each once,
    /// ordered by cell column, then cell row, then index.
    pub fn query_neighbors(&self, position: Position, radius: u32) -> (neighbors: Vec<usize>)
        requires
            self.wf(),
        ensures
            forall|t: int|
                0 <= t < neighbors.len() ==> (#[trigger] neighbors[t]) < self@.len() && within_radius(
                    self@[neighbors[t] as int],
                    position,
                    radius,
                ),
            forall|i: int|
                0 <= i < self@.len() && within_radius(#[trigger] self@[i], position, radius)
                    ==> neighbors@.contains(i as usize),
            forall|s: int, t: int|
                0 <= s < t < neighbors.len() ==> self.reported_before(
                    #[trigger] neighbors[s],
                    #[trigger] neighbors[t],
                ),
    {
        let mut neighbors: Vec<usize> = Vec::new();
        let min_x = cell_coord(position.x as i64 - radius as i64, self.lower.x, self.cell_size);
        let max_x = cell_coord(position.x as i64 + radius as i64, self.lower.x, self.cell_size);
        let min_y = cell_coord(position.y as i64 - radius as i64, self.lower.y, self.cell_size);
        let max_y = cell_coord(position.y as i64 + radius as i64, self.lower.y, self.cell_size);
        let count = self.particle_positions.len();
        proof {
            assert forall|i: int| #[trigger] self.hit(i, position, radius) implies min_x
                <= self.column_of(self@[i]) <= max_x && min_y <= self.row_of(self@[i]) <= max_y by {
                self.lemma_hit_in_box(i, position, radius);
            }
            lemma_div_is_ordered(
                position.x - radius - self.lower.x,
                position.x + radius - self.lower.x,
                self.cell_size as int,
            );
            lemma_div_is_ordered(
                position.y - radius - self.lower.y,
                position.y + radius - self.lower.y,
                self.cell_size as int,
            );
        }
        let mut x: i64 = min_x;
        while x <= max_x
            invariant
                self.wf(),
                -CELL_LIMIT < min_x < CELL_LIMIT,
                -CELL_LIMIT < max_x < CELL_LIMIT,
                -CELL_LIMIT < min_y < CELL_LIMIT,
                -CELL_LIMIT < max_y < CELL_LIMIT,
                min_x <= x <= max_x + 1,
                min_y <= max_y,
                self@.len() == count,
                forall|i: int| #[trigger]
                    self.hit(i, position, radius) ==> min_x <= self.column_of(self@[i]) <= max_x && min_y
                        <= self.row_of(self@[i]) <= max_y,
                forall|t: int|
                    0 <= t < neighbors.len() ==> self.hit(
                        (#[trigger] neighbors[t]) as int,
                        position,
                        radius,
                    ) && self.passed(neighbors[t] as int, x as int, min_y as int),
                forall|i: int|
                    self.hit(i, position, radius) && #[trigger] self.passed(i, x as int, min_y as int)
                        ==> neighbors@.contains(i as usize),
                forall|s: int, t: int|
                    0 <= s < t < neighbors.len() ==> self.reported_before(
                        #[trigger] neighbors[s],
                        #[trigger] neighbors[t],
                    ),
            decreases max_x + 1 - x,
        {
            let mut y: i64 = min_y;
            while y <= max_y
                invariant
                    self.wf(),
                    -CELL_LIMIT < min_x <= x <= max_x < CELL_LIMIT,
                    -CELL_LIMIT < min_y < CELL_LIMIT,
                    -CELL_LIMIT < max_y < CELL_LIMIT,
                    min_y <= y <= max_y + 1,
                    self@.len() == count,
                    forall|i: int| #[trigger]
                        self.hit(i, position, radius) ==> min_x <= self.column_of(self@[i]) <= max_x
                            && min_y <= self.row_of(self@[i]) <= max_y,
                    forall|t: int|
                        0 <= t < neighbors.len() ==> self.hit(
                            (#[trigger] neighbors[t]) as int,
                            position,
                            radius,
                        ) && self.passed(neighbors[t] as int, x as int, y as int),
                    forall|i: int|
                        self.hit(i, position, radius) && #[trigger] self.passed(i, x as int, y as int)
                            ==> neighbors@.contains(i as usize),
                    forall|s: int, t: int|
                        0 <= s < t < neighbors.len() ==> self.reported_before(
                            #[trigger] neighbors[s],
                            #[trigger] neighbors[t],
                        ),
                decreases max_y + 1 - y,
            {
                let key = pack_cell(x, y);
                let ghost mut b: Seq<usize> = Seq::empty();
                match self.grid.get(&key) {
                    Some(bucket) => {
                        proof {
                            b = bucket@;
                            assert(self.grid@.contains_key(key));
                            assert(self.bucket_ok(key));
                        }
                        let mut j: usize = 0;
                        while j < bucket.len()
                            invariant
                                self.wf(),
                                j <= bucket.len(),
                                self@.len() == count,
                                bucket@ == b,
                                self.grid@.contains_key(key),
                                self.grid@[key]@ == b,
                                self.bucket_ok(key),
                                key == cell_key(x as int, y as int),
                                -CELL_LIMIT < x < CELL_LIMIT,
                                -CELL_LIMIT < y < CELL_LIMIT,
                                forall|t: int|
                                    0 <= t < neighbors.len() ==> self.hit(
                                        (#[trigger] neighbors[t]) as int,
                                        position,
                                        radius,
                                    ) && self.taken(neighbors[t] as int, x as int, y as int, b, j as int),
                                forall|i: int|
                                    self.hit(i, position, radius) && #[trigger] self.taken(
                                        i,
                                        x as int,
                                        y as int,
                                        b,
                                        j as int,
                                    ) ==> neighbors@.contains(i as usize),
                                forall|s: int, t: int|
                                    0 <= s < t < neighbors.len() ==> self.reported_before(
                                        #[trigger] neighbors[s],
                                        #[trigger] neighbors[t],
                                    ),
                            decreases bucket.len() - j,
                        {
                            let index = bucket[j];
                            let ghost found = neighbors@;
                            proof {
                                assert(b[j as int] < self@.len());
                                assert(self.key_of(self@[index as int]) == key);
                                self.lemma_cell_in_limit(index as int);
                                lemma_cell_key_injective(
                                    self.column_of(self@[index as int]),
                                    self.row_of(self@[index as int]),
                                    x as int,
                                    y as int,
                                );
                            }
                            let inside = position.within(&self.particle_positions[index], radius);
                            proof {
                                lemma_within_symmetric(position, self@[index as int], radius);
                                assert(inside == self.hit(index as int, position, radius));
                            }
                            if inside {
                                neighbors.push(index);
                                proof {
                                    assert forall|s: int, t: int|
                                        0 <= s < t < neighbors.len() implies self.reported_before(
                                        #[trigger] neighbors[s],
                                        #[trigger] neighbors[t],
                                    ) by {
                                        if t == found.len() {
                                            assert(neighbors[s] == found[s]);
                                            assert(self.taken(found[s] as int, x as int, y as int, b, j as int));
                                            if !self.passed(found[s] as int, x as int, y as int) {
                                                let w = choose|w: int| 0 <= w < j && #[trigger] b[w] == found[s];
                                                assert(b[w] < b[j as int]);
                                            }
                                        } else {
                                            assert(neighbors[s] == found[s]);
                                            assert(neighbors[t] == found[t]);
                                        }
                                    }
                                }
                            }
                            proof {
                                assert forall|t: int| 0 <= t < neighbors.len() implies self.hit(
                                    (#[trigger] neighbors[t]) as int,
                                    position,
                                    radius,
                                ) && self.taken(neighbors[t] as int, x as int, y as int, b, j as int + 1) by {
                                    if t < found.len() {
                                        assert(neighbors[t] == found[t]);
                                        assert(self.taken(found[t] as int, x as int, y as int, b, j as int));
                                        if !self.passed(found[t] as int, x as int, y as int) {
                                            let w = choose|w: int| 0 <= w < j && #[trigger] b[w] == found[t];
                                            assert(0 <= w < j + 1 && b[w] == found[t]);
                                        }
                                    } else {
                                        assert(neighbors[t] == index);
                                        assert(b[j as int] == index);
                                    }
                                }
                                assert forall|i: int|
                                    self.hit(i, position, radius) && #[trigger] self.taken(
                                        i,
                                        x as int,
                                        y as int,
                                        b,
                                        j as int + 1,
                                    ) implies neighbors@.contains(i as usize) by {
                                    if self.taken(i, x as int, y as int, b, j as int) {
                                        let w = choose|w: int| 0 <= w < found.len() && found[w] == i as usize;
                                        assert(neighbors[w] == i as usize);
                                    } else {
                                        let w = choose|w: int| 0 <= w < j + 1 && #[trigger] b[w] == i;
                                        assert(w == j);
                                        assert(i == index);
                                        assert(neighbors[found.len() as int] == index);
                                    }
                                }
                            }
                            j = j + 1;
                        }
                    },
                    None => {
                        proof {
                            assert(!self.grid@.contains_key(key));
                        }
                    },
                }
                proof {
                    assert forall|i: int|
                        self.hit(i, position, radius) && #[trigger] self.passed(
                            i,
                            x as int,
                            y as int + 1,
                        ) implies neighbors@.contains(i as usize) by {
                        if !self.passed(i, x as int, y as int) {
                            assert(self.filed(i));
                            assert(self.column_of(self@[i]) == x && self.row_of(self@[i]) == y);
                            assert(self.key_of(self@[i]) == key);
                            assert(self.grid@.contains_key(key));
                            assert(self.grid@[key]@ == b);
                            assert(b.contains(i as usize));
                            let w = choose|w: int| 0 <= w < b.len() && b[w] == i as usize;
                            assert(b[w] == i);
                        }
                        assert(self.taken(i, x as int, y as int, b, b.len() as int));
                    }
                }
                y = y + 1;
            }
            proof {
                assert forall|t: int| 0 <= t < neighbors.len() implies self.passed(
                    (#[trigger] neighbors[t]) as int,
                    x as int + 1,
                    min_y as int,
                ) by {
                    assert(self.passed(neighbors[t] as int, x as int, y as int));
                }
                assert forall|i: int|
                    self.hit(i, position, radius) && #[trigger] self.passed(
                        i,
                        x as int + 1,
                        min_y as int,
                    ) implies neighbors@.contains(i as usize) by {
                    assert(self.passed(i, x as int, y as int));
                }
            }
            x = x + 1;
        }
        proof {
            assert forall|i: int|
                0 <= i < self@.len() && within_radius(
                    #[trigger] self@[i],
                    position,
                    radius,
                ) implies neighbors@.contains(i as usize) by {
                assert(self.hit(i, position, radius));
                assert(self.passed(i, x as int, min_y as int));
            }
        }
        neighbors
    }

    /// The particles within `radius` of particle `particle_index`, without
    /// that particle itself, in the order of `query_neighbors`; none where the
    /// grid indexes no such particle.
    pub fn query_neighbors_in_range(&self, particle_index: usize, radius: u32) -> (neighbors: Vec<usize>)
        requires
            self.wf(),
        ensures
            particle_index >= self@.len() ==> neighbors@.len() == 0,
            forall|t: int|
                0 <= t < neighbors.len() ==> (#[trigger] neighbors[t]) < self@.len() && neighbors[t]
                    != particle_index && within_radius(
                    self@[neighbors[t] as int],
                    self@[particle_index as int],
                    radius,
                ),
            forall|i: int|
                0 <= i < self@.len() && particle_index < self@.len() && i != particle_index
                    && within_radius(#[trigger] self@[i], self@[particle_index as int], radius)
                    ==> neighbors@.contains(i as usize),
            forall|s: int, t: int|
                0 <= s < t < neighbors.len() ==> self.reported_before(
                    #[trigger] neighbors[s],
                    #[trigger] neighbors[t],
                ),
    {
        let mut others: Vec<usize> = Vec::new();
        if particle_index < self.particle_positions.len() {
            let position = self.particle_positions[particle_index];
            let found = self.query_neighbors(position, radius);
            let mut k: usize = 0;
            while k < found.len()
                invariant
                    k <= found.len(),
                    forall|t: int|
                        0 <= t < others.len() ==> (#[trigger] others[t]) != particle_index && exists|s: int|
                            0 <= s < k && found[s] == others[t],
                    forall|s: int|
                        0 <= s < k && (#[trigger] found[s]) != particle_index ==> others@.contains(found[s]),
                    forall|s: int, t: int|
                        0 <= s < t < found.len() ==> self.reported_before(
                            #[trigger] found[s],
                            #[trigger] found[t],
                        ),
                    forall|s: int, t: int|
                        0 <= s < t < others.len() ==> self.reported_before(
                            #[trigger] others[s],
                            #[trigger] others[t],
                        ),
                decreases found.len() - k,
            {
                let candidate = found[k];
                let ghost kept = others@;
                if candidate != particle_index {
                    others.push(candidate);
                    proof {
                        assert forall|s: int, t: int| 0 <= s < t < others.len() implies self.reported_before(
                            #[trigger] others[s],
                            #[trigger] others[t],
                        ) by {
                            assert(others[s] == kept[s]);
                            if t == kept.len() {
                                let w = choose|w: int| 0 <= w < k && found[w] == kept[s];
                                assert(self.reported_before(found[w], found[k as int]));
                            } else {
                                assert(others[t] == kept[t]);
                            }
                        }
                    }
                }
                proof {
                    assert forall|t: int| 0 <= t < others.len() implies (#[trigger] others[t]) != particle_index
                        && exists|s: int| 0 <= s < k + 1 && found[s] == others[t] by {
                        if t < kept.len() {
                            assert(others[t] == kept[t]);
                            let w = choose|w: int| 0 <= w < k && found[w] == kept[t];
                            assert(0 <= w < k + 1 && found[w] == others[t]);
                        } else {
                            assert(found[k as int] == others[t]);
                        }
                    }
                    assert forall|s: int| 0 <= s < k + 1 && (#[trigger] found[s]) != particle_index implies others@.contains(
                        found[s],
                    ) by {
                        if s < k {
                            let w = choose|w: int| 0 <= w < kept.len() && kept[w] == found[s];
                            assert(others[w] == found[s]);
                        } else {
                            assert(others[kept.len() as int] == found[s]);
                        }
                    }
                }
                k = k + 1;
            }
            proof {
                assert forall|t: int| 0 <= t < others.len() implies (#[trigger] others[t]) < self@.len()
                    && within_radius(self@[others[t] as int], self@[particle_index as int], radius) by {
                    let w = choose|w: int| 0 <= w < k && found[w] == others[t];
                    assert(found[w] < self@.len());
                }
                assert forall|i: int|
                    0 <= i < self@.len() && i != particle_index && within_radius(
                        #[trigger] self@[i],
                        self@[particle_index as int],
                        radius,
                    ) implies others@.contains(i as usize) by {
                    assert(found@.contains(i as usize));
                    let w = choose|w: int| 0 <= w < found.len() && found[w] == i as usize;
                    assert(found[w] != particle_index);
                }
            }
        }
        others
    }

    /// The number of cells that hold at least one particle.
    pub fn get_cell_count(&self) -> (count: usize)
        requires
            self.wf(),
        ensures
            count == self.occupied().len(),
    {
        proof {
            assert forall|k: u128| self.grid@.dom().contains(k) implies self.occupied().contains(k) by {
                assert(self.grid@.contains_key(k));
                assert(self.bucket_ok(k));
                let first = self.grid@[k]@[0];
                assert(self.key_of(self@[first as int]) == k);
            }
            assert forall|k: u128| self.occupied().contains(k) implies self.grid@.dom().contains(k) by {
                let i = choose|i: int| 0 <= i < self@.len() && self.key_of(#[trigger] self@[i]) == k;
                assert(self.filed(i));
            }
            assert(self.grid@.dom() =~= self.occupied());
        }
        self.grid.len()
    }

    /// A bucket holds each resident of its cell once.
    proof fn lemma_bucket_holds_residents(&self, k: u128)
        requires
            self.wf(),
            self.grid@.contains_key(k),
        ensures
            self.grid@[k]@.len() == self.residents(k as int).len(),
    {
        let b = self.grid@[k]@;
        assert(self.bucket_ok(k));
        assert(b.no_duplicates()) by {
            assert forall|j1: int, j2: int| 0 <= j1 < b.len() && 0 <= j2 < b.len() && j1 != j2 implies b[j1]
                != b[j2] by {
                if j1 < j2 {
                    assert(b[j1] < b[j2]);
                } else {
                    assert(b[j2] < b[j1]);
                }
            }
        }
        b.unique_seq_to_set();
        assert forall|i: usize| self.residents(k as int).contains(i) implies b.to_set().contains(i) by {
            assert(self.filed(i as int));
        }
        assert(b.to_set() =~= self.residents(k as int));
    }

    /// The largest number of particles that share a cell; zero for a grid
    /// without particles.
    pub fn get_max_particles_per_cell(&self) -> (most: usize)
        requires
            self.wf(),
        ensures
            self@.len() == 0 ==> most == 0,
            forall|i: int|
                0 <= i < self@.len() ==> self.residents(self.key_of(#[trigger] self@[i])).len() <= most,
            self@.len() > 0 ==> exists|i: int|
                0 <= i < self@.len() && self.residents(self.key_of(#[trigger] self@[i])).len() == most,
    {
        let mut most: usize = 0;
        let mut index: usize = 0;
        while index < self.particle_positions.len()
            invariant
                self.wf(),
                index <= self@.len(),
                index == 0 ==> most == 0,
                forall|i: int|
                    0 <= i < index ==> self.residents(self.key_of(#[trigger] self@[i])).len() <= most,
                index > 0 ==> exists|i: int|
                    0 <= i < index && self.residents(self.key_of(#[trigger] self@[i])).len() == most,
            decreases self@.len() - index,
        {
            let cell = self.position_to_cell(&self.particle_positions[index]);
            let key = pack_cell(cell.0, cell.1);
            proof {
                assert(self.filed(index as int));
                self.lemma_bucket_holds_residents(key);
            }
            let size = match self.grid.get(&key) {
                Some(bucket) => bucket.len(),
                None => 0,
            };
            if size > most {
                most = size;
            }
            index = index + 1;
        }
        most
    }

    /// The cell of an indexed position lies inside the key limit.
    proof fn lemma_cell_in_limit(&self, i: int)
        requires
            self.side() > 0,
            0 <= i < self@.len(),
        ensures
            -CELL_LIMIT < self.column_of(self@[i]) < CELL_LIMIT,
            -CELL_LIMIT < self.row_of(self@[i]) < CELL_LIMIT,
    {
        let q = self@[i];
        lemma_cell_bounds(q.x - self.extent().0.x, self.side() as int);
        lemma_cell_bounds(q.y - self.extent().0.y, self.side() as int);
    }

    /// Forgets the indexed positions and indexes `positions` instead:
    /// particle `i` is the one at `positions[i]`.
    pub fn update(&mut self, positions: &Vec<Position>)
        requires
            old(self).wf(),
        ensures
            final(self).wf(),
            final(self)@ == positions@,
            final(self).side() == old(self).side(),
            final(self).extent() == old(self).extent(),
    {
        self.grid.clear();
        self.particle_positions.clear();
        let mut index: usize = 0;
        while index < positions.len()
            invariant
                index <= positions.len(),
                self.cell_size == old(self).cell_size,
                self.lower == old(self).lower,
                self.upper == old(self).upper,
                self.particle_positions@ == positions@.take(index as int),
                self.wf(),
            decreases positions.len() - index,
        {
            let ghost before = *self;
            let position = positions[index];
            let cell = self.position_to_cell(&position);
            let key = pack_cell(cell.0, cell.1);
            let mut bucket: Vec<usize> = match self.grid.remove(&key) {
                Some(bucket) => bucket,
                None => Vec::new(),
            };
            let ghost prior = bucket@;
            bucket.push(index);
            self.grid.insert(key, bucket);
            self.particle_positions.push(position);
            proof {
                assert(self.particle_positions@ =~= positions@.take(index as int + 1));
                assert(before.grid@.contains_key(key) ==> before.bucket_ok(key));
                assert forall|k: u128| #[trigger] self.grid@.contains_key(k) implies self.bucket_ok(k) by {
                    if k == key {
                        let b = self.grid@[k]@;
                        assert(b == prior.push(index));
                        assert forall|j: int| 0 <= j < b.len() implies (#[trigger] b[j]) < self@.len()
                            && self.key_of(self@[b[j] as int]) == k by {
                            if j < prior.len() {
                                assert(b[j] == prior[j]);
                                assert(before@[prior[j] as int] == self@[prior[j] as int]);
                            }
                        }
                        assert forall|j1: int, j2: int| 0 <= j1 < j2 < b.len() implies b[j1] < b[j2] by {
                            assert(b[j1] == prior[j1]);
                        }
                    } else {
                        assert(before.grid@.contains_key(k));
                        assert(before.bucket_ok(k));
                        let b = self.grid@[k]@;
                        assert forall|j: int| 0 <= j < b.len() implies (#[trigger] b[j]) < self@.len()
                            && self.key_of(self@[b[j] as int]) == k by {
                            assert(before@[b[j] as int] == self@[b[j] as int]);
                        }
                    }
                }
                assert forall|i: int| 0 <= i < self@.len() implies #[trigger] self.filed(i) by {
                    if i < index {
                        assert(before.filed(i));
                        assert(before@[i] == self@[i]);
                        let k = self.key_of(self@[i]) as u128;
                        if k == key {
                            let w = choose|w: int| 0 <= w < prior.len() && prior[w] == i as usize;
                            assert(prior.push(index)[w] == i as usize);
                        }
                    } else {
                        assert(prior.push(index)[prior.len() as int] == index);
                    }
                }
            }
            index = index + 1;
        }
        proof {
            assert(positions@.take(positions.len() as int) =~= positions@);
        }
    }
}

} // verus!
