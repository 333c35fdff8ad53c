//! What holds of every quadtree: a tree filled from a list of positions
//! holds each particle inside its rectangle once, and in a place where every
//! query for it looks; so a query reports exactly the particles it asks for.
use crate::quadtree::any_index;
use crate::quadtree::any_rectangle;
use crate::quadtree::lies_in_range;
use crate::quadtree::lies_within;
use crate::quadtree::meets_range;
use crate::quadtree::meets_square;
use crate::quadtree::Quad;
use crate::sequences::lemma_occurrences_add;
use crate::sequences::lemma_occurrences_contains;
use crate::sequences::lemma_occurrences_no_duplicates;
use crate::sequences::lemma_occurrences_push;
use crate::sequences::occurrences;
use crate::spatial::in_range;
use crate::spatial::within_radius;
use crate::spatial::Position;
use vstd::prelude::*;

verus! {

/// The hits in the quadrants after one quadrant was changed: the hits in
/// that quadrant are exchanged.
pub proof fn lemma_hits_in_update(
    quadrants: Seq<Quad>,
    k: int,
    changed: Quad,
    n: int,
    meets: spec_fn(Position, Position) -> bool,
    wanted: spec_fn(usize) -> bool,
    x: usize,
)
    requires
        0 <= k < quadrants.len(),
        0 <= n <= quadrants.len(),
    ensures
        occurrences(Quad::hits_in(quadrants.update(k, changed), n, meets, wanted), x) + (if k < n {
            occurrences(quadrants[k].hits(meets, wanted), x)
        } else {
            0
        }) == occurrences(Quad::hits_in(quadrants, n, meets, wanted), x) + (if k < n {
            occurrences(changed.hits(meets, wanted), x)
        } else {
            0
        }),
    decreases n,
{
    if n > 0 {
        lemma_hits_in_update(quadrants, k, changed, n - 1, meets, wanted, x);
        let after = quadrants.update(k, changed);
        lemma_occurrences_add(
            Quad::hits_in(after, n - 1, meets, wanted),
            after[n - 1].hits(meets, wanted),
            x,
        );
        lemma_occurrences_add(
            Quad::hits_in(quadrants, n - 1, meets, wanted),
            quadrants[n - 1].hits(meets, wanted),
            x,
        );
    }
}

/// Quadrants without items and without quadrants give no hits.
pub proof fn lemma_hits_in_empty(
    quadrants: Seq<Quad>,
    n: int,
    meets: spec_fn(Position, Position) -> bool,
    wanted: spec_fn(usize) -> bool,
)
    requires
        0 <= n <= quadrants.len(),
        forall|k: int|
            0 <= k < quadrants.len() ==> (#[trigger] quadrants[k]).items.len() == 0 && quadrants[k].quadrants.len()
                == 0,
    ensures
        Quad::hits_in(quadrants, n, meets, wanted) == Seq::<usize>::empty(),
    decreases n,
{
    reveal(Seq::filter);
    if n > 0 {
        lemma_hits_in_empty(quadrants, n - 1, meets, wanted);
        let q = quadrants[n - 1];
        assert(q.items.len() == 0 && q.quadrants.len() == 0);
        assert(q.items.filter(wanted) =~= Seq::<usize>::empty());
        assert(Quad::hits_in(q.quadrants, 0, meets, wanted) =~= Seq::<usize>::empty());
        assert(q.hits(meets, wanted) =~= Seq::<usize>::empty());
        assert(Quad::hits_in(quadrants, n, meets, wanted) =~= Seq::<usize>::empty());
    }
}

/// What a query finds after an insertion, where the query passes over no
/// rectangle that contains the inserted point if it wants the inserted
/// particle: what it found before, and the inserted particle once more if it
/// wants it and the point lies in the tree.
pub proof fn lemma_inserted_hits(
    tree: Quad,
    index: usize,
    p: Position,
    meets: spec_fn(Position, Position) -> bool,
    wanted: spec_fn(usize) -> bool,
    x: usize,
)
    requires
        tree.wf(),
        wanted(index) ==> forall|lower: Position, upper: Position|
            lower.x <= p.x <= upper.x && lower.y <= p.y <= upper.y ==> #[trigger] meets(lower, upper),
    ensures
        occurrences(tree.inserted(index, p).hits(meets, wanted), x) == occurrences(tree.hits(meets, wanted), x)
            + if x == index && wanted(index) && tree.contains_point(p) {
            1nat
        } else {
            0nat
        },
    decreases tree.depth_limit - tree.depth,
{
    let after = tree.inserted(index, p);
    if !tree.contains_point(p) {
    } else if tree.items.len() < tree.capacity || tree.depth >= tree.depth_limit {
        lemma_own_item_hits(tree, tree, index, p, meets, wanted, x);
    } else {
        let s = if tree.quadrants.len() == 0 {
            tree.subdivided()
        } else {
            tree
        };
        if tree.quadrants.len() == 0 {
            tree.lemma_subdivided_wf();
            lemma_hits_in_empty(s.quadrants, 4, meets, wanted);
            assert(Quad::hits_in(tree.quadrants, 0, meets, wanted) =~= Seq::<usize>::empty());
            assert(s.hits(meets, wanted) =~= tree.hits(meets, wanted));
        }
        assert(s.wf());
        let k = s.first_containing(p, 0);
        if k < s.quadrants.len() && s.quadrant_fits(k) {
            s.lemma_first_containing(p, 0);
            let child = s.quadrants[k];
            let grown = child.inserted(index, p);
            assert(child.wf());
            lemma_inserted_hits(child, index, p, meets, wanted, x);
            lemma_hits_in_update(s.quadrants, k, grown, s.quadrants.len() as int, meets, wanted, x);
            if meets(s.lower, s.upper) {
                lemma_occurrences_add(
                    s.items.filter(wanted),
                    Quad::hits_in(s.quadrants, s.quadrants.len() as int, meets, wanted),
                    x,
                );
                lemma_occurrences_add(
                    after.items.filter(wanted),
                    Quad::hits_in(after.quadrants, after.quadrants.len() as int, meets, wanted),
                    x,
                );
            } else {
                assert(!wanted(index));
            }
        } else {
            lemma_own_item_hits(tree, s, index, p, meets, wanted, x);
        }
    }
}

/// The step of `lemma_inserted_hits` for a node that takes the particle
/// itself: `node` is the tree, or the tree divided, and gains the item.
proof fn lemma_own_item_hits(
    tree: Quad,
    node: Quad,
    index: usize,
    p: Position,
    meets: spec_fn(Position, Position) -> bool,
    wanted: spec_fn(usize) -> bool,
    x: usize,
)
    requires
        tree.contains_point(p),
        node.lower == tree.lower,
        node.upper == tree.upper,
        node.hits(meets, wanted) == tree.hits(meets, wanted),
        wanted(index) ==> forall|lower: Position, upper: Position|
            lower.x <= p.x <= upper.x && lower.y <= p.y <= upper.y ==> #[trigger] meets(lower, upper),
    ensures
        occurrences((Quad { items: node.items.push(index), ..node }).hits(meets, wanted), x) == occurrences(
            tree.hits(meets, wanted),
            x,
        ) + if x == index && wanted(index) && tree.contains_point(p) {
            1nat
        } else {
            0nat
        },
{
    let after = Quad { items: node.items.push(index), ..node };
    if meets(node.lower, node.upper) {
        let below = Quad::hits_in(node.quadrants, node.quadrants.len() as int, meets, wanted);
        Seq::lemma_filter_push(node.items, index, wanted);
        lemma_occurrences_add(node.items.filter(wanted), below, x);
        lemma_occurrences_add(after.items.filter(wanted), below, x);
        if wanted(index) {
            lemma_occurrences_push(node.items.filter(wanted), index, x);
        }
    } else {
        assert(!wanted(index));
    }
}

/// What a query finds in a tree filled with particles `0` to `n - 1`, where
/// for each particle that the query wants it passes over no rectangle that
/// contains the particle's position: each wanted particle inside the tree's
/// rectangle once, and nothing else.
pub proof fn lemma_populated_hits(
    root: Quad,
    positions: Seq<Position>,
    n: int,
    meets: spec_fn(Position, Position) -> bool,
    wanted: spec_fn(usize) -> bool,
    x: usize,
)
    requires
        root.wf(),
        0 <= n <= positions.len(),
        positions.len() <= usize::MAX,
        forall|i: usize, lower: Position, upper: Position|
            i < n && wanted(i) && lower.x <= positions[i as int].x <= upper.x && lower.y <= positions[i as int].y
                <= upper.y ==> #[trigger] meets(lower, upper) || !#[trigger] wanted(i),
    ensures
        occurrences(root.cleared().populated(positions, n).hits(meets, wanted), x) == if x < n && wanted(x)
            && root.contains_point(positions[x as int]) {
            1nat
        } else {
            0nat
        },
    decreases n,
{
    reveal(Seq::filter);
    let empty = root.cleared();
    if n == 0 {
        assert(empty.items.filter(wanted) =~= Seq::<usize>::empty());
        assert(Quad::hits_in(empty.quadrants, 0, meets, wanted) =~= Seq::<usize>::empty());
        assert(empty.hits(meets, wanted) =~= Seq::<usize>::empty());
    } else {
        lemma_populated_hits(root, positions, n - 1, meets, wanted, x);
        let before = empty.populated(positions, n - 1);
        let index = (n - 1) as usize;
        let p = positions[n - 1];
        assert(empty.wf());
        empty.lemma_populated_frame(positions, n - 1);
        assert forall|lower: Position, upper: Position|
            wanted(index) && lower.x <= p.x <= upper.x && lower.y <= p.y <= upper.y implies #[trigger] meets(
            lower,
            upper,
        ) by {
            assert(meets(lower, upper) || !wanted(index));
        }
        lemma_inserted_hits(before, index, p, meets, wanted, x);
    }
}

/// A filled tree holds every particle whose position lies in its rectangle
/// once, and holds no other.
pub proof fn lemma_populated_holds_each_once(root: Quad, positions: Seq<Position>, x: usize)
    requires
        root.wf(),
        positions.len() <= usize::MAX,
    ensures
        occurrences(root.cleared().populated(positions, positions.len() as int).stored(), x) == if x
            < positions.len() && root.contains_point(positions[x as int]) {
            1nat
        } else {
            0nat
        },
{
    lemma_populated_hits(root, positions, positions.len() as int, any_rectangle(), any_index(), x);
}

/// The test whether the rectangle from `lower` to `upper` contains `p`.
pub open spec fn rectangle_holds(p: Position) -> spec_fn(Position, Position) -> bool {
    |lower: Position, upper: Position| lower.x <= p.x <= upper.x && lower.y <= p.y <= upper.y
}

/// The test for the index `x`.
pub open spec fn is_index(x: usize) -> spec_fn(usize) -> bool {
    |i: usize| i == x
}

/// A filled tree holds a particle whose position lies in its rectangle in a
/// node whose rectangle contains the position, as do the rectangles of all
/// nodes above it: looking only into rectangles that contain the position
/// finds the particle.
pub proof fn lemma_stored_where_it_lies(root: Quad, positions: Seq<Position>, x: usize)
    requires
        root.wf(),
        positions.len() <= usize::MAX,
        x < positions.len(),
        root.contains_point(positions[x as int]),
    ensures
        occurrences(
            root.cleared().populated(positions, positions.len() as int).hits(
                rectangle_holds(positions[x as int]),
                is_index(x),
            ),
            x,
        ) == 1,
{
    lemma_populated_hits(
        root,
        positions,
        positions.len() as int,
        rectangle_holds(positions[x as int]),
        is_index(x),
        x,
    );
}

/// A rectangle query on a filled tree reports, each once, the particles
/// whose position lies in the tree's rectangle and in the range, and no
/// others.
pub proof fn lemma_range_query_exact(root: Quad, positions: Seq<Position>, range: (Position, Position))
    requires
        root.wf(),
        positions.len() <= usize::MAX,
    ensures
        ({
            let found = root.cleared().populated(positions, positions.len() as int).range_hits(range, positions);
            &&& found.no_duplicates()
            &&& forall|x: usize|
                found.contains(x) <==> x < positions.len() && root.contains_point(positions[x as int])
                    && in_range(positions[x as int], range)
        }),
{
    let meets = meets_range(range);
    let wanted = lies_in_range(range, positions);
    let found = root.cleared().populated(positions, positions.len() as int).range_hits(range, positions);
    assert forall|x: usize|
        occurrences(found, x) == if x < positions.len() && wanted(x) && root.contains_point(positions[x as int]) {
            1nat
        } else {
            0nat
        } by {
        lemma_populated_hits(root, positions, positions.len() as int, meets, wanted, x);
    }
    assert forall|x: usize| occurrences(found, x) <= 1 by {}
    lemma_occurrences_no_duplicates(found);
    assert forall|x: usize|
        found.contains(x) <==> x < positions.len() && root.contains_point(positions[x as int]) && in_range(
            positions[x as int],
            range,
        ) by {
        lemma_occurrences_contains(found, x);
    }
}

/// A radius query on a filled tree reports, each once, the particles whose
/// position lies in the tree's rectangle and within the radius, and no
/// others.
pub proof fn lemma_radius_query_exact(root: Quad, positions: Seq<Position>, center: Position, radius: u32)
    requires
        root.wf(),
        positions.len() <= usize::MAX,
    ensures
        ({
            let found = root.cleared().populated(positions, positions.len() as int).radius_hits(
                center,
                radius,
                positions,
            );
            &&& found.no_duplicates()
            &&& forall|x: usize|
                found.contains(x) <==> x < positions.len() && root.contains_point(positions[x as int])
                    && within_radius(center, positions[x as int], radius)
        }),
{
    let meets = meets_square(center, radius);
    let wanted = lies_within(center, radius, positions);
    let found = root.cleared().populated(positions, positions.len() as int).radius_hits(center, radius, positions);
    assert forall|i: usize, lower: Position, upper: Position|
        i < positions.len() && wanted(i) && lower.x <= positions[i as int].x <= upper.x && lower.y
            <= positions[i as int].y <= upper.y implies #[trigger] meets(lower, upper) || !#[trigger] wanted(i) by {
        let q = positions[i as int];
        let dx = center.x - q.x;
        let dy = center.y - q.y;
        let r = radius as int;
        assert(-r <= dx <= r && -r <= dy <= r) by (nonlinear_arith)
            requires
                dx * dx + dy * dy <= r * r,
                r >= 0,
        ;
    }
    assert forall|x: usize|
        occurrences(found, x) == if x < positions.len() && wanted(x) && root.contains_point(positions[x as int]) {
            1nat
        } else {
            0nat
        } by {
        lemma_populated_hits(root, positions, positions.len() as int, meets, wanted, x);
    }
    assert forall|x: usize| occurrences(found, x) <= 1 by {}
    lemma_occurrences_no_duplicates(found);
    assert forall|x: usize|
        found.contains(x) <==> x < positions.len() && root.contains_point(positions[x as int]) && within_radius(
            center,
            positions[x as int],
            radius,
        ) by {
        lemma_occurrences_contains(found, x);
    }
}

} // verus!
