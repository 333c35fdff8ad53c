use inochi::spatial::{Position, QuadTree, QuadTreeManager, SpatialGrid, SpatialPartitioning};

fn at(x: i32, y: i32) -> Position {
    Position::new(x, y)
}

#[test]
fn test_spatial_grid() {
    let mut grid = SpatialGrid::new(10, (at(-50, -50), at(50, 50)));

    let particles = vec![at(5, 5), at(15, 15), at(-5, -5)];

    grid.update(&particles);

    let neighbors = grid.query_neighbors(at(0, 0), 20);
    assert!(!neighbors.is_empty());
}

#[test]
fn test_quadtree() {
    let mut manager = QuadTreeManager::new((at(-100, -100), at(100, 100)), 4, 8);

    let particles = vec![at(10, 10), at(20, 20), at(-10, -10), at(50, 50)];

    manager.update(&particles);

    let neighbors = manager.query_neighbors(at(15, 15), 25);
    assert!(neighbors.len() >= 2);
}

#[test]
fn test_quadtree_range_query() {
    let mut manager = QuadTreeManager::new((at(-100, -100), at(100, 100)), 4, 8);

    let particles = vec![at(10, 10), at(20, 20), at(-50, -50)];

    manager.update(&particles);

    let range_results = manager.query_range((at(0, 0), at(30, 30)));
    assert_eq!(range_results.len(), 2);
}

#[test]
fn test_spatial_partitioning_enum() {
    let mut spatial = SpatialPartitioning::new_grid(10, (at(-50, -50), at(50, 50)));

    let particles = vec![at(5, 5), at(15, 15)];

    spatial.update(&particles);

    let neighbors = spatial.query_neighbors(at(10, 10), 10);
    assert!(!neighbors.is_empty());
}

#[test]
fn grid_radius_query_filters_by_exact_distance() {
    let mut grid = SpatialGrid::new(10, (at(-50, -50), at(50, 50)));
    grid.update(&vec![at(5, 5), at(15, 15)]);
    // (15, 15) is about 21.2 away from the origin, (5, 5) about 7.07.
    assert_eq!(grid.query_neighbors(at(0, 0), 22), vec![0, 1]);
    assert_eq!(grid.query_neighbors(at(0, 0), 20), vec![0]);
    assert_eq!(grid.query_neighbors(at(0, 0), 6), Vec::<usize>::new());
}

#[test]
fn grid_reports_by_column_then_row_then_index() {
    let mut grid = SpatialGrid::new(10, (at(0, 0), at(100, 100)));
    grid.update(&vec![at(25, 5), at(5, 25), at(5, 5), at(6, 6), at(-5, 5)]);
    assert_eq!(grid.query_neighbors(at(10, 10), 40), vec![4, 2, 3, 1, 0]);
    assert_eq!(grid.get_cell_count(), 4);
    assert_eq!(grid.get_max_particles_per_cell(), 2);
    assert_eq!(grid.query_neighbors_in_range(2, 40), vec![4, 3, 1, 0]);
    assert_eq!(grid.query_neighbors_in_range(9, 40), Vec::<usize>::new());
}

#[test]
fn quadtree_divides_when_full() {
    let mut tree = QuadTree::new((at(0, 0), at(100, 100)), 1, 4);
    assert!(tree.insert(0, at(10, 10)));
    assert_eq!(tree.get_node_count(), 1);
    assert!(tree.insert(1, at(90, 90)));
    assert_eq!(tree.get_node_count(), 5);
    assert_eq!(tree.get_max_depth(), 1);
    assert!(!tree.insert(2, at(101, 0)));
    let positions = vec![at(10, 10), at(90, 90), at(101, 0)];
    let mut found = Vec::new();
    tree.query_range((at(50, 50), at(100, 100)), &mut found, &positions);
    assert_eq!(found, vec![1]);
    let mut near = Vec::new();
    tree.query_radius(at(0, 0), 15, &mut near, &positions);
    assert_eq!(near, vec![0]);
    tree.clear();
    assert_eq!(tree.get_node_count(), 1);
}

fn sorted(mut v: Vec<usize>) -> Vec<usize> {
    v.sort();
    v
}

#[test]
fn quadtree_query_finds_each_particle_in_reach_once() {
    let mut manager = QuadTreeManager::new((at(0, 0), at(64, 64)), 1, 3);
    let positions = vec![
        at(1, 1),
        at(2, 2),
        at(3, 3),
        at(33, 33),
        at(32, 32),
        at(64, 64),
        at(65, 1),
        at(1, 1),
        at(0, 64),
        at(4, 4),
    ];
    manager.update(&positions);
    // every particle inside the rectangle, once; (65, 1) lies outside
    assert_eq!(sorted(manager.query_range((at(-100, -100), at(100, 100)))), vec![0, 1, 2, 3, 4, 5, 7, 8, 9]);
    assert_eq!(sorted(manager.query_range((at(2, 2), at(32, 32)))), vec![1, 2, 4, 9]);
    assert_eq!(sorted(manager.query_neighbors(at(0, 0), 3)), vec![0, 1, 7]);
    assert_eq!(sorted(manager.query_neighbors(at(0, 0), 5)), vec![0, 1, 2, 7]);
    assert_eq!(sorted(manager.query_neighbors(at(66, 1), 2)), Vec::<usize>::new());
    assert_eq!(sorted(manager.query_neighbors_for_particle(0, 3)), vec![1, 2, 7]);
    assert_eq!(manager.query_neighbors_for_particle(10, 3), Vec::<usize>::new());
    let statistics = manager.get_statistics();
    assert_eq!(statistics.particle_count, 10);
    assert_eq!(statistics.max_depth, 3);
    assert_eq!(statistics.node_count % 4, 1);
    // a rebuild forgets what was there
    manager.update(&vec![at(10, 10)]);
    assert_eq!(manager.query_range((at(0, 0), at(64, 64))), vec![0]);
    assert_eq!(manager.get_statistics().node_count, 1);
}

#[test]
fn quadtree_reports_a_node_before_its_quadrants() {
    let mut manager = QuadTreeManager::new((at(0, 0), at(100, 100)), 2, 4);
    manager.update(&vec![at(90, 90), at(10, 10), at(60, 60), at(20, 20), at(80, 10)]);
    // the root keeps the first two; the others go lower-left, lower-right, upper-right
    assert_eq!(manager.query_range((at(0, 0), at(100, 100))), vec![0, 1, 3, 4, 2]);
}

#[test]
fn both_indexes_answer_alike() {
    let positions = vec![at(5, 5), at(15, 15), at(-5, -5), at(40, -40), at(5, 6), at(-50, 50)];
    let mut grid = SpatialPartitioning::new_grid(10, (at(-50, -50), at(50, 50)));
    let mut tree = SpatialPartitioning::new_quadtree((at(-50, -50), at(50, 50)), 2, 6);
    grid.update(&positions);
    tree.update(&positions);
    for radius in [0u32, 1, 6, 8, 15, 22, 70, 200] {
        for center in [at(0, 0), at(5, 5), at(-50, 50), at(60, 60)] {
            assert_eq!(
                sorted(grid.query_neighbors(center, radius)),
                sorted(tree.query_neighbors(center, radius))
            );
        }
        for index in 0..7 {
            assert_eq!(
                sorted(grid.query_neighbors_for_particle(index, radius)),
                sorted(tree.query_neighbors_for_particle(index, radius))
            );
        }
    }
    assert_eq!(sorted(grid.query_neighbors_for_particle(0, 1)), vec![4]);
    assert_eq!(sorted(tree.query_neighbors_for_particle(0, 15)), vec![1, 2, 4]);
}

#[test]
fn grid_handles_the_corners_of_the_lattice() {
    let mut grid = SpatialGrid::new(1, (at(i32::MIN, i32::MIN), at(i32::MAX, i32::MAX)));
    grid.update(&vec![at(i32::MAX, i32::MAX), at(i32::MIN, i32::MIN), at(i32::MAX, i32::MAX - 1)]);
    assert_eq!(grid.query_neighbors(at(i32::MAX, i32::MAX), 1), vec![2, 0]);
    assert_eq!(grid.query_neighbors(at(i32::MIN, i32::MIN), 0), vec![1]);
    assert_eq!(grid.get_cell_count(), 3);
    let mut wide = SpatialGrid::new(u32::MAX, (at(i32::MAX, i32::MAX), at(i32::MAX, i32::MAX)));
    wide.update(&vec![at(i32::MIN, i32::MIN), at(i32::MAX, i32::MAX), at(0, 0)]);
    assert_eq!(wide.get_cell_count(), 2);
    assert_eq!(wide.get_max_particles_per_cell(), 2);
    assert_eq!(wide.query_neighbors(at(0, 0), u32::MAX), vec![0, 2, 1]);
    let empty = SpatialGrid::new(3, (at(0, 0), at(1, 1)));
    assert_eq!(empty.get_cell_count(), 0);
    assert_eq!(empty.get_max_particles_per_cell(), 0);
}

#[test]
fn quadtree_with_no_room_stops_at_the_depth_limit() {
    let mut tree = QuadTree::new((at(0, 0), at(8, 8)), 0, 2);
    assert!(tree.insert(0, at(1, 1)));
    assert_eq!(tree.get_max_depth(), 2);
    assert_eq!(tree.get_node_count(), 9);
    assert!(tree.insert(1, at(8, 8)));
    assert_eq!(tree.get_node_count(), 13);
    let flat = {
        let mut t = QuadTree::new((at(0, 0), at(8, 8)), 0, 0);
        assert!(t.insert(0, at(4, 4)));
        assert!(t.insert(1, at(4, 4)));
        t
    };
    assert_eq!(flat.get_node_count(), 1);
    let mut found = vec![99];
    flat.query_radius(at(4, 4), 0, &mut found, &vec![at(4, 4)]);
    // particle 1 has no known position and is not reported
    assert_eq!(found, vec![99, 0]);
}

#[test]
fn a_cloned_tree_answers_alike_and_is_its_own() {
    let mut tree = QuadTree::new((at(0, 0), at(16, 16)), 1, 3);
    let positions = vec![at(1, 1), at(15, 15), at(2, 2)];
    for (i, p) in positions.iter().enumerate() {
        assert!(tree.insert(i, *p));
    }
    let copy = tree.clone();
    tree.clear();
    assert_eq!(tree.get_node_count(), 1);
    assert_eq!(copy.get_node_count(), 5);
    let mut found = Vec::new();
    copy.query_range((at(0, 0), at(16, 16)), &mut found, &positions);
    assert_eq!(found, vec![0, 2, 1]);
}

#[test]
fn indexes_agree_with_a_scan_over_all_particles() {
    // a small linear congruential generator, so that the test is the same every time
    let mut state: u64 = 0x2545_f491_4f6c_dd1d;
    let mut next = move |span: i64| -> i32 {
        state = state.wrapping_mul(6364136223846793005).wrapping_add(1442695040888963407);
        (((state >> 33) as i64) % span) as i32
    };
    let bounds = (at(-200, -200), at(200, 200));
    let mut grid = SpatialGrid::new(37, bounds);
    let mut manager = QuadTreeManager::new(bounds, 3, 5);
    for round in 0..20 {
        let count = 1 + (round * 7) % 60;
        let positions: Vec<Position> = (0..count).map(|_| at(next(500) - 250, next(500) - 250)).collect();
        grid.update(&positions);
        manager.update(&positions);
        for _ in 0..10 {
            let center = at(next(600) - 300, next(600) - 300);
            let radius = next(300) as u32;
            let near = |p: &Position| {
                let dx = (p.x - center.x) as i64;
                let dy = (p.y - center.y) as i64;
                dx * dx + dy * dy <= (radius as i64) * (radius as i64)
            };
            let inside = |p: &Position| -200 <= p.x && p.x <= 200 && -200 <= p.y && p.y <= 200;
            let all: Vec<usize> = (0..positions.len()).filter(|&i| near(&positions[i])).collect();
            let in_tree: Vec<usize> = all.iter().copied().filter(|&i| inside(&positions[i])).collect();
            assert_eq!(sorted(grid.query_neighbors(center, radius)), all);
            assert_eq!(sorted(manager.query_neighbors(center, radius)), in_tree);
            let low = at(center.x - radius as i32, center.y - radius as i32);
            let high = at(center.x + radius as i32, center.y + radius as i32);
            let boxed: Vec<usize> = (0..positions.len())
                .filter(|&i| {
                    let p = &positions[i];
                    inside(p) && low.x <= p.x && p.x <= high.x && low.y <= p.y && p.y <= high.y
                })
                .collect();
            assert_eq!(sorted(manager.query_range((low, high))), boxed);
        }
        assert_eq!(manager.get_statistics().particle_count, positions.len());
        assert!(manager.get_statistics().max_depth <= 5);
    }
}
