use tower_defense::flow_field::{compute_flow_field, trace_path, waypoints};
use tower_defense::grid::Grid;

#[test]
fn grid_index_and_coordinates() {
    let g = Grid::new(4, 3);
    assert_eq!(g.cell_count(), 12);
    assert_eq!(g.index(0, 0), Some(0));
    assert_eq!(g.index(3, 0), Some(3));
    assert_eq!(g.index(1, 2), Some(9));
    assert_eq!(g.index(4, 0), None);
    assert_eq!(g.index(0, 3), None);
    assert_eq!(g.index(-1, 1), None);
    assert_eq!(g.index(2, -5), None);
    assert_eq!(g.coordinates(9), (1, 2));
    assert_eq!(g.coordinates(11), (3, 2));
}

#[test]
fn grid_neighbors_in_order_right_left_up_down() {
    let g = Grid::new(4, 3);
    // interior cell (1, 1) = 5
    assert_eq!(g.neighbor_indices(5), vec![6, 4, 9, 1]);
    // corner (0, 0)
    assert_eq!(g.neighbor_indices(0), vec![1, 4]);
    // corner (3, 2) = 11
    assert_eq!(g.neighbor_indices(11), vec![10, 7]);
    // right edge (3, 1) = 7: no wrap onto the next row
    assert_eq!(g.neighbor_indices(7), vec![6, 11, 3]);
    // left edge (0, 1) = 4: no wrap onto the previous row
    assert_eq!(g.neighbor_indices(4), vec![5, 8, 0]);
}

#[test]
fn flow_field_open_grid_distances_are_manhattan() {
    let g = Grid::new(5, 4);
    let walkable = vec![true; 20];
    let target = g.index(0, 0).unwrap();
    let f = compute_flow_field(&g, target, &walkable);
    for y in 0..4i64 {
        for x in 0..5i64 {
            let i = g.index(x, y).unwrap();
            assert_eq!(f.distance[i], Some((x + y) as usize));
        }
    }
    assert_eq!(f.parent[target], None);
    // (1, 0) is discovered from the target.
    assert_eq!(f.parent[1], Some(0));
    // (0, 1) is discovered from the target too.
    assert_eq!(f.parent[5], Some(0));
}

#[test]
fn flow_field_goes_around_a_wall() {
    // 5 x 3 grid, wall in column 2 on rows 0 and 1; the target at (0, 0).
    let g = Grid::new(5, 3);
    let mut walkable = vec![true; 15];
    walkable[g.index(2, 0).unwrap()] = false;
    walkable[g.index(2, 1).unwrap()] = false;
    let target = g.index(0, 0).unwrap();
    let f = compute_flow_field(&g, target, &walkable);
    let far = g.index(4, 0).unwrap();
    // Way: (0,0) -> (0,1) -> (0,2) -> (1,2) -> (2,2) -> (3,2) -> (4,2)... or via (3,1)
    // shortest: down to row 2, across, and up: 2 + 4 + 2 = 8 steps.
    assert_eq!(f.distance[far], Some(8));
    assert_eq!(f.distance[g.index(2, 0).unwrap()], None);
    assert_eq!(f.parent[g.index(2, 0).unwrap()], None);
    let path = trace_path(&f, far);
    assert_eq!(path.len(), 8);
    assert_eq!(*path.last().unwrap(), target);
    let mut prev = far;
    for &c in &path {
        assert_eq!(f.parent[prev], Some(c));
        assert!(g.neighbor_indices(prev).contains(&c));
        assert!(walkable[c] || c == target);
        prev = c;
    }
}

#[test]
fn flow_field_blocked_area_is_not_reached() {
    // 3 x 3 grid, a full wall in column 1: the right column is cut off.
    let g = Grid::new(3, 3);
    let mut walkable = vec![true; 9];
    for y in 0..3 {
        walkable[g.index(1, y).unwrap()] = false;
    }
    let f = compute_flow_field(&g, g.index(0, 1).unwrap(), &walkable);
    for y in 0..3 {
        let i = g.index(2, y).unwrap();
        assert!(!f.is_reached(i));
        assert_eq!(f.parent[i], None);
        assert!(trace_path(&f, i).is_empty());
    }
    assert!(f.is_reached(g.index(0, 0).unwrap()));
    assert!(f.is_reached(g.index(0, 2).unwrap()));
}

#[test]
fn target_tile_is_start_even_when_not_walkable() {
    let g = Grid::new(3, 1);
    let walkable = vec![true, false, true];
    let f = compute_flow_field(&g, 1, &walkable);
    assert_eq!(f.distance[1], Some(0));
    assert_eq!(f.distance[0], Some(1));
    assert_eq!(f.distance[2], Some(1));
    assert!(trace_path(&f, 1).is_empty());
}

#[test]
fn waypoints_pick_farthest_visible_cell() {
    // A straight corridor 6 x 1, target at 0.
    let g = Grid::new(6, 1);
    let walkable = vec![true; 6];
    let f = compute_flow_field(&g, 0, &walkable);
    // Cells see at most 2 cells ahead.
    let w = waypoints(&f, |start: usize, cell: usize| start - cell <= 2);
    assert_eq!(w[0], None);
    assert_eq!(w[1], Some(0));
    assert_eq!(w[2], Some(0));
    assert_eq!(w[3], Some(1));
    assert_eq!(w[5], Some(3));
    // Nothing visible: no waypoint.
    let none = waypoints(&f, |_start: usize, _cell: usize| false);
    assert!(none.iter().all(|w| w.is_none()));
}

#[test]
fn waypoints_of_unreachable_cells_are_none() {
    let g = Grid::new(3, 1);
    let walkable = vec![true, false, true];
    let f = compute_flow_field(&g, 0, &walkable);
    let w = waypoints(&f, |_s: usize, _c: usize| true);
    assert_eq!(w, vec![None, None, None]);
}

#[test]
fn flow_field_parent_is_the_first_neighbour_met() {
    // 3 x 3 open grid, target in the corner (0, 0): the search meets the
    // cells right, left, up, down of each cell in turn, so of two
    // neighbours one step closer, the one met first is the parent.
    let g = Grid::new(3, 3);
    let walkable = vec![true; 9];
    let f = compute_flow_field(&g, 0, &walkable);
    assert_eq!(f.parent, vec![None, Some(0), Some(1), Some(0), Some(1), Some(2), Some(3), Some(4), Some(5)]);

    // Target in the centre: the right and left neighbours are met first.
    let f = compute_flow_field(&g, 4, &walkable);
    assert_eq!(f.parent, vec![Some(3), Some(4), Some(5), Some(4), None, Some(4), Some(3), Some(4), Some(5)]);
    assert_eq!(f.distance, vec![Some(2), Some(1), Some(2), Some(1), Some(0), Some(1), Some(2), Some(1), Some(2)]);
}

#[test]
fn waypoints_never_ask_about_a_cell_and_itself() {
    // An open 3 x 3 grid, target in the centre; the test refuses to be
    // asked about a cell and itself, as the game's shape cast does.
    let g = Grid::new(3, 3);
    let walkable = vec![true; 9];
    let f = compute_flow_field(&g, 4, &walkable);
    let w = waypoints(&f, |start: usize, cell: usize| {
        assert_ne!(start, cell);
        true
    });
    // Every cell sees the target directly; the target itself has no way left.
    assert_eq!(w, vec![Some(4), Some(4), Some(4), Some(4), None, Some(4), Some(4), Some(4), Some(4)]);
}
