use iced_color_map::edges::{
    boundary_loops, norm_edge, selection_boundary_edges, xor_cell_edges, Edge, EdgeSet,
    GridCorner,
};

fn walked(p: &[GridCorner]) -> Vec<Edge> {
    p.windows(2).map(|w| norm_edge(w[0], w[1])).collect()
}

fn check_loops(lo: u8, hi: u8, expected_loops: usize) {
    let mut set = selection_boundary_edges(lo, hi);
    let n = set.len();
    let copy = selection_boundary_edges(lo, hi);
    let loops = boundary_loops(&mut set);
    assert!(set.is_empty());
    assert_eq!(loops.len(), expected_loops);
    let mut all: Vec<Edge> = Vec::new();
    for p in &loops {
        assert!(p.len() >= 2);
        assert_eq!(p[0], p[p.len() - 1]);
        all.extend(walked(p));
    }
    assert_eq!(all.len(), n);
    for e in &all {
        assert!(copy.contains(*e));
    }
    let mut dedup = all.clone();
    dedup.sort();
    dedup.dedup();
    assert_eq!(dedup.len(), all.len());
}

#[test]
fn norm_edge_orders_corners() {
    assert_eq!(norm_edge((1, 2), (1, 3)), ((1, 2), (1, 3)));
    assert_eq!(norm_edge((1, 3), (1, 2)), ((1, 2), (1, 3)));
    assert_eq!(norm_edge((2, 0), (1, 5)), ((1, 5), (2, 0)));
    assert_eq!(norm_edge((4, 4), (4, 4)), ((4, 4), (4, 4)));
}

#[test]
fn xor_twice_cancels() {
    let mut s = EdgeSet::new();
    xor_cell_edges(&mut s, 3, 4);
    assert_eq!(s.len(), 4);
    assert!(s.contains(((3, 4), (4, 4))));
    assert!(s.contains(((4, 4), (4, 5))));
    assert!(s.contains(((3, 5), (4, 5))));
    assert!(s.contains(((3, 4), (3, 5))));
    xor_cell_edges(&mut s, 3, 4);
    assert!(s.is_empty());
}

#[test]
fn neighbouring_cells_share_no_outline() {
    let mut s = EdgeSet::new();
    xor_cell_edges(&mut s, 0, 0);
    xor_cell_edges(&mut s, 1, 0);
    assert_eq!(s.len(), 6);
    assert!(!s.contains(((1, 0), (1, 1))));
}

#[test]
fn selection_outline_sizes() {
    assert_eq!(selection_boundary_edges(0, 0).len(), 4);
    assert_eq!(selection_boundary_edges(0, 1).len(), 6);
    assert_eq!(selection_boundary_edges(0, 15).len(), 34);
    assert_eq!(selection_boundary_edges(0, 255).len(), 64);
    assert_eq!(selection_boundary_edges(5, 3).len(), 0);
    // two separate strips: row 0 from column 8, row 1 up to column 3
    assert_eq!(selection_boundary_edges(8, 19).len(), 28);
    // a staircase: row 0 from column 8, then row 1 up to column 11
    assert_eq!(selection_boundary_edges(8, 27).len(), 36);
}

#[test]
fn outline_loops_use_every_edge_once() {
    check_loops(0, 0, 1);
    check_loops(0, 255, 1);
    check_loops(8, 19, 2);
    check_loops(8, 27, 1);
    check_loops(20, 200, 1);
    check_loops(15, 16, 2);
    check_loops(7, 3, 0);
}

#[test]
fn open_path_is_dropped() {
    let mut s = EdgeSet::new();
    assert!(s.insert(((0, 0), (0, 1))));
    assert!(!s.insert(((0, 0), (0, 1))));
    let loops = boundary_loops(&mut s);
    assert!(loops.is_empty());
    assert!(s.is_empty());
}

#[test]
fn edge_set_insert_remove() {
    let mut s = EdgeSet::new();
    assert!(s.insert(((1, 1), (2, 1))));
    assert!(s.contains(((1, 1), (2, 1))));
    assert!(s.remove(((1, 1), (2, 1))));
    assert!(!s.remove(((1, 1), (2, 1))));
    assert!(s.any_edge().is_none());
    s.insert(((9, 9), (9, 10)));
    assert_eq!(s.any_edge(), Some(((9, 9), (9, 10))));
    s.clear();
    assert_eq!(s.len(), 0);
}
