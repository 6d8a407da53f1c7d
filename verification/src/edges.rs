//! The outline of a selection on the 16x16 byte grid: cell edges, their
//! exclusive-or accumulation, and the tracing of the closed outline loops.
//!
//! Corners form a 17x17 lattice: cell `(c, r)` has the corners `(c, r)`,
//! `(c + 1, r)`, `(c + 1, r + 1)` and `(c, r + 1)`.
use vstd::prelude::*;
use vstd::std_specs::hash::group_hash_axioms;
use std::collections::HashSet;
use std::collections::HashMap;

verus! {

broadcast use group_hash_axioms;

/// A corner of the grid lattice, as (column, row).
pub type GridCorner = (u8, u8);

/// An undirected edge between two corners, kept with its smaller corner first.
pub type Edge = (GridCorner, GridCorner);

/// Lexicographic order on corners (column first, then row).
pub open spec fn corner_lt(a: GridCorner, b: GridCorner) -> bool {
    a.0 < b.0 || (a.0 == b.0 && a.1 < b.1)
}

/// The edge between `a` and `b` with its smaller corner first.
pub open spec fn spec_norm_edge(a: GridCorner, b: GridCorner) -> Edge {
    if corner_lt(a, b) {
        (a, b)
    } else {
        (b, a)
    }
}

/// Orders the two corners of an edge so that the smaller one comes first.
pub fn norm_edge(a: GridCorner, b: GridCorner) -> (e: Edge)
    ensures
        e == spec_norm_edge(a, b),
        e == (a, b) || e == (b, a),
        e.0.0 < e.1.0 || (e.0.0 == e.1.0 && e.0.1 <= e.1.1),
{
    if a.0 < b.0 || (a.0 == b.0 && a.1 < b.1) {
        (a, b)
    } else {
        (b, a)
    }
}

/// The set that holds exactly the edges in one of `a`, `b` but not both.
pub open spec fn sym_diff(a: Set<Edge>, b: Set<Edge>) -> Set<Edge> {
    Set::new(|e: Edge| a.contains(e) != b.contains(e))
}

/// The four sides of cell (`col`, `row`), each with its smaller corner first:
/// top, right, bottom, left.
pub open spec fn cell_edges(col: u8, row: u8) -> Set<Edge> {
    let c1 = (col + 1) as u8;
    let r1 = (row + 1) as u8;
    set![((col, row), (c1, row)), ((c1, row), (c1, r1)), ((col, r1), (c1, r1)), ((col, row), (col, r1))]
}

/// The four sides of the cell of byte `b` (column `b % 16`, row `b / 16`).
pub open spec fn byte_cell_edges(b: int) -> Set<Edge> {
    cell_edges((b % 16) as u8, (b / 16) as u8)
}

/// The exclusive-or of the sides of the cells of bytes `lo..=hi`.
pub open spec fn range_xor(lo: int, hi: int) -> Set<Edge>
    decreases hi - lo + 1,
{
    if hi < lo {
        Set::empty()
    } else {
        sym_diff(range_xor(lo, hi - 1), byte_cell_edges(hi))
    }
}

/// Toggles the four sides of cell (`col`, `row`) in `boundary`: a side that is
/// present goes, one that is absent comes.
pub fn xor_cell_edges(boundary: &mut EdgeSet, col: u8, row: u8)
    requires
        col < 255,
        row < 255,
    ensures
        final(boundary)@ == sym_diff(old(boundary)@, cell_edges(col, row)),
        forall|e: Edge|
            #[trigger] final(boundary)@.contains(e) == (old(boundary)@.contains(e) != (e == ((
            col,
            row,
        ), ((col + 1) as u8, row)) || e == (((col + 1) as u8, row), ((col + 1) as u8, (row
            + 1) as u8)) || e == ((col, (row + 1) as u8), ((col + 1) as u8, (row + 1) as u8))
            || e == ((col, row), (col, (row + 1) as u8)))),
{
    let c = col;
    let r = row;
    let edges = [
        norm_edge((c, r), (c + 1, r)),
        norm_edge((c + 1, r), (c + 1, r + 1)),
        norm_edge((c + 1, r + 1), (c, r + 1)),
        norm_edge((c, r + 1), (c, r)),
    ];
    let ghost start = boundary@;
    assert(edges@.to_set() =~= cell_edges(col, row)) by {
        assert(edges@ =~= seq![edges[0], edges[1], edges[2], edges[3]]);
        assert(edges@.contains(edges[0]) && edges@.contains(edges[1]) && edges@.contains(edges[2]) && edges@.contains(edges[3]));
    }
    let mut i: usize = 0;
    while i < 4
        invariant
            0 <= i <= 4,
            edges@.to_set() == cell_edges(col, row),
            edges@.no_duplicates(),
            boundary@ == sym_diff(start, edges@.subrange(0, i as int).to_set()),
        decreases 4 - i,
    {
        let e = edges[i];
        if !boundary.remove(e) {
            boundary.insert(e);
        }
        proof {
            let before = edges@.subrange(0, i as int);
            let after = edges@.subrange(0, i + 1);
            assert(after =~= before.push(e));
            assert(!before.contains(e));
            before.lemma_push_to_set_commute(e);
            assert(boundary@ =~= sym_diff(start, after.to_set()));
        }
        i = i + 1;
    }
    assert(edges@.subrange(0, 4) =~= edges@);
}

/// The outline of the selection `lo..=hi`: the exclusive-or of the sides of
/// its cells, so a side shared by two selected cells cancels out.
pub fn selection_boundary_edges(lo: u8, hi: u8) -> (boundary: EdgeSet)
    ensures
        boundary@ == range_xor(lo as int, hi as int),
        forall|e: Edge|
            #[trigger] boundary@.contains(e) <==> ({
                let (a, b) = e;
                let c = a.0 as int;
                let r = a.1 as int;
                if a.1 == b.1 && b.0 == a.0 + 1 && c <= 15 && r <= 16 {
                    (r <= 15 && lo <= r * 16 + c <= hi) != (r >= 1 && lo <= (r - 1) * 16 + c
                        <= hi)
                } else if a.0 == b.0 && b.1 == a.1 + 1 && r <= 15 && c <= 16 {
                    (c <= 15 && lo <= r * 16 + c <= hi) != (c >= 1 && lo <= r * 16 + c - 1
                        <= hi)
                } else {
                    false
                }
            }),
{
    let mut boundary = EdgeSet::new();
    let mut b: u16 = lo as u16;
    assert(boundary@ =~= range_xor(lo as int, lo as int - 1));
    while b <= hi as u16
        invariant
            lo <= b,
            b <= hi as u16 + 1 || b == lo,
            hi <= 255,
            boundary@ == range_xor(lo as int, b as int - 1),
        decreases hi as u16 + 1 - b,
    {
        let v = b as u8;
        xor_cell_edges(&mut boundary, v % 16, v / 16);
        b = b + 1;
    }
    assert(range_xor(lo as int, hi as int) == range_xor(lo as int, b as int - 1));
    assert forall|e: Edge| #[trigger] boundary@.contains(e) <==> ({
        let (a, b) = e;
        let c = a.0 as int;
        let r = a.1 as int;
        if a.1 == b.1 && b.0 == a.0 + 1 && c <= 15 && r <= 16 {
            (r <= 15 && lo <= r * 16 + c <= hi) != (r >= 1 && lo <= (r - 1) * 16 + c <= hi)
        } else if a.0 == b.0 && b.1 == a.1 + 1 && r <= 15 && c <= 16 {
            (c <= 15 && lo <= r * 16 + c <= hi) != (c >= 1 && lo <= r * 16 + c - 1 <= hi)
        } else {
            false
        }
    }) by {
        lemma_outline_cells(lo as int, hi as int, e);
    }
    boundary
}

/// The edges of `s` that have `v` as a corner.
pub open spec fn edges_at(s: Set<Edge>, v: GridCorner) -> Set<Edge> {
    s.filter(|e: Edge| e.0 == v || e.1 == v)
}

/// The number of edges of `s` that have `v` as a corner.
pub open spec fn degree(s: Set<Edge>, v: GridCorner) -> nat {
    edges_at(s, v).len()
}

/// A finite set of edges, each with two distinct corners, the smaller first, in
/// which every corner meets an even number of edges: a union of closed loops.
pub open spec fn is_even_outline(s: Set<Edge>) -> bool {
    &&& s.finite()
    &&& forall|e: Edge| #[trigger] s.contains(e) ==> corner_lt(e.0, e.1)
    &&& forall|v: GridCorner| #[trigger] degree(s, v) % 2 == 0
}

/// `s` with `e` added if it was absent and removed if it was present.
pub open spec fn toggle(s: Set<Edge>, e: Edge) -> Set<Edge> {
    if s.contains(e) {
        s.remove(e)
    } else {
        s.insert(e)
    }
}

proof fn lemma_toggle_degree(s: Set<Edge>, e: Edge, v: GridCorner)
    requires
        s.finite(),
        e.0 != e.1,
    ensures
        toggle(s, e).finite(),
        degree(toggle(s, e), v) % 2 == (degree(s, v) + (if e.0 == v || e.1 == v {
            1int
        } else {
            0int
        })) % 2,
{
    let f = |x: Edge| x.0 == v || x.1 == v;
    let t = toggle(s, e);
    vstd::set_lib::lemma_set_subset_finite(s, edges_at(s, v));
    if s.contains(e) {
        if f(e) {
            assert(edges_at(t, v) =~= edges_at(s, v).remove(e));
        } else {
            assert(edges_at(t, v) =~= edges_at(s, v));
        }
    } else {
        if f(e) {
            assert(edges_at(t, v) =~= edges_at(s, v).insert(e));
        } else {
            assert(edges_at(t, v) =~= edges_at(s, v));
        }
    }
}

proof fn lemma_degree_positive(s: Set<Edge>, v: GridCorner)
    requires
        s.finite(),
        degree(s, v) > 0,
    ensures
        exists|e: Edge| #[trigger] s.contains(e) && (e.0 == v || e.1 == v),
{
    vstd::set_lib::lemma_set_subset_finite(s, edges_at(s, v));
    if forall|e: Edge| !(#[trigger] edges_at(s, v).contains(e)) {
        assert(edges_at(s, v) =~= Set::<Edge>::empty());
    }
    let e = choose|e: Edge| #[trigger] edges_at(s, v).contains(e);
    assert(s.contains(e) && (e.0 == v || e.1 == v));
}

proof fn lemma_cell_xor_even(s: Set<Edge>, col: u8, row: u8)
    requires
        col < 255,
        row < 255,
        is_even_outline(s),
    ensures
        is_even_outline(sym_diff(s, cell_edges(col, row))),
{
    let c1 = (col + 1) as u8;
    let r1 = (row + 1) as u8;
    let e1: Edge = ((col, row), (c1, row));
    let e2: Edge = ((c1, row), (c1, r1));
    let e3: Edge = ((col, r1), (c1, r1));
    let e4: Edge = ((col, row), (col, r1));
    let t1 = toggle(s, e1);
    let t2 = toggle(t1, e2);
    let t3 = toggle(t2, e3);
    let t4 = toggle(t3, e4);
    assert(t4 =~= sym_diff(s, cell_edges(col, row)));
    assert forall|v: GridCorner| #[trigger] degree(t4, v) % 2 == 0 by {
        lemma_toggle_degree(s, e1, v);
        lemma_toggle_degree(t1, e2, v);
        lemma_toggle_degree(t2, e3, v);
        lemma_toggle_degree(t3, e4, v);
    }
}

/// Law: the outline of any selection `lo..=hi` of bytes is a union of closed
/// loops: its edges run between distinct corners, and every corner meets an
/// even number of them.
pub proof fn lemma_selection_outline_even(lo: int, hi: int)
    requires
        0 <= lo,
        hi <= 255,
    ensures
        is_even_outline(range_xor(lo, hi)),
    decreases hi - lo + 1,
{
    if hi < lo {
        assert forall|v: GridCorner| #[trigger] degree(range_xor(lo, hi), v) % 2 == 0 by {
            assert(edges_at(range_xor(lo, hi), v) =~= Set::<Edge>::empty());
        }
    } else {
        lemma_selection_outline_even(lo, hi - 1);
        lemma_cell_xor_even(range_xor(lo, hi - 1), (hi % 16) as u8, (hi / 16) as u8);
    }
}

/// Law: toggling the sides of a cell twice gives back the set it started from.
pub proof fn lemma_xor_cell_twice(s: Set<Edge>, col: u8, row: u8)
    ensures
        sym_diff(sym_diff(s, cell_edges(col, row)), cell_edges(col, row)) == s,
{
    assert(sym_diff(sym_diff(s, cell_edges(col, row)), cell_edges(col, row)) =~= s);
}

/// The number of bytes of `lo..=hi` whose cell has `e` as a side.
pub open spec fn selected_sides(lo: int, hi: int, e: Edge) -> nat
    decreases hi - lo + 1,
{
    if hi < lo {
        0
    } else {
        selected_sides(lo, hi - 1, e) + (if byte_cell_edges(hi).contains(e) {
            1nat
        } else {
            0nat
        })
    }
}

/// The byte whose cell has `e.0` as its top-left corner.
spec fn first_side_cell(e: Edge) -> int {
    e.0.1 as int * 16 + e.0.0 as int
}

/// The byte whose cell lies above a horizontal `e`, or left of a vertical one.
spec fn second_side_cell(e: Edge) -> int {
    if e.0.1 == e.1.1 {
        first_side_cell(e) - 16
    } else {
        first_side_cell(e) - 1
    }
}

proof fn lemma_side_cells(b: int, e: Edge)
    requires
        0 <= b <= 255,
        byte_cell_edges(b).contains(e),
    ensures
        b == first_side_cell(e) || b == second_side_cell(e),
{
}

proof fn lemma_selected_sides_bound(lo: int, hi: int, e: Edge)
    requires
        0 <= lo,
        hi <= 255,
    ensures
        selected_sides(lo, hi, e) <= (if lo <= first_side_cell(e) <= hi {
            1int
        } else {
            0int
        }) + (if lo <= second_side_cell(e) <= hi {
            1int
        } else {
            0int
        }),
    decreases hi - lo + 1,
{
    if hi >= lo {
        lemma_selected_sides_bound(lo, hi - 1, e);
        if byte_cell_edges(hi).contains(e) {
            lemma_side_cells(hi, e);
        }
    }
}

/// Law: an edge is on the outline of `lo..=hi` exactly when an odd number of
/// the selected cells have it as a side.
pub proof fn lemma_outline_parity(lo: int, hi: int, e: Edge)
    ensures
        range_xor(lo, hi).contains(e) <==> selected_sides(lo, hi, e) % 2 == 1,
    decreases hi - lo + 1,
{
    if hi >= lo {
        lemma_outline_parity(lo, hi - 1, e);
    }
}

/// Law: an edge is on the outline of the selection `lo..=hi` exactly when it
/// is a side of one selected cell and not of two: the outline separates the
/// selected cells from the others.
pub proof fn lemma_outline_separates(lo: int, hi: int, e: Edge)
    requires
        0 <= lo,
        hi <= 255,
    ensures
        range_xor(lo, hi).contains(e) <==> selected_sides(lo, hi, e) == 1,
{
    lemma_outline_parity(lo, hi, e);
    lemma_selected_sides_bound(lo, hi, e);
}

/// The cell of byte `b` has `e` as a side exactly when `b` is one of the (at
/// most two) cells beside `e`.
proof fn lemma_cell_side_exact(b: int, e: Edge)
    requires
        0 <= b <= 255,
    ensures
        byte_cell_edges(b).contains(e) <==> (beside_first(e) && b == first_side_cell(e)) || (
        beside_second(e) && b == second_side_cell(e)),
{
}

/// `e` is the top of a cell or the left side of a cell, that cell being `first_side_cell(e)`.
spec fn beside_first(e: Edge) -> bool {
    let (a, b) = e;
    &&& a.0 <= 15
    &&& a.1 <= 15
    &&& ((a.1 == b.1 && b.0 == a.0 + 1) || (a.0 == b.0 && b.1 == a.1 + 1))
}

/// `e` is the bottom of a cell or the right side of a cell, that cell being `second_side_cell(e)`.
spec fn beside_second(e: Edge) -> bool {
    let (a, b) = e;
    ||| (a.1 == b.1 && b.0 == a.0 + 1 && a.0 <= 15 && 1 <= a.1 <= 16)
    ||| (a.0 == b.0 && b.1 == a.1 + 1 && a.1 <= 15 && 1 <= a.0 <= 16)
}

proof fn lemma_selected_sides_exact(lo: int, hi: int, e: Edge)
    requires
        0 <= lo,
        hi <= 255,
    ensures
        selected_sides(lo, hi, e) == (if beside_first(e) && lo <= first_side_cell(e) <= hi {
            1int
        } else {
            0int
        }) + (if beside_second(e) && lo <= second_side_cell(e) <= hi {
            1int
        } else {
            0int
        }),
    decreases hi - lo + 1,
{
    if hi >= lo {
        lemma_selected_sides_exact(lo, hi - 1, e);
        lemma_cell_side_exact(hi, e);
    }
}

/// Law: on the 16x16 grid, the outline of the selection `lo..=hi` holds a
/// horizontal unit edge exactly when one of the cells below and above it is
/// selected and the other is not (a cell outside the grid counts as not
/// selected), a vertical unit edge exactly when one of the cells right and left
/// of it is selected and the other is not, and no other edge.
pub proof fn lemma_outline_cells(lo: int, hi: int, e: Edge)
    requires
        0 <= lo,
        hi <= 255,
    ensures
        range_xor(lo, hi).contains(e) <==> ({
            let (a, b) = e;
            let c = a.0 as int;
            let r = a.1 as int;
            if a.1 == b.1 && b.0 == a.0 + 1 && c <= 15 && r <= 16 {
                (r <= 15 && lo <= r * 16 + c <= hi) != (r >= 1 && lo <= (r - 1) * 16 + c <= hi)
            } else if a.0 == b.0 && b.1 == a.1 + 1 && r <= 15 && c <= 16 {
                (c <= 15 && lo <= r * 16 + c <= hi) != (c >= 1 && lo <= r * 16 + c - 1 <= hi)
            } else {
                false
            }
        }),
{
    lemma_outline_parity(lo, hi, e);
    lemma_selected_sides_exact(lo, hi, e);
}

/// The 32-bit key of an edge: its four coordinates as bytes, most significant first.
spec fn edge_key(e: Edge) -> u32 {
    ((e.0.0 as u32) << 24u32) | ((e.0.1 as u32) << 16u32) | ((e.1.0 as u32) << 8u32) | (
    e.1.1 as u32)
}

/// The edge that a 32-bit key stands for.
spec fn key_edge(k: u32) -> Edge {
    (((k >> 24u32) as u8, ((k >> 16u32) & 0xffu32) as u8), (((k >> 8u32) & 0xffu32) as u8, (k
        & 0xffu32) as u8))
}

proof fn lemma_key_fields(a: u8, b: u8, c: u8, d: u8)
    ensures
        ({
            let k: u32 = ((a as u32) << 24u32) | ((b as u32) << 16u32) | ((c as u32) << 8u32) | (
            d as u32);
            &&& (k >> 24u32) as u8 == a
            &&& ((k >> 16u32) & 0xffu32) as u8 == b
            &&& ((k >> 8u32) & 0xffu32) as u8 == c
            &&& (k & 0xffu32) as u8 == d
        }),
{
    assert({
        let k: u32 = ((a as u32) << 24u32) | ((b as u32) << 16u32) | ((c as u32) << 8u32) | (
        d as u32);
        &&& (k >> 24u32) as u8 == a
        &&& ((k >> 16u32) & 0xffu32) as u8 == b
        &&& ((k >> 8u32) & 0xffu32) as u8 == c
        &&& (k & 0xffu32) as u8 == d
    }) by (bit_vector);
}

proof fn lemma_key_rebuild(k: u32)
    ensures
        ((((k >> 24u32) as u8) as u32) << 24u32) | (((((k >> 16u32) & 0xffu32) as u8) as u32)
            << 16u32) | (((((k >> 8u32) & 0xffu32) as u8) as u32) << 8u32) | (((k & 0xffu32) as u8)
            as u32) == k,
{
    assert(((((k >> 24u32) as u8) as u32) << 24u32) | (((((k >> 16u32) & 0xffu32) as u8) as u32)
        << 16u32) | (((((k >> 8u32) & 0xffu32) as u8) as u32) << 8u32) | (((k & 0xffu32) as u8)
        as u32) == k) by (bit_vector);
}

proof fn lemma_edge_key_roundtrip(e: Edge)
    ensures
        key_edge(edge_key(e)) == e,
{
    lemma_key_fields(e.0.0, e.0.1, e.1.0, e.1.1);
}

proof fn lemma_key_edge_roundtrip(k: u32)
    ensures
        edge_key(key_edge(k)) == k,
{
    lemma_key_rebuild(k);
}

/// The edges that a set of keys stands for.
spec fn edges_of(keys: Set<u32>) -> Set<Edge> {
    keys.map(|k: u32| key_edge(k))
}

proof fn lemma_edges_of_contains(keys: Set<u32>, e: Edge)
    ensures
        edges_of(keys).contains(e) == keys.contains(edge_key(e)),
{
    lemma_edge_key_roundtrip(e);
    if edges_of(keys).contains(e) {
        let k = choose|k: u32| keys.contains(k) && e == key_edge(k);
        lemma_key_edge_roundtrip(k);
    }
}

proof fn lemma_edges_of_all(keys: Set<u32>)
    ensures
        forall|e: Edge| #[trigger] edges_of(keys).contains(e) == keys.contains(edge_key(e)),
{
    assert forall|e: Edge| #[trigger] edges_of(keys).contains(e) == keys.contains(edge_key(e)) by {
        lemma_edges_of_contains(keys, e);
    }
}

proof fn lemma_edges_of_len(keys: Set<u32>)
    requires
        keys.finite(),
    ensures
        edges_of(keys).finite(),
        edges_of(keys).len() == keys.len(),
{
    assert(vstd::relations::injective_on(|k: u32| key_edge(k), keys)) by {
        assert forall|x: u32, y: u32|
            keys.contains(x) && keys.contains(y) && #[trigger] key_edge(x) == #[trigger] key_edge(
                y,
            ) implies x == y by {
            lemma_key_edge_roundtrip(x);
            lemma_key_edge_roundtrip(y);
        }
    }
    vstd::set_lib::lemma_map_size(keys, edges_of(keys), |k: u32| key_edge(k));
}

/// The key of a corner in the adjacency table.
spec fn corner_key(c: GridCorner) -> u16 {
    (c.0 as int * 256 + c.1 as int) as u16
}

fn corner_key_of(c: GridCorner) -> (k: u16)
    ensures
        k == corner_key(c),
{
    (c.0 as u16) * 256 + (c.1 as u16)
}

/// Both corners of the edge of key `k` are listed as each other's neighbors.
spec fn key_listed(adj: Map<u16, Vec<GridCorner>>, k: u32) -> bool {
    lists_neighbor(adj, key_edge(k).0, key_edge(k).1) && lists_neighbor(adj, key_edge(k).1, key_edge(k).0)
}

/// `b` is listed among the neighbors of `a`.
spec fn lists_neighbor(adj: Map<u16, Vec<GridCorner>>, a: GridCorner, b: GridCorner) -> bool {
    adj.contains_key(corner_key(a)) && adj[corner_key(a)]@.contains(b)
}

fn add_neighbor(adj: &mut HashMap<u16, Vec<GridCorner>>, a: GridCorner, b: GridCorner)
    ensures
        lists_neighbor(final(adj)@, a, b),
        forall|x: GridCorner, y: GridCorner|
            lists_neighbor(old(adj)@, x, y) ==> #[trigger] lists_neighbor(final(adj)@, x, y),
{
    let k = corner_key_of(a);
    match adj.remove(&k) {
        Some(mut v) => {
            let ghost old_v = v@;
            v.push(b);
            adj.insert(k, v);
            assert(v@.contains(b)) by {
                assert(v@[v@.len() - 1] == b);
            }
            assert forall|x: GridCorner, y: GridCorner|
                lists_neighbor(old(adj)@, x, y) implies #[trigger] lists_neighbor(adj@, x, y) by {
                if corner_key(x) == k {
                    let i = choose|i: int| 0 <= i < old_v.len() && old_v[i] == y;
                    assert(v@[i] == y);
                }
            }
        },
        None => {
            let mut v: Vec<GridCorner> = Vec::new();
            v.push(b);
            adj.insert(k, v);
            assert(v@[0] == b);
        },
    }
}

fn same_corner(a: GridCorner, b: GridCorner) -> (r: bool)
    ensures
        r == (a == b),
{
    a.0 == b.0 && a.1 == b.1
}

/// The first neighbor of `cur` listed in `adj`, other than `prev`, whose edge
/// to `cur` is still in `rem`.
fn next_corner(
    adj: &HashMap<u16, Vec<GridCorner>>,
    rem: &EdgeSet,
    prev: GridCorner,
    cur: GridCorner,
) -> (r: Option<GridCorner>)
    ensures
        r matches Some(n) ==> n != prev && rem@.contains(spec_norm_edge(cur, n)),
        r is None ==> forall|n: GridCorner|
            #[trigger] lists_neighbor(adj@, cur, n) ==> n == prev || !rem@.contains(
                spec_norm_edge(cur, n),
            ),
{
    let k = corner_key_of(cur);
    match adj.get(&k) {
        None => None,
        Some(neighbors) => {
            let mut i: usize = 0;
            while i < neighbors.len()
                invariant
                    0 <= i <= neighbors@.len(),
                    adj@.contains_key(k),
                    adj@[k] == *neighbors,
                    forall|j: int|
                        0 <= j < i ==> neighbors@[j] == prev || !rem@.contains(
                            spec_norm_edge(cur, #[trigger] neighbors@[j]),
                        ),
                decreases neighbors@.len() - i,
            {
                let n = neighbors[i];
                if !same_corner(n, prev) && rem.contains(norm_edge(cur, n)) {
                    return Some(n);
                }
                i = i + 1;
            }
            proof {
                assert forall|n: GridCorner|
                    #[trigger] lists_neighbor(adj@, cur, n) implies n == prev || !rem@.contains(
                        spec_norm_edge(cur, n),
                    ) by {
                    let j = choose|j: int| 0 <= j < neighbors@.len() && neighbors@[j] == n;
                }
            }
            None
        },
    }
}

/// The edges walked along the corner path `p`, one per consecutive pair.
pub open spec fn walk_edges(p: Seq<GridCorner>) -> Seq<Edge> {
    if p.len() == 0 {
        Seq::empty()
    } else {
        Seq::new((p.len() - 1) as nat, |i: int| spec_norm_edge(p[i], p[i + 1]))
    }
}

/// The edges walked along all paths of `ps`, path after path.
pub open spec fn loops_edges(ps: Seq<Seq<GridCorner>>) -> Seq<Edge>
    decreases ps.len(),
{
    if ps.len() == 0 {
        Seq::empty()
    } else {
        loops_edges(ps.drop_last()) + walk_edges(ps.last())
    }
}

/// A path of at least one step that ends at the corner it starts from.
pub open spec fn is_closed_path(p: Seq<GridCorner>) -> bool {
    p.len() >= 2 && p[0] == p[p.len() - 1]
}

/// Each step of `p` runs along an edge of `s`, named in either order.
spec fn steps_in(s: Set<Edge>, p: Seq<GridCorner>) -> bool {
    forall|j: int|
        0 <= j < p.len() - 1 ==> s.contains((#[trigger] p[j], p[j + 1])) || s.contains((p[j + 1], p[j]))
}

/// The corner paths held by a vector of vectors.
pub open spec fn paths_view(v: Seq<Vec<GridCorner>>) -> Seq<Seq<GridCorner>> {
    v.map_values(|p: Vec<GridCorner>| p@)
}

proof fn lemma_walk_push(p: Seq<GridCorner>, c: GridCorner)
    requires
        p.len() >= 1,
    ensures
        walk_edges(p.push(c)) == walk_edges(p).push(spec_norm_edge(p[p.len() - 1], c)),
{
    assert(walk_edges(p.push(c)) =~= walk_edges(p).push(spec_norm_edge(p[p.len() - 1], c)));
}

proof fn lemma_loops_push(ps: Seq<Seq<GridCorner>>, p: Seq<GridCorner>)
    ensures
        loops_edges(ps.push(p)) == loops_edges(ps) + walk_edges(p),
{
    assert(ps.push(p).drop_last() =~= ps);
}

proof fn lemma_paths_view_push(v: Seq<Vec<GridCorner>>, p: Vec<GridCorner>)
    ensures
        paths_view(v.push(p)) == paths_view(v).push(p@),
{
    assert(paths_view(v.push(p)) =~= paths_view(v).push(p@));
}

proof fn lemma_no_dup_prefix(a: Seq<Edge>, b: Seq<Edge>)
    requires
        (a + b).no_duplicates(),
    ensures
        a.no_duplicates(),
        forall|e: Edge| #[trigger] a.contains(e) ==> (a + b).contains(e),
{
    assert forall|i: int, j: int| 0 <= i < a.len() && 0 <= j < a.len() && i != j implies a[i]
        != a[j] by {
        assert((a + b)[i] == a[i] && (a + b)[j] == a[j]);
    }
    assert forall|e: Edge| #[trigger] a.contains(e) implies (a + b).contains(e) by {
        let i = choose|i: int| 0 <= i < a.len() && a[i] == e;
        assert((a + b)[i] == e);
    }
}

/// Law: an edge is the same whichever of its corners is named first.
pub proof fn lemma_norm_edge_symmetric(a: GridCorner, b: GridCorner)
    ensures
        spec_norm_edge(a, b) == spec_norm_edge(b, a),
{
}

proof fn lemma_steps_push(orig: Set<Edge>, p: Seq<GridCorner>, c: GridCorner)
    requires
        steps_in(orig, p),
        p.len() >= 1,
        orig.contains((p[p.len() - 1], c)) || orig.contains((c, p[p.len() - 1])),
    ensures
        steps_in(orig, p.push(c)),
{
    assert forall|j: int| 0 <= j < p.push(c).len() - 1 implies orig.contains(
        (#[trigger] p.push(c)[j], p.push(c)[j + 1]),
    ) || orig.contains((p.push(c)[j + 1], p.push(c)[j])) by {
        if j < p.len() - 1 {
            assert(p.push(c)[j] == p[j] && p.push(c)[j + 1] == p[j + 1]);
        }
    }
}

proof fn lemma_paths_closed_steps(loops: Seq<Vec<GridCorner>>, orig: Set<Edge>)
    requires
        forall|i: int| 0 <= i < loops.len() ==> #[trigger] is_closed_path(loops[i]@),
        forall|i: int| 0 <= i < loops.len() ==> #[trigger] steps_in(orig, loops[i]@),
    ensures
        forall|i: int|
            0 <= i < loops.len() ==> loops[i]@.len() >= 2 && loops[i]@[0] == loops[i]@.last(),
        forall|i: int, j: int|
            0 <= i < loops.len() && 0 <= j < loops[i]@.len() - 1 ==> orig.contains(
                (#[trigger] loops[i]@[j], loops[i]@[j + 1]),
            ) || orig.contains((loops[i]@[j + 1], loops[i]@[j])),
{
    assert forall|i: int|
        0 <= i < loops.len() implies loops[i]@.len() >= 2 && loops[i]@[0] == loops[i]@.last() by {
        assert(is_closed_path(loops[i]@));
    }
    assert forall|i: int, j: int|
        0 <= i < loops.len() && 0 <= j < loops[i]@.len() - 1 implies orig.contains(
            (#[trigger] loops[i]@[j], loops[i]@[j + 1]),
        ) || orig.contains((loops[i]@[j + 1], loops[i]@[j])) by {
        assert(steps_in(orig, loops[i]@));
    }
}

/// Traces the closed loops of the edges in `edge_rem`, consuming them all.
///
/// Each loop starts at the first corner of some remaining edge and follows
/// remaining edges, each used once, until it is back at its start. Where no
/// remaining edge continues the walk, the walk being built is dropped, the
/// remaining edges are discarded and the loops found so far are returned.
/// On an even outline (such as the outline of a selection) that never
/// happens, and the loops use every edge exactly once.
pub fn boundary_loops(edge_rem: &mut EdgeSet) -> (loops: Vec<Vec<GridCorner>>)
    ensures
        final(edge_rem)@ == Set::<Edge>::empty(),
        forall|i: int| 0 <= i < loops@.len() ==> #[trigger] is_closed_path(loops@[i]@),
        loops_edges(paths_view(loops@)).no_duplicates(),
        forall|e: Edge|
            #[trigger] loops_edges(paths_view(loops@)).contains(e) ==> old(edge_rem)@.contains(e),
        is_even_outline(old(edge_rem)@) ==> loops_edges(paths_view(loops@)).to_set() == old(
            edge_rem,
        )@,
        forall|i: int|
            0 <= i < loops@.len() ==> loops@[i]@.len() >= 2 && loops@[i]@[0] == loops@[i]@.last(),
        forall|i: int, j: int|
            0 <= i < loops@.len() && 0 <= j < loops@[i]@.len() - 1 ==> old(edge_rem)@.contains(
                (#[trigger] loops@[i]@[j], loops@[i]@[j + 1]),
            ) || old(edge_rem)@.contains((loops@[i]@[j + 1], loops@[i]@[j])),
{
    let ghost orig = edge_rem@;
    let adj = edge_rem.adjacency();
    let mut paths: Vec<Vec<GridCorner>> = Vec::new();
    let ghost mut removed: Seq<Edge> = Seq::empty();
    let ghost even = is_even_outline(orig);
    assert(paths_view(paths@) =~= Seq::<Seq<GridCorner>>::empty());
    loop
        invariant
            orig == old(edge_rem)@,
            orig.finite(),
            edge_rem@.finite(),
            even == is_even_outline(orig),
            forall|e: Edge| #[trigger] orig.contains(e) ==> lists_neighbor(adj@, e.0, e.1)
                && lists_neighbor(adj@, e.1, e.0),
            forall|e: Edge| #[trigger] edge_rem@.contains(e) ==> orig.contains(e),
            removed.no_duplicates(),
            forall|e: Edge| #[trigger]
                removed.contains(e) == (orig.contains(e) && !edge_rem@.contains(e)),
            loops_edges(paths_view(paths@)) == removed,
            forall|i: int| 0 <= i < paths@.len() ==> #[trigger] is_closed_path(paths@[i]@),
            forall|i: int| 0 <= i < paths@.len() ==> #[trigger] steps_in(orig, paths@[i]@),
            even ==> forall|v: GridCorner| #[trigger] degree(edge_rem@, v) % 2 == 0,
        ensures
            forall|i: int| 0 <= i < paths@.len() ==> #[trigger] steps_in(orig, paths@[i]@),
            edge_rem@ == Set::<Edge>::empty(),
            removed.no_duplicates(),
            forall|e: Edge| #[trigger]
                removed.contains(e) == (orig.contains(e) && !edge_rem@.contains(e)),
            loops_edges(paths_view(paths@)) == removed,
            forall|i: int| 0 <= i < paths@.len() ==> #[trigger] is_closed_path(paths@[i]@),
        decreases edge_rem@.len(),
    {
        let first = edge_rem.any_edge();
        let (c0, c1) = match first {
            Some(e) => e,
            None => {
                break;
            },
        };
        let mut poly: Vec<GridCorner> = Vec::new();
        poly.push(c0);
        let mut prev = c0;
        let mut cur = c1;
        let start_len = edge_rem.len();
        let max_steps: u128 = start_len as u128 + 64;
        let mut steps: u128 = 0;
        let ghost removed0 = removed;
        let ghost rem0 = edge_rem@;
        assert(poly@ =~= seq![c0]);
        assert(walk_edges(poly@) =~= Seq::<Edge>::empty());
        assert(removed0 + walk_edges(poly@) =~= removed0);
        loop
            invariant_except_break
                poly@[poly@.len() - 1] == prev,
                steps == 0 ==> prev == c0 && cur == c1 && edge_rem@ == rem0,
                steps > 0 ==> edge_rem@.contains(spec_norm_edge(prev, cur)),
                even ==> forall|v: GridCorner| #[trigger] degree(edge_rem@, v) % 2 == (if c0
                    != prev && (v == c0 || v == prev) {
                    1int
                } else {
                    0int
                }),
            invariant
                orig == old(edge_rem)@,
                orig.finite(),
                edge_rem@.finite(),
                even == is_even_outline(orig),
                forall|e: Edge| #[trigger] orig.contains(e) ==> lists_neighbor(adj@, e.0, e.1)
                    && lists_neighbor(adj@, e.1, e.0),
                forall|e: Edge| #[trigger] edge_rem@.contains(e) ==> orig.contains(e),
                removed.no_duplicates(),
                forall|e: Edge| #[trigger]
                    removed.contains(e) == (orig.contains(e) && !edge_rem@.contains(e)),
                loops_edges(paths_view(paths@)) == removed0,
                removed == removed0 + walk_edges(poly@),
                forall|i: int| 0 <= i < paths@.len() ==> #[trigger] is_closed_path(paths@[i]@),
                forall|i: int| 0 <= i < paths@.len() ==> #[trigger] steps_in(orig, paths@[i]@),
                steps_in(orig, poly@),
                poly@.len() >= 1,
                poly@[0] == c0,
                rem0.finite(),
                rem0.contains((c0, c1)),
                start_len == rem0.len(),
                max_steps == start_len + 64,
                steps + edge_rem@.len() == start_len,
            ensures
                poly@.len() >= 2,
                poly@[poly@.len() - 1] == c0,
                steps >= 1,
                even ==> forall|v: GridCorner| #[trigger] degree(edge_rem@, v) % 2 == 0,
            decreases max_steps - steps,
        {
            if steps >= max_steps {
                edge_rem.clear();
                proof {
                    assert(false);
                }
                return paths;
            }
            steps = steps + 1;
            let e = norm_edge(prev, cur);
            let ghost before = edge_rem@;
            let ghost poly_before = poly@;
            proof {
                if even {
                    assert(before.contains(e)) by {
                        if steps == 1 {
                            assert(orig.contains((c0, c1)));
                        }
                    }
                }
            }
            if !edge_rem.remove(e) {
                edge_rem.clear();
                proof {
                    assert(!even);
                    lemma_no_dup_prefix(removed0, walk_edges(poly_before));
                    assert forall|x: Edge| #[trigger]
                        loops_edges(paths_view(paths@)).contains(x) implies orig.contains(x) by {
                        assert(removed.contains(x));
                    }
                }
                proof {
                    lemma_paths_closed_steps(paths@, orig);
                }
                return paths;
            }
            proof {
                assert(orig.contains(e));
                assert(!removed.contains(e));
                let ghost r_old = removed;
                removed = removed.push(e);
                assert forall|i: int, j: int|
                    0 <= i < removed.len() && 0 <= j < removed.len() && i != j implies removed[i]
                    != removed[j] by {
                    if i < removed.len() - 1 && j < removed.len() - 1 {
                        assert(r_old[i] == removed[i] && r_old[j] == removed[j]);
                    } else if i == removed.len() - 1 && j < removed.len() - 1 {
                        assert(r_old[j] == removed[j]);
                        assert(r_old.contains(r_old[j]));
                    } else if j == removed.len() - 1 && i < removed.len() - 1 {
                        assert(r_old[i] == removed[i]);
                        assert(r_old.contains(r_old[i]));
                    }
                }
                assert forall|x: Edge| #[trigger]
                    removed.contains(x) == (orig.contains(x) && !edge_rem@.contains(x)) by {
                    if x != e {
                        if removed.contains(x) {
                            let i = choose|i: int| 0 <= i < removed.len() && removed[i] == x;
                            assert(r_old[i] == x);
                        }
                        if r_old.contains(x) {
                            let i = choose|i: int| 0 <= i < r_old.len() && r_old[i] == x;
                            assert(removed[i] == x);
                        }
                    } else {
                        assert(removed[removed.len() - 1] == e);
                    }
                }
                lemma_walk_push(poly@, cur);
                assert(removed =~= removed0 + walk_edges(poly@.push(cur)));
                if even {
                    assert(corner_lt(e.0, e.1));
                    assert forall|v: GridCorner| #[trigger] degree(edge_rem@, v) % 2 == (if c0
                        != cur && (v == c0 || v == cur) {
                        1int
                    } else {
                        0int
                    }) by {
                        lemma_toggle_degree(before, e, v);
                    }
                }
            }
            proof {
                assert(orig.contains((prev, cur)) || orig.contains((cur, prev)));
                lemma_steps_push(orig, poly@, cur);
            }
            poly.push(cur);
            if same_corner(cur, c0) {
                break;
            }
            let next = next_corner(&adj, edge_rem, prev, cur);
            match next {
                Some(n) => {
                    prev = cur;
                    cur = n;
                },
                None => {
                    proof {
                        if even {
                            assert(degree(edge_rem@, cur) % 2 == 1);
                            lemma_degree_positive(edge_rem@, cur);
                            let f = choose|f: Edge| #[trigger]
                                edge_rem@.contains(f) && (f.0 == cur || f.1 == cur);
                            let other = if f.0 == cur {
                                f.1
                            } else {
                                f.0
                            };
                            assert(orig.contains(f));
                            assert(f == spec_norm_edge(cur, other));
                            assert(lists_neighbor(adj@, cur, other));
                            lemma_norm_edge_symmetric(cur, prev);
                            assert(false);
                        }
                    }
                    edge_rem.clear();
                    proof {
                        lemma_no_dup_prefix(removed0, walk_edges(poly@));
                        assert forall|x: Edge| #[trigger]
                            loops_edges(paths_view(paths@)).contains(x) implies orig.contains(x) by {
                            assert(removed.contains(x));
                        }
                    }
                    proof {
                        lemma_paths_closed_steps(paths@, orig);
                    }
                    return paths;
                },
            }
        }
        proof {
            lemma_paths_view_push(paths@, poly);
            lemma_loops_push(paths_view(paths@), poly@);
        }
        paths.push(poly);
        assert(is_closed_path(paths@[paths@.len() - 1]@));
        assert(steps_in(orig, paths@[paths@.len() - 1]@));
    }
    proof {
        assert forall|e: Edge| #[trigger]
            loops_edges(paths_view(paths@)).contains(e) implies orig.contains(e) by {
        }
        if even {
            assert(loops_edges(paths_view(paths@)).to_set() =~= orig);
        }
        lemma_paths_closed_steps(paths@, orig);
    }
    paths
}

/// A finite set of grid edges.
pub struct EdgeSet {
    keys: HashSet<u32>,
}

impl View for EdgeSet {
    type V = Set<Edge>;

    closed spec fn view(&self) -> Set<Edge> {
        edges_of(self.keys@)
    }
}

impl EdgeSet {
    #[verifier::type_invariant]
    spec fn keys_finite(self) -> bool {
        self.keys@.finite()
    }

    /// An empty set.
    pub fn new() -> (s: EdgeSet)
        ensures
            s@ == Set::<Edge>::empty(),
    {
        let s = EdgeSet { keys: HashSet::new() };
        proof {
            lemma_edges_of_all(s.keys@);
        }
        assert(s@ =~= Set::<Edge>::empty());
        s
    }

    /// The number of edges.
    pub fn len(&self) -> (n: usize)
        ensures
            n == self@.len(),
            self@.finite(),
    {
        proof {
            use_type_invariant(self);
            lemma_edges_of_len(self.keys@);
        }
        self.keys.len()
    }

    /// Whether the set is empty.
    pub fn is_empty(&self) -> (b: bool)
        ensures
            b == (self@ == Set::<Edge>::empty()),
    {
        proof {
            use_type_invariant(self);
            lemma_edges_of_len(self.keys@);
            if self@.len() == 0 {
                assert(self@ =~= Set::<Edge>::empty());
            }
        }
        self.keys.len() == 0
    }

    /// Whether `e` is in the set.
    pub fn contains(&self, e: Edge) -> (b: bool)
        ensures
            b == self@.contains(e),
    {
        proof {
            lemma_edges_of_contains(self.keys@, e);
        }
        self.keys.contains(&Self::key(e))
    }

    fn key(e: Edge) -> (k: u32)
        ensures
            k == edge_key(e),
    {
        ((e.0.0 as u32) << 24u32) | ((e.0.1 as u32) << 16u32) | ((e.1.0 as u32) << 8u32) | (
        e.1.1 as u32)
    }

    fn edge(k: u32) -> (e: Edge)
        ensures
            e == key_edge(k),
    {
        (((k >> 24u32) as u8, ((k >> 16u32) & 0xffu32) as u8), (((k >> 8u32) & 0xffu32) as u8, (k
            & 0xffu32) as u8))
    }

    /// Adds `e`; tells whether it was absent.
    pub fn insert(&mut self, e: Edge) -> (added: bool)
        ensures
            final(self)@ == old(self)@.insert(e),
            added == !old(self)@.contains(e),
    {
        let k = Self::key(e);
        proof {
            lemma_edges_of_contains(self.keys@, e);
        }
        proof {
            use_type_invariant(&*self);
        }
        let mut keys = HashSet::new();
        std::mem::swap(&mut keys, &mut self.keys);
        let added = keys.insert(k);
        self.keys = keys;
        proof {
            lemma_edges_of_all(old(self).keys@);
            lemma_edges_of_all(self.keys@);
            assert forall|x: Edge| #[trigger] self@.contains(x) == old(self)@.insert(e).contains(
                x,
            ) by {
                lemma_edge_key_roundtrip(x);
                lemma_edge_key_roundtrip(e);
                if edge_key(x) == edge_key(e) {
                    assert(x == e);
                }
            }
            assert(self@ =~= old(self)@.insert(e));
        }
        added
    }

    /// Removes `e`; tells whether it was present.
    pub fn remove(&mut self, e: Edge) -> (was_present: bool)
        ensures
            final(self)@ == old(self)@.remove(e),
            was_present == old(self)@.contains(e),
            final(self)@.finite(),
    {
        let k = Self::key(e);
        proof {
            lemma_edges_of_contains(self.keys@, e);
        }
        proof {
            use_type_invariant(&*self);
        }
        let mut keys = HashSet::new();
        std::mem::swap(&mut keys, &mut self.keys);
        let was_present = keys.remove(&k);
        self.keys = keys;
        proof {
            use_type_invariant(&*self);
            lemma_edges_of_len(self.keys@);
        }
        proof {
            lemma_edges_of_all(old(self).keys@);
            lemma_edges_of_all(self.keys@);
            assert forall|x: Edge| #[trigger] self@.contains(x) == old(self)@.remove(e).contains(
                x,
            ) by {
                lemma_edge_key_roundtrip(x);
                lemma_edge_key_roundtrip(e);
                if edge_key(x) == edge_key(e) {
                    assert(x == e);
                }
            }
            assert(self@ =~= old(self)@.remove(e));
        }
        was_present
    }

    /// Removes every edge.
    pub fn clear(&mut self)
        ensures
            final(self)@ == Set::<Edge>::empty(),
    {
        self.keys = HashSet::new();
        proof {
            lemma_edges_of_all(self.keys@);
        }
        assert(self@ =~= Set::<Edge>::empty());
    }

    /// For every edge of the set, each corner listed among the neighbors of the other.
    fn adjacency(&self) -> (adj: HashMap<u16, Vec<GridCorner>>)
        ensures
            self@.finite(),
            forall|e: Edge| #[trigger] self@.contains(e) ==> lists_neighbor(adj@, e.0, e.1)
                && lists_neighbor(adj@, e.1, e.0),
    {
        proof {
            use_type_invariant(self);
            lemma_edges_of_len(self.keys@);
        }
        let mut adj: HashMap<u16, Vec<GridCorner>> = HashMap::new();
        for k in it: self.keys.iter()
            invariant
                forall|j: int|
                    0 <= j < it.index() ==> #[trigger] key_listed(adj@, *it.seq()[j]),
            ensures
                forall|k: u32| #[trigger] self.keys@.contains(k) ==> key_listed(adj@, k),
        {
            let e = Self::edge(*k);
            let ghost before = adj@;
            let ghost i0 = it.index();
            add_neighbor(&mut adj, e.0, e.1);
            let ghost mid = adj@;
            add_neighbor(&mut adj, e.1, e.0);
            proof {
                assert(*it.seq()[i0] == *k);
                assert forall|j: int| 0 <= j <= i0 implies #[trigger] key_listed(adj@, *it.seq()[j]) by {
                    let ej = key_edge(*it.seq()[j]);
                    if j < i0 {
                        assert(key_listed(before, *it.seq()[j]));
                        assert(lists_neighbor(mid, ej.0, ej.1));
                        assert(lists_neighbor(mid, ej.1, ej.0));
                    } else {
                        assert(lists_neighbor(mid, e.0, e.1));
                    }
                    assert(lists_neighbor(adj@, ej.0, ej.1));
                    assert(lists_neighbor(adj@, ej.1, ej.0));
                }
            }
        }
        proof {
            lemma_edges_of_all(self.keys@);
            assert forall|e: Edge| #[trigger] self@.contains(e) implies lists_neighbor(adj@, e.0, e.1)
                && lists_neighbor(adj@, e.1, e.0) by {
                lemma_edge_key_roundtrip(e);
                assert(key_listed(adj@, edge_key(e)));
            }
        }
        adj
    }

    /// Some edge of the set, `None` when it is empty; which edge comes out
    /// depends on the order in which the hash set is walked.
    pub fn any_edge(&self) -> (r: Option<Edge>)
        ensures
            r is None <==> self@ == Set::<Edge>::empty(),
            r matches Some(e) ==> self@.contains(e),
    {
        proof {
            use_type_invariant(self);
            lemma_edges_of_len(self.keys@);
            lemma_edges_of_all(self.keys@);
        }
        let mut found: Option<u32> = None;
        for k in it: self.keys.iter()
            invariant_except_break
                found is None,
                it.index() == 0,
            ensures
                found matches Some(x) ==> self.keys@.contains(x),
                found is None ==> it.seq().len() == 0,
        {
            assert(it.seq().unref().to_set() == self.keys@);
            assert(it.seq().unref()[0] == *k);
            found = Some(*k);
            break;
        }
        match found {
            Some(k) => {
                let e = Self::edge(k);
                proof {
                    lemma_key_edge_roundtrip(k);
                    assert(self.keys@.contains(k));
                    assert(self@.contains(e));
                }
                Some(e)
            },
            None => {
                assert(self.keys@.len() == 0);
                assert(self@ =~= Set::<Edge>::empty());
                None
            },
        }
    }
}

} // verus!
