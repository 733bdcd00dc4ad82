use proc_art::fixed::FX_ONE;
use proc_art::tessellate::{grid_cells, GridCell, Orientation, GRID_MARGIN, SIN_60_FX};

fn tri_height(side: i64) -> i64 {
    side * SIN_60_FX / FX_ONE
}

// The tessellation enumerates two triangles per anchor over enough columns
// and rows to cover the canvas with its margin, in column-major order with
// the upright triangle first.
#[test]
fn test_grid_cell_enumeration() {
    let side = 32 * FX_ONE;
    let w = 100 * FX_ONE;
    let h = 90 * FX_ONE;
    let th = tri_height(side);
    let i_max = w / side + GRID_MARGIN;
    let j_max = h / th + GRID_MARGIN;
    let cells = grid_cells(w, h, side);
    assert_eq!(cells.len() as i64, 2 * i_max * j_max);
    for (k, cell) in cells.iter().enumerate() {
        let pair = k as i64 / 2;
        let i = pair / j_max;
        let j = pair % j_max;
        assert_eq!(cell.i as i64, i);
        assert_eq!(cell.j as i64, j);
        let expect_x = if j % 2 == 0 { i * side - side / 2 } else { i * side };
        assert_eq!(cell.anchor.x, expect_x);
        assert_eq!(cell.anchor.y, j * th);
        if k % 2 == 0 {
            assert!(matches!(cell.orientation, Orientation::Up));
        } else {
            assert!(matches!(cell.orientation, Orientation::Down));
        }
    }
}

// The enumerated columns and rows span the canvas: the total area of the
// emitted triangles is at least the canvas area.
#[test]
fn test_grid_covers_canvas_area() {
    for (wpx, hpx, spx) in [(800i64, 600i64, 32i64), (100, 100, 7), (33, 17, 33)] {
        let w = wpx * FX_ONE;
        let h = hpx * FX_ONE;
        let side = spx * FX_ONE;
        let th = tri_height(side);
        let i_max = w / side + GRID_MARGIN;
        let j_max = h / th + GRID_MARGIN;
        let cells = grid_cells(w, h, side);
        assert!(i_max * side >= w);
        assert!(j_max * th >= h);
        // two triangles per anchor cover a side-by-height parallelogram, so
        // the emitted triangles' total area covers the canvas area
        let anchors = (cells.len() / 2) as i64;
        assert_eq!(anchors, i_max * j_max);
        assert!(anchors * side * th >= w * h);
    }
}

// The triangle vertices: upright triangles span anchor, anchor + side and
// the midpoint below; inverted ones share the anchor and the lower edge.
#[test]
fn test_triangle_vertices() {
    let side = 10 * FX_ONE;
    let th = tri_height(side);
    let up = GridCell {
        i: 1,
        j: 2,
        anchor: proc_art::geom::Vec2::new(7 * FX_ONE, 11 * FX_ONE),
        orientation: Orientation::Up,
    };
    let (a, b, c) = up.vertices(side);
    assert_eq!(a, up.anchor);
    assert_eq!(b, proc_art::geom::Vec2::new(17 * FX_ONE, 11 * FX_ONE));
    assert_eq!(c, proc_art::geom::Vec2::new(12 * FX_ONE, 11 * FX_ONE + th));

    let down = GridCell { orientation: Orientation::Down, ..up };
    let (a2, b2, c2) = down.vertices(side);
    assert_eq!(a2, down.anchor);
    assert_eq!(b2, proc_art::geom::Vec2::new(12 * FX_ONE, 11 * FX_ONE + th));
    assert_eq!(c2, proc_art::geom::Vec2::new(2 * FX_ONE, 11 * FX_ONE + th));
}

// The two triangles of a pair sample the noise at different points, half a
// triangle height below the anchor row.
#[test]
fn test_sample_points_differ_per_orientation() {
    let side = 10 * FX_ONE;
    let th = tri_height(side);
    let anchor = proc_art::geom::Vec2::new(40 * FX_ONE, 20 * FX_ONE);
    let up = GridCell { i: 0, j: 0, anchor, orientation: Orientation::Up };
    let down = GridCell { i: 0, j: 0, anchor, orientation: Orientation::Down };
    let pu = up.sample_point(side);
    let pd = down.sample_point(side);
    assert_eq!(pu, proc_art::geom::Vec2::new(45 * FX_ONE, 20 * FX_ONE + th / 2));
    assert_eq!(pd, proc_art::geom::Vec2::new(40 * FX_ONE, 20 * FX_ONE + th / 2));
    assert!(pu != pd);
}
