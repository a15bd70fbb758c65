use tilewalk::tilemap::{
    center_offset, collider_world_positions, load_map, load_world, parse_layer, Layer, Tile,
    TileKind,
};

fn grid(lines: &[&str]) -> Vec<Vec<char>> {
    lines.iter().map(|l| l.chars().collect()).collect()
}

fn tile(col: usize, row: usize, kind: TileKind, depth: u8, collider: bool) -> Tile {
    Tile { col, row, kind, depth, collider }
}

#[test]
fn loader_example_two_layers() {
    // background "gd", obstacle "f " at row 0: g at (0,0), d at (1,0),
    // and a collidable fence at (0,0) drawn above the background.
    let bg = grid(&["gd"]);
    let ob = grid(&["f "]);
    let m = load_map(&bg, &ob);
    assert_eq!(
        m.tiles,
        vec![
            tile(0, 0, TileKind::Grass, 0, false),
            tile(1, 0, TileKind::Dirt, 0, false),
            tile(0, 0, TileKind::Fence, 1, true),
        ]
    );
    assert_eq!(m.rows, 1);
    assert_eq!(m.cols, 2);
}

#[test]
fn loader_places_one_tile_per_recognized_char() {
    let bg = grid(&["gdg", "dgd"]);
    let (tiles, rows, cols) = parse_layer(&bg, Layer::Background);
    assert_eq!(rows, 2);
    assert_eq!(cols, 3);
    assert_eq!(tiles.len(), 6);
    for row in 0..2usize {
        for col in 0..3usize {
            let at_cell: Vec<&Tile> =
                tiles.iter().filter(|t| t.col == col && t.row == row).collect();
            assert_eq!(at_cell.len(), 1);
            let expected = if (row + col) % 2 == 0 { TileKind::Grass } else { TileKind::Dirt };
            assert_eq!(at_cell[0].kind, expected);
        }
    }
}

#[test]
fn loader_skips_unrecognized_chars() {
    let bg = grid(&["g.x d"]);
    let (tiles, rows, cols) = parse_layer(&bg, Layer::Background);
    assert_eq!(rows, 1);
    assert_eq!(cols, 5);
    assert_eq!(
        tiles,
        vec![tile(0, 0, TileKind::Grass, 0, false), tile(4, 0, TileKind::Dirt, 0, false)]
    );
}

#[test]
fn loader_tolerates_blank_and_short_lines() {
    let bg = grid(&["g", "", "ggg"]);
    let (tiles, rows, cols) = parse_layer(&bg, Layer::Background);
    assert_eq!(rows, 3);
    assert_eq!(cols, 3);
    assert_eq!(tiles.len(), 4);
    assert_eq!(tiles[0], tile(0, 0, TileKind::Grass, 0, false));
    assert_eq!(tiles[3], tile(2, 2, TileKind::Grass, 0, false));
}

#[test]
fn loader_dimensions_are_maxima_over_both_layers() {
    // the background contributes the columns, the obstacle layer the rows
    let bg = grid(&["gg"]);
    let ob = grid(&["f", "f"]);
    let m = load_map(&bg, &ob);
    assert_eq!(m.rows, 2);
    assert_eq!(m.cols, 2);
}

#[test]
fn obstacle_tiles_and_only_they_collide() {
    let bg = grid(&["gdgd"]);
    let ob = grid(&["f  f"]);
    let m = load_map(&bg, &ob);
    for t in &m.tiles {
        assert_eq!(t.collider, t.kind == TileKind::Fence);
        assert_eq!(t.collider, t.depth == 1);
    }
    assert_eq!(m.tiles.iter().filter(|t| t.collider).count(), 2);
}

#[test]
fn center_offset_is_half_the_extent() {
    // 3 rows and 4 columns of 200-unit tiles: half of 800 left, half of 600 up
    let off = center_offset(3, 4, 200);
    assert_eq!(off, (-400, 300));
}

#[test]
fn center_offset_independent_of_contributing_layer() {
    let a = load_map(&grid(&["gg"]), &grid(&["f", "f"]));
    let b = load_map(&grid(&["g", "g"]), &grid(&["ff"]));
    assert_eq!(
        center_offset(a.rows, a.cols, 200),
        center_offset(b.rows, b.cols, 200)
    );
}

#[test]
fn loader_runs_identically_twice() {
    let bg = grid(&["gd g", "", "ddd"]);
    let ob = grid(&[" f", "f"]);
    let first = load_map(&bg, &ob);
    let second = load_map(&bg, &ob);
    assert_eq!(first.tiles, second.tiles);
    assert_eq!(first.rows, second.rows);
    assert_eq!(first.cols, second.cols);
}

#[test]
fn collider_positions_carry_the_map_offset() {
    let bg = grid(&["gd"]);
    let ob = grid(&["f f"]);
    let m = load_map(&bg, &ob);
    let off = center_offset(m.rows, m.cols, 200);
    assert_eq!(off, (-300, 100));
    let walls = collider_world_positions(&m.tiles, 200, off.0, off.1);
    // fences at columns 0 and 2 of row 0
    assert_eq!(walls, vec![(-300, 100), (100, 100)]);
}

#[test]
fn load_world_combines_loader_centering_and_walls() {
    let bg = grid(&["gd"]);
    let ob = grid(&["f f"]);
    let w = load_world(&bg, &ob, 200);
    assert_eq!(w.map.tiles.len(), 4);
    assert_eq!((w.map.rows, w.map.cols), (1, 3));
    assert_eq!(w.offset, (-300, 100));
    assert_eq!(w.walls, vec![(-300, 100), (100, 100)]);
}

#[test]
fn world_coordinates_follow_the_cell_formula() {
    // with a zero offset a tile of cell (col, row) sits at (col * tile_size, -row * tile_size)
    let ob = grid(&["f", " f"]);
    let (tiles, _, _) = parse_layer(&ob, Layer::Obstacle);
    let walls = collider_world_positions(&tiles, 200, 0, 0);
    assert_eq!(walls, vec![(0, 0), (200, -200)]);
}
