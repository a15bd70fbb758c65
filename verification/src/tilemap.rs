//! Plain-text tilemap loader.
//!
//! A map is given as two layers of text lines: a background layer whose
//! recognized codes are `g` (grass) and `d` (dirt), and an obstacle layer
//! whose recognized code is `f` (fence). Every recognized character becomes
//! one tile at grid cell `(column, row)`; any other character is empty
//! space. Obstacle tiles carry the collider flag and are drawn above
//! background tiles. Row and column counts are the maxima observed over
//! both layers and feed the offset that centers the map on the origin.

use vstd::prelude::*;

verus! {

/// Largest supported number of rows or columns of a map.
pub const MAX_DIM: usize = 1_000_000;

/// Largest supported side length of one tile, in world units.
pub const MAX_TILE_SIZE: i64 = 1_000_000;

/// Largest magnitude of a world coordinate produced by the loader:
/// a centering offset plus a tile position stays well inside this bound.
pub const MAX_WORLD: i64 = 2_000_000_000_000;

/// The two layers of a map source.
#[derive(Clone, Copy, Debug, PartialEq, Eq, Structural)]
pub enum Layer {
    Background,
    Obstacle,
}

/// Visual kind of a tile.
#[derive(Clone, Copy, Debug, PartialEq, Eq, Structural)]
pub enum TileKind {
    Grass,
    Dirt,
    Fence,
}

/// One cell of the loaded map: grid position, visual kind, draw depth and
/// whether the tile blocks movement.
#[derive(Clone, Copy, Debug, PartialEq, Eq, Structural)]
pub struct Tile {
    pub col: usize,
    pub row: usize,
    pub kind: TileKind,
    /// Draw order: background tiles at 0, obstacle tiles at 1 (above).
    pub depth: u8,
    pub collider: bool,
}

/// Whether `c` is a recognized tile code of `layer`.
pub open spec fn recognized(layer: Layer, c: char) -> bool {
    match layer {
        Layer::Background => c == 'g' || c == 'd',
        Layer::Obstacle => c == 'f',
    }
}

/// The visual kind a recognized character of `layer` stands for.
pub open spec fn kind_of(layer: Layer, c: char) -> TileKind {
    match layer {
        Layer::Background => if c == 'g' { TileKind::Grass } else { TileKind::Dirt },
        Layer::Obstacle => TileKind::Fence,
    }
}

/// Draw depth of a layer: background below, obstacle above.
pub open spec fn layer_depth(layer: Layer) -> u8 {
    match layer {
        Layer::Background => 0,
        Layer::Obstacle => 1,
    }
}

/// The tile that character `c` of `layer` at grid cell `(col, row)` produces.
pub open spec fn tile_at(layer: Layer, c: char, col: int, row: int) -> Tile {
    Tile {
        col: col as usize,
        row: row as usize,
        kind: kind_of(layer, c),
        depth: layer_depth(layer),
        collider: layer is Obstacle,
    }
}

/// Tiles produced by the first `n` characters of one text line of `layer`,
/// in order of increasing column; unrecognized characters contribute none.
pub open spec fn row_tiles_prefix(line: Seq<char>, row: int, layer: Layer, n: int) -> Seq<Tile>
    decreases n,
{
    if n <= 0 {
        Seq::empty()
    } else {
        row_tiles_prefix(line, row, layer, n - 1) + if recognized(layer, line[n - 1]) {
            seq![tile_at(layer, line[n - 1], n - 1, row)]
        } else {
            Seq::empty()
        }
    }
}

/// Tiles produced by one whole text line of `layer`.
pub open spec fn row_tiles(line: Seq<char>, row: int, layer: Layer) -> Seq<Tile> {
    row_tiles_prefix(line, row, layer, line.len() as int)
}

/// Tiles produced by the first `n` lines of `layer`, row-major.
pub open spec fn layer_tiles_prefix(lines: Seq<Seq<char>>, layer: Layer, n: int) -> Seq<Tile>
    decreases n,
{
    if n <= 0 {
        Seq::empty()
    } else {
        layer_tiles_prefix(lines, layer, n - 1) + row_tiles(lines[n - 1], n - 1, layer)
    }
}

/// All tiles one layer's text produces, row-major.
pub open spec fn layer_tiles(lines: Seq<Seq<char>>, layer: Layer) -> Seq<Tile> {
    layer_tiles_prefix(lines, layer, lines.len() as int)
}

/// The widest line of a layer's text, in characters; zero for no lines.
pub open spec fn max_width(lines: Seq<Seq<char>>) -> nat
    decreases lines.len(),
{
    if lines.len() == 0 {
        0
    } else {
        let rest = max_width(lines.drop_last());
        if lines.last().len() > rest {
            lines.last().len()
        } else {
            rest
        }
    }
}

/// The layer text fits the machine's index range.
pub open spec fn grid_fits(lines: Seq<Seq<char>>) -> bool {
    &&& lines.len() <= usize::MAX
    &&& forall|i: int| 0 <= i < lines.len() ==> (#[trigger] lines[i]).len() <= usize::MAX
}

/// Runtime test matching `recognized`.
pub fn char_recognized(layer: Layer, c: char) -> (b: bool)
    ensures
        b == recognized(layer, c),
{
    match layer {
        Layer::Background => c == 'g' || c == 'd',
        Layer::Obstacle => c == 'f',
    }
}

/// Builds the tile for a recognized character.
pub fn tile_for(layer: Layer, c: char, col: usize, row: usize) -> (t: Tile)
    requires
        recognized(layer, c),
    ensures
        t == tile_at(layer, c, col as int, row as int),
{
    let kind = match layer {
        Layer::Background => if c == 'g' { TileKind::Grass } else { TileKind::Dirt },
        Layer::Obstacle => TileKind::Fence,
    };
    let depth: u8 = match layer {
        Layer::Background => 0,
        Layer::Obstacle => 1,
    };
    let collider = match layer {
        Layer::Background => false,
        Layer::Obstacle => true,
    };
    Tile { col, row, kind, depth, collider }
}

/// Parses one layer's text lines into tiles, and reports the line count and
/// the widest line: every recognized character yields exactly the tile of
/// its cell, in row-major order; all characters, recognized or not, count
/// toward the width.
#[verifier::loop_isolation(false)]
pub fn parse_layer(lines: &Vec<Vec<char>>, layer: Layer) -> (r: (Vec<Tile>, usize, usize))
    ensures
        r.0@ == layer_tiles(lines.deep_view(), layer),
        r.1 == lines@.len(),
        r.2 == max_width(lines.deep_view()),
        forall|i: int|
            0 <= i < r.0@.len() ==> ((#[trigger] r.0@[i]).col as int) < r.2 && ((
            r.0@[i].row as int) < r.1),
{
    let ghost ldv = lines.deep_view();
    assert(ldv.len() == lines@.len());
    let mut tiles: Vec<Tile> = Vec::new();
    let mut width: usize = 0;
    let mut y: usize = 0;
    while y < lines.len()
        invariant
            y <= lines@.len(),
            tiles@ == layer_tiles_prefix(ldv, layer, y as int),
            width == max_width(ldv.take(y as int)),
            forall|i: int|
                0 <= i < tiles@.len() ==> ((#[trigger] tiles@[i]).col as int) < width && ((
                tiles@[i].row as int) < y),
        decreases lines@.len() - y,
    {
        let line: &Vec<char> = &lines[y];
        proof {
            assert(ldv[y as int] =~= line@);
            assert(ldv.take(y + 1).drop_last() =~= ldv.take(y as int));
            assert(ldv.take(y + 1).last() == ldv[y as int]);
        }
        if line.len() > width {
            width = line.len();
        }
        let mut x: usize = 0;
        while x < line.len()
            invariant
                x <= line@.len(),
                width == max_width(ldv.take(y + 1)),
                line@.len() <= width,
                tiles@ == layer_tiles_prefix(ldv, layer, y as int) + row_tiles_prefix(
                    ldv[y as int],
                    y as int,
                    layer,
                    x as int,
                ),
                forall|i: int|
                    0 <= i < tiles@.len() ==> ((#[trigger] tiles@[i]).col as int) < width && ((
                    tiles@[i].row as int) <= y),
            decreases line@.len() - x,
        {
            let c = line[x];
            if char_recognized(layer, c) {
                let t = tile_for(layer, c, x, y);
                tiles.push(t);
                proof {
                    assert(tiles@ =~= layer_tiles_prefix(ldv, layer, y as int)
                        + row_tiles_prefix(ldv[y as int], y as int, layer, x + 1));
                }
            } else {
                proof {
                    assert(tiles@ =~= layer_tiles_prefix(ldv, layer, y as int)
                        + row_tiles_prefix(ldv[y as int], y as int, layer, x + 1));
                }
            }
            x += 1;
        }
        proof {
            assert(tiles@ =~= layer_tiles_prefix(ldv, layer, y + 1));
        }
        y += 1;
    }
    proof {
        assert(ldv.take(y as int) =~= ldv);
    }
    (tiles, y, width)
}

/// A loaded map: all tiles of both layers (background first, row-major
/// within each layer) and the overall row and column counts.
pub struct TileMap {
    pub tiles: Vec<Tile>,
    pub rows: usize,
    pub cols: usize,
}

impl TileMap {
    /// Every tile's cell lies inside the reported extent.
    pub open spec fn wf(&self) -> bool {
        forall|i: int|
            0 <= i < self.tiles@.len() ==> ((#[trigger] self.tiles@[i]).col as int) < self.cols
                && ((self.tiles@[i].row as int) < self.rows)
    }
}

/// All tiles of a two-layer map: the background layer's tiles followed by
/// the obstacle layer's.
pub open spec fn map_tiles(bg: Seq<Seq<char>>, ob: Seq<Seq<char>>) -> Seq<Tile> {
    layer_tiles(bg, Layer::Background) + layer_tiles(ob, Layer::Obstacle)
}

/// Loads both layers: tiles come from `map_tiles`, and the row and column
/// counts are the maxima over the two layers.
pub fn load_map(bg: &Vec<Vec<char>>, ob: &Vec<Vec<char>>) -> (m: TileMap)
    ensures
        m.tiles@ == map_tiles(bg.deep_view(), ob.deep_view()),
        m.rows == if bg@.len() >= ob@.len() { bg@.len() } else { ob@.len() },
        m.cols == if max_width(bg.deep_view()) >= max_width(ob.deep_view()) {
            max_width(bg.deep_view())
        } else {
            max_width(ob.deep_view())
        },
        m.wf(),
{
    let (mut tiles, bg_rows, bg_cols) = parse_layer(bg, Layer::Background);
    let (mut ob_tiles, ob_rows, ob_cols) = parse_layer(ob, Layer::Obstacle);
    tiles.append(&mut ob_tiles);
    let rows = if bg_rows >= ob_rows { bg_rows } else { ob_rows };
    let cols = if bg_cols >= ob_cols { bg_cols } else { ob_cols };
    TileMap { tiles, rows, cols }
}

/// The offset that centers a map of `rows` x `cols` tiles on the origin:
/// half the map's width to the left, half its height upward. Exact because
/// the tile side is even.
pub fn center_offset(rows: usize, cols: usize, tile_size: i64) -> (off: (i64, i64))
    requires
        0 < tile_size <= MAX_TILE_SIZE,
        tile_size % 2 == 0,
        rows <= MAX_DIM,
        cols <= MAX_DIM,
    ensures
        2 * off.0 == -(cols * tile_size),
        2 * off.1 == rows * tile_size,
{
    let half = tile_size / 2;
    assert(tile_size == 2 * half);
    assert(cols * tile_size == 2 * (cols * half)) by (nonlinear_arith)
        requires tile_size == 2 * half;
    assert(rows * tile_size == 2 * (rows * half)) by (nonlinear_arith)
        requires tile_size == 2 * half;
    assert(cols * half <= MAX_DIM * (MAX_TILE_SIZE / 2)) by (nonlinear_arith)
        requires 0 <= half <= MAX_TILE_SIZE / 2, 0 <= cols <= MAX_DIM;
    assert(rows * half <= MAX_DIM * (MAX_TILE_SIZE / 2)) by (nonlinear_arith)
        requires 0 <= half <= MAX_TILE_SIZE / 2, 0 <= rows <= MAX_DIM;
    let off_x = -((cols as i64) * half);
    let off_y = (rows as i64) * half;
    (off_x, off_y)
}

/// Horizontal world coordinate of a tile's center under a map offset.
pub open spec fn tile_world_x(t: Tile, tile_size: int, off_x: int) -> int {
    off_x + t.col * tile_size
}

/// Vertical world coordinate of a tile's center under a map offset:
/// rows grow downward.
pub open spec fn tile_world_y(t: Tile, tile_size: int, off_y: int) -> int {
    off_y - t.row * tile_size
}

/// World positions of the collider tiles among the first `n` tiles,
/// in tile order.
pub open spec fn collider_positions_prefix(
    tiles: Seq<Tile>,
    tile_size: int,
    off_x: int,
    off_y: int,
    n: int,
) -> Seq<(int, int)>
    decreases n,
{
    if n <= 0 {
        Seq::empty()
    } else {
        collider_positions_prefix(tiles, tile_size, off_x, off_y, n - 1) + if tiles[n
            - 1].collider {
            seq![
                (
                    tile_world_x(tiles[n - 1], tile_size, off_x),
                    tile_world_y(tiles[n - 1], tile_size, off_y),
                ),
            ]
        } else {
            Seq::empty()
        }
    }
}

/// World positions of all collider tiles, in tile order.
pub open spec fn collider_positions(
    tiles: Seq<Tile>,
    tile_size: int,
    off_x: int,
    off_y: int,
) -> Seq<(int, int)> {
    collider_positions_prefix(tiles, tile_size, off_x, off_y, tiles.len() as int)
}

/// A world position the resolver can take: within the coordinate range the
/// loader can produce.
pub open spec fn in_world(x: int, y: int) -> bool {
    &&& -MAX_WORLD <= x <= MAX_WORLD
    &&& -MAX_WORLD <= y <= MAX_WORLD
}

/// Computes the world position of every collider tile under the map's
/// centering offset, in tile order.
#[verifier::loop_isolation(false)]
pub fn collider_world_positions(
    tiles: &Vec<Tile>,
    tile_size: i64,
    off_x: i64,
    off_y: i64,
) -> (r: Vec<(i64, i64)>)
    requires
        0 < tile_size <= MAX_TILE_SIZE,
        -MAX_WORLD / 2 <= off_x <= MAX_WORLD / 2,
        -MAX_WORLD / 2 <= off_y <= MAX_WORLD / 2,
        forall|i: int|
            0 <= i < tiles@.len() ==> (#[trigger] tiles@[i]).col <= MAX_DIM && tiles@[i].row
                <= MAX_DIM,
    ensures
        r@.len() == collider_positions(tiles@, tile_size as int, off_x as int, off_y as int).len(),
        forall|i: int|
            0 <= i < r@.len() ==> ((#[trigger] r@[i]).0 as int, r@[i].1 as int)
                == collider_positions(tiles@, tile_size as int, off_x as int, off_y as int)[i],
        forall|i: int| 0 <= i < r@.len() ==> in_world((#[trigger] r@[i]).0 as int, r@[i].1 as int),
{
    let mut r: Vec<(i64, i64)> = Vec::new();
    let mut i: usize = 0;
    while i < tiles.len()
        invariant
            i <= tiles@.len(),
            r@.len() == collider_positions_prefix(
                tiles@,
                tile_size as int,
                off_x as int,
                off_y as int,
                i as int,
            ).len(),
            forall|j: int|
                0 <= j < r@.len() ==> ((#[trigger] r@[j]).0 as int, r@[j].1 as int)
                    == collider_positions_prefix(
                    tiles@,
                    tile_size as int,
                    off_x as int,
                    off_y as int,
                    i as int,
                )[j],
            forall|j: int|
                0 <= j < r@.len() ==> in_world((#[trigger] r@[j]).0 as int, r@[j].1 as int),
        decreases tiles@.len() - i,
    {
        let t = tiles[i];
        if t.collider {
            assert(t.col * tile_size <= MAX_DIM * MAX_TILE_SIZE) by (nonlinear_arith)
                requires 0 <= t.col <= MAX_DIM, 0 < tile_size <= MAX_TILE_SIZE;
            assert(t.row * tile_size <= MAX_DIM * MAX_TILE_SIZE) by (nonlinear_arith)
                requires 0 <= t.row <= MAX_DIM, 0 < tile_size <= MAX_TILE_SIZE;
            assert(0 <= t.col * tile_size) by (nonlinear_arith)
                requires 0 <= t.col, 0 < tile_size;
            assert(0 <= t.row * tile_size) by (nonlinear_arith)
                requires 0 <= t.row, 0 < tile_size;
            let wx = off_x + (t.col as i64) * tile_size;
            let wy = off_y - (t.row as i64) * tile_size;
            r.push((wx, wy));
        }
        i += 1;
    }
    r
}

proof fn lemma_max_width_bounded(lines: Seq<Seq<char>>, bound: int)
    requires
        0 <= bound,
        forall|i: int| 0 <= i < lines.len() ==> (#[trigger] lines[i]).len() <= bound,
    ensures
        max_width(lines) <= bound,
    decreases lines.len(),
{
    if lines.len() == 0 {
    } else {
        lemma_max_width_bounded(lines.drop_last(), bound);
        assert(lines.last() == lines[lines.len() - 1]);
    }
}

/// Everything the renderer and the resolver need from the two layer texts:
/// the tiles, the centering offset, and the collider tiles' world positions
/// under that offset.
pub struct World {
    pub map: TileMap,
    /// Offset of the whole map's parent transform, centering it on the origin.
    pub offset: (i64, i64),
    /// World positions of the collider tiles, in tile order.
    pub walls: Vec<(i64, i64)>,
}

/// Loads both layers and centers the map: the one-stop counterpart of the
/// per-piece functions `load_map`, `center_offset` and
/// `collider_world_positions`, with the same guarantees.
pub fn load_world(bg: &Vec<Vec<char>>, ob: &Vec<Vec<char>>, tile_size: i64) -> (w: World)
    requires
        0 < tile_size <= MAX_TILE_SIZE,
        tile_size % 2 == 0,
        bg@.len() <= MAX_DIM,
        ob@.len() <= MAX_DIM,
        forall|i: int| 0 <= i < bg@.len() ==> (#[trigger] bg@[i])@.len() <= MAX_DIM,
        forall|i: int| 0 <= i < ob@.len() ==> (#[trigger] ob@[i])@.len() <= MAX_DIM,
    ensures
        w.map.tiles@ == map_tiles(bg.deep_view(), ob.deep_view()),
        w.map.rows == if bg@.len() >= ob@.len() { bg@.len() } else { ob@.len() },
        w.map.cols == if max_width(bg.deep_view()) >= max_width(ob.deep_view()) {
            max_width(bg.deep_view())
        } else {
            max_width(ob.deep_view())
        },
        w.map.wf(),
        w.map.rows <= MAX_DIM,
        w.map.cols <= MAX_DIM,
        centered(
            (w.offset.0 as int, w.offset.1 as int),
            w.map.rows as int,
            w.map.cols as int,
            tile_size as int,
        ),
        w.walls@.len() == collider_positions(
            w.map.tiles@,
            tile_size as int,
            w.offset.0 as int,
            w.offset.1 as int,
        ).len(),
        forall|i: int|
            0 <= i < w.walls@.len() ==> ((#[trigger] w.walls@[i]).0 as int, w.walls@[i].1 as int)
                == collider_positions(
                w.map.tiles@,
                tile_size as int,
                w.offset.0 as int,
                w.offset.1 as int,
            )[i],
        forall|i: int|
            0 <= i < w.walls@.len() ==> in_world((#[trigger] w.walls@[i]).0 as int, w.walls@[i].1 as int),
{
    let map = load_map(bg, ob);
    proof {
        assert forall|i: int| 0 <= i < bg.deep_view().len() implies (#[trigger] bg.deep_view()[i]).len()
            <= MAX_DIM by {
            assert(bg.deep_view()[i] =~= bg@[i]@);
        }
        assert forall|i: int| 0 <= i < ob.deep_view().len() implies (#[trigger] ob.deep_view()[i]).len()
            <= MAX_DIM by {
            assert(ob.deep_view()[i] =~= ob@[i]@);
        }
        lemma_max_width_bounded(bg.deep_view(), MAX_DIM as int);
        lemma_max_width_bounded(ob.deep_view(), MAX_DIM as int);
    }
    let offset = center_offset(map.rows, map.cols, tile_size);
    proof {
        assert(map.cols * tile_size <= MAX_DIM * MAX_TILE_SIZE) by (nonlinear_arith)
            requires
                0 <= map.cols <= MAX_DIM,
                0 < tile_size <= MAX_TILE_SIZE,
        ;
        assert(map.rows * tile_size <= MAX_DIM * MAX_TILE_SIZE) by (nonlinear_arith)
            requires
                0 <= map.rows <= MAX_DIM,
                0 < tile_size <= MAX_TILE_SIZE,
        ;
        assert(0 <= map.cols * tile_size) by (nonlinear_arith)
            requires 0 <= map.cols, 0 < tile_size;
        assert(0 <= map.rows * tile_size) by (nonlinear_arith)
            requires 0 <= map.rows, 0 < tile_size;
    }
    let walls = collider_world_positions(&map.tiles, tile_size, offset.0, offset.1);
    World { map, offset, walls }
}

/// How many of `tiles` sit at grid cell `(col, row)`.
pub open spec fn count_at(tiles: Seq<Tile>, col: int, row: int) -> nat
    decreases tiles.len(),
{
    if tiles.len() == 0 {
        0
    } else {
        count_at(tiles.drop_last(), col, row) + (if tiles.last().col as int == col
            && tiles.last().row as int == row {
            1nat
        } else {
            0nat
        })
    }
}

proof fn lemma_count_at_concat(a: Seq<Tile>, b: Seq<Tile>, col: int, row: int)
    ensures
        count_at(a + b, col, row) == count_at(a, col, row) + count_at(b, col, row),
    decreases b.len(),
{
    if b.len() == 0 {
        assert(a + b =~= a);
    } else {
        lemma_count_at_concat(a, b.drop_last(), col, row);
        assert((a + b).drop_last() =~= a + b.drop_last());
        assert((a + b).last() == b.last());
    }
}

proof fn lemma_row_tiles_prefix_count(
    line: Seq<char>,
    row: int,
    layer: Layer,
    n: int,
    col: int,
    r: int,
)
    requires
        0 <= n <= line.len(),
        line.len() <= usize::MAX,
        0 <= row <= usize::MAX,
    ensures
        count_at(row_tiles_prefix(line, row, layer, n), col, r) == if r == row && 0 <= col < n
            && recognized(layer, line[col]) {
            1nat
        } else {
            0nat
        },
    decreases n,
{
    if n <= 0 {
    } else {
        lemma_row_tiles_prefix_count(line, row, layer, n - 1, col, r);
        let prev = row_tiles_prefix(line, row, layer, n - 1);
        assert(count_at(Seq::<Tile>::empty(), col, r) == 0);
        if recognized(layer, line[n - 1]) {
            let t = tile_at(layer, line[n - 1], n - 1, row);
            lemma_count_at_concat(prev, seq![t], col, r);
            assert(seq![t].drop_last() =~= Seq::<Tile>::empty());
            assert(t.col as int == n - 1);
            assert(t.row as int == row);
            assert(count_at(seq![t], col, r) == (if t.col as int == col && t.row as int == r {
                1nat
            } else {
                0nat
            }));
        } else {
            lemma_count_at_concat(prev, Seq::empty(), col, r);
        }
    }
}

proof fn lemma_layer_tiles_prefix_count(
    lines: Seq<Seq<char>>,
    layer: Layer,
    n: int,
    col: int,
    r: int,
)
    requires
        grid_fits(lines),
        0 <= n <= lines.len(),
    ensures
        count_at(layer_tiles_prefix(lines, layer, n), col, r) == if 0 <= r < n && 0 <= col
            < lines[r].len() && recognized(layer, lines[r][col]) {
            1nat
        } else {
            0nat
        },
    decreases n,
{
    if n <= 0 {
    } else {
        lemma_layer_tiles_prefix_count(lines, layer, n - 1, col, r);
        lemma_count_at_concat(
            layer_tiles_prefix(lines, layer, n - 1),
            row_tiles(lines[n - 1], n - 1, layer),
            col,
            r,
        );
        lemma_row_tiles_prefix_count(lines[n - 1], n - 1, layer, lines[n - 1].len() as int, col, r);
    }
}

/// One tile per recognized character: a layer's tiles hold exactly one tile
/// at each grid cell whose character is a recognized code of the layer, and
/// none at any other cell.
pub proof fn lemma_one_tile_per_cell(lines: Seq<Seq<char>>, layer: Layer, col: int, row: int)
    requires
        grid_fits(lines),
        0 <= row < lines.len(),
        0 <= col < lines[row].len(),
    ensures
        count_at(layer_tiles(lines, layer), col, row) == if recognized(layer, lines[row][col]) {
            1nat
        } else {
            0nat
        },
{
    lemma_layer_tiles_prefix_count(lines, layer, lines.len() as int, col, row);
}

/// `t` is the tile that some recognized character of `lines` produces, at
/// that character's cell, with the kind, depth and collider flag that the
/// layer and the character dictate.
pub open spec fn tile_from_grid(lines: Seq<Seq<char>>, layer: Layer, t: Tile) -> bool {
    &&& (t.row as int) < lines.len()
    &&& (t.col as int) < lines[t.row as int].len()
    &&& recognized(layer, lines[t.row as int][t.col as int])
    &&& t == tile_at(layer, lines[t.row as int][t.col as int], t.col as int, t.row as int)
}

proof fn lemma_row_tiles_prefix_shape(line: Seq<char>, row: int, layer: Layer, n: int)
    requires
        0 <= n <= line.len(),
        line.len() <= usize::MAX,
        0 <= row <= usize::MAX,
    ensures
        forall|i: int|
            0 <= i < row_tiles_prefix(line, row, layer, n).len() ==> {
                let t = #[trigger] row_tiles_prefix(line, row, layer, n)[i];
                &&& t.row as int == row
                &&& (t.col as int) < n
                &&& recognized(layer, line[t.col as int])
                &&& t == tile_at(layer, line[t.col as int], t.col as int, row)
            },
    decreases n,
{
    if n <= 0 {
    } else {
        lemma_row_tiles_prefix_shape(line, row, layer, n - 1);
    }
}

proof fn lemma_layer_tiles_prefix_shape(lines: Seq<Seq<char>>, layer: Layer, n: int)
    requires
        grid_fits(lines),
        0 <= n <= lines.len(),
    ensures
        forall|i: int|
            0 <= i < layer_tiles_prefix(lines, layer, n).len() ==> {
                let t = #[trigger] layer_tiles_prefix(lines, layer, n)[i];
                &&& (t.row as int) < n
                &&& tile_from_grid(lines, layer, t)
            },
    decreases n,
{
    if n <= 0 {
    } else {
        lemma_layer_tiles_prefix_shape(lines, layer, n - 1);
        lemma_row_tiles_prefix_shape(lines[n - 1], n - 1, layer, lines[n - 1].len() as int);
    }
}

/// Every tile of a layer comes from a recognized character of that layer's
/// text, carries that character's kind, the layer's depth and collider
/// flag, and sits at the character's cell.
pub proof fn lemma_layer_tiles_from_grid(lines: Seq<Seq<char>>, layer: Layer)
    requires
        grid_fits(lines),
    ensures
        forall|i: int|
            0 <= i < layer_tiles(lines, layer).len() ==> tile_from_grid(
                lines,
                layer,
                #[trigger] layer_tiles(lines, layer)[i],
            ),
{
    lemma_layer_tiles_prefix_shape(lines, layer, lines.len() as int);
}

/// The two layers place tiles independently: the tile count at a cell of
/// the whole map is the background layer's count plus the obstacle
/// layer's. A cell may hold one of each, stacked at different depths.
pub proof fn lemma_map_count_splits(bg: Seq<Seq<char>>, ob: Seq<Seq<char>>, col: int, row: int)
    ensures
        count_at(map_tiles(bg, ob), col, row) == count_at(
            layer_tiles(bg, Layer::Background),
            col,
            row,
        ) + count_at(layer_tiles(ob, Layer::Obstacle), col, row),
{
    lemma_count_at_concat(
        layer_tiles(bg, Layer::Background),
        layer_tiles(ob, Layer::Obstacle),
        col,
        row,
    );
}

/// Obstacle-layer tiles, and only they, carry the collider flag; the flag
/// coincides with being drawn at the obstacle depth.
pub proof fn lemma_collider_iff_obstacle(bg: Seq<Seq<char>>, ob: Seq<Seq<char>>)
    requires
        grid_fits(bg),
        grid_fits(ob),
    ensures
        forall|i: int|
            0 <= i < layer_tiles(bg, Layer::Background).len() ==> !(#[trigger] map_tiles(
                bg,
                ob,
            )[i]).collider,
        forall|i: int|
            layer_tiles(bg, Layer::Background).len() <= i < map_tiles(bg, ob).len() ==> (
            #[trigger] map_tiles(bg, ob)[i]).collider,
        forall|i: int|
            0 <= i < map_tiles(bg, ob).len() ==> ((#[trigger] map_tiles(bg, ob)[i]).collider
                <==> map_tiles(bg, ob)[i].depth == layer_depth(Layer::Obstacle)),
{
    lemma_layer_tiles_from_grid(bg, Layer::Background);
    lemma_layer_tiles_from_grid(ob, Layer::Obstacle);
    let bgt = layer_tiles(bg, Layer::Background);
    let obt = layer_tiles(ob, Layer::Obstacle);
    assert forall|i: int| 0 <= i < bgt.len() implies !(#[trigger] map_tiles(bg, ob)[i]).collider by {
        assert(map_tiles(bg, ob)[i] == bgt[i]);
    }
    assert forall|i: int| bgt.len() <= i < map_tiles(bg, ob).len() implies (#[trigger] map_tiles(
        bg,
        ob,
    )[i]).collider by {
        assert(map_tiles(bg, ob)[i] == obt[i - bgt.len()]);
    }
}

/// The map's extent decides the centering offset: half the width leftward,
/// half the height upward, exactly.
pub open spec fn centered(off: (int, int), rows: int, cols: int, tile_size: int) -> bool {
    &&& 2 * off.0 == -(cols * tile_size)
    &&& 2 * off.1 == rows * tile_size
}

/// The centering offset depends only on the two maxima of row and column
/// counts, not on which layer attained them.
pub proof fn lemma_centering_layer_order_irrelevant(
    off: (int, int),
    bg_rows: int,
    ob_rows: int,
    bg_cols: int,
    ob_cols: int,
    tile_size: int,
)
    requires
        centered(
            off,
            if bg_rows >= ob_rows { bg_rows } else { ob_rows },
            if bg_cols >= ob_cols { bg_cols } else { ob_cols },
            tile_size,
        ),
    ensures
        centered(
            off,
            if ob_rows >= bg_rows { ob_rows } else { bg_rows },
            if ob_cols >= bg_cols { ob_cols } else { bg_cols },
            tile_size,
        ),
{
}

/// The loader is a function of its two text sources alone: two runs on the
/// same sources yield identical tile sequences.
pub proof fn lemma_loader_deterministic(
    first: Seq<Tile>,
    second: Seq<Tile>,
    bg: Seq<Seq<char>>,
    ob: Seq<Seq<char>>,
)
    requires
        first == map_tiles(bg, ob),
        second == map_tiles(bg, ob),
    ensures
        first == second,
{
}

} // verus!
