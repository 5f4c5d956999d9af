use vstd::prelude::*;

verus! {

/// The state of one map cell.
#[derive(Clone, Copy, Debug, PartialEq, Eq, Structural)]
pub enum TileType {
    Wall,
    Floor,
}

/// Position of cell `(x, y)` in the row-major tile sequence of a map that is
/// `width` cells wide.
pub open spec fn cell_index(width: int, x: int, y: int) -> int {
    y * width + x
}

/// `(x, y)` is a coordinate of a `width` by `height` map.
pub open spec fn in_grid(width: int, height: int, x: int, y: int) -> bool {
    0 <= x < width && 0 <= y < height
}

/// `(x, y)` lies on the outer ring of a `width` by `height` map.
pub open spec fn on_border(width: int, height: int, x: int, y: int) -> bool {
    x == 0 || y == 0 || x == width - 1 || y == height - 1
}

/// `(x, y)` is one of `picks`.
pub open spec fn picked(picks: Seq<(i32, i32)>, x: int, y: int) -> bool {
    exists|k: int| 0 <= k < picks.len() && (#[trigger] picks[k]).0 == x && picks[k].1 == y
}

/// The tile that generation leaves at `(x, y)`: a wall on the outer ring and
/// on every picked cell but the reserved one, floor everywhere else.
pub open spec fn generated_tile(
    width: int,
    height: int,
    picks: Seq<(i32, i32)>,
    safe: (i32, i32),
    x: int,
    y: int,
) -> TileType {
    if on_border(width, height, x, y) {
        TileType::Wall
    } else if picked(picks, x, y) && !(x == safe.0 && y == safe.1) {
        TileType::Wall
    } else {
        TileType::Floor
    }
}

/// Every pick is a coordinate of the map.
pub open spec fn picks_in_grid(width: int, height: int, picks: Seq<(i32, i32)>) -> bool {
    forall|k: int|
        0 <= k < picks.len() ==> in_grid(width, height, (#[trigger] picks[k]).0 as int, picks[k].1 as int)
}

/// Every pick is what a roll of a `width - 1` sided and a `height - 1` sided
/// die can give.
pub open spec fn picks_rolled(width: int, height: int, picks: Seq<(i32, i32)>) -> bool {
    forall|k: int|
        0 <= k < picks.len() ==> 1 <= (#[trigger] picks[k]).0 < width && 1 <= picks[k].1 < height
}

/// The map is what generation leaves for some `count` rolled picks.
pub open spec fn generated_from_rolls(m: TileMap, count: int, safe: (i32, i32)) -> bool {
    exists|picks: Seq<(i32, i32)>|
        {
            &&& #[trigger] m.generated_from(picks, safe)
            &&& picks_rolled(m.spec_width(), m.spec_height(), picks)
            &&& picks.len() == count
        }
}

/// The tile at `(x, y)` of a row-major tile sequence.
pub open spec fn grid_at(tiles: Seq<TileType>, width: int, x: int, y: int) -> TileType {
    tiles[cell_index(width, x, y)]
}

/// A cell of the first `rows` rows has an index below `width * rows`.
pub proof fn lemma_index_bound(width: int, rows: int, x: int, y: int)
    by (nonlinear_arith)
    requires
        0 <= x < width,
        0 <= y < rows,
    ensures
        0 <= cell_index(width, x, y) < width * rows,
        width * rows == rows * width,
        y * width <= cell_index(width, x, y) < (y + 1) * width,
{
}

/// The index is injective: two cells of one map with the same index are the
/// same cell.
pub proof fn lemma_index_injective(width: int, x1: int, y1: int, x2: int, y2: int)
    requires
        0 <= x1 < width,
        0 <= x2 < width,
        cell_index(width, x1, y1) == cell_index(width, x2, y2),
    ensures
        x1 == x2,
        y1 == y2,
{
    assert(y1 == y2) by (nonlinear_arith)
        requires
            0 <= x1 < width,
            0 <= x2 < width,
            y1 * width + x1 == y2 * width + x2,
    {
        if y1 < y2 {
            assert((y2 - y1) * width >= width);
        } else if y2 < y1 {
            assert((y1 - y2) * width >= width);
        }
    }
}

/// Index of cell `(x, y)` in the tile sequence of a map 80 cells wide and 50
/// cells high.
pub fn xy_idx(x: i32, y: i32) -> (idx: usize)
    requires
        in_grid(80, 50, x as int, y as int),
    ensures
        idx == cell_index(80, x as int, y as int),
        idx < 4000,
{
    (y as usize * 80) + x as usize
}

/// `rltk::RandomNumberGenerator`, carried as an opaque value.
#[verifier::external_type_specification]
#[verifier::external_body]
pub struct ExRandomNumberGenerator(rltk::RandomNumberGenerator);

/// `rltk::RandomNumberGenerator::new`: a generator seeded by the machine, so
/// nothing is known of what it will hand out.
#[verifier::external_body]
fn fresh_rng() -> rltk::RandomNumberGenerator {
    rltk::RandomNumberGenerator::new()
}

/// `rltk::RandomNumberGenerator::roll_dice` with one die: the roll lies
/// between 1 and the number of sides, both included. Which value comes is up
/// to the generator. A die needs a side, and `sides + 1` must not overflow.
#[verifier::external_body]
fn roll_die(rng: &mut rltk::RandomNumberGenerator, sides: i32) -> (r: i32)
    requires
        1 <= sides < i32::MAX,
    ensures
        1 <= r <= sides,
{
    rng.roll_dice(1, sides)
}

/// A rectangular grid of tiles, stored row by row.
pub struct TileMap {
    width: i32,
    height: i32,
    tiles: Vec<TileType>,
}

impl View for TileMap {
    type V = Seq<TileType>;

    closed spec fn view(&self) -> Seq<TileType> {
        self.tiles@
    }
}

impl TileMap {
    pub closed spec fn spec_width(&self) -> int {
        self.width as int
    }

    pub closed spec fn spec_height(&self) -> int {
        self.height as int
    }

    /// The map has at least one cell, one tile for each cell, and a cell
    /// count that fits the machine.
    pub open spec fn wf(&self) -> bool {
        &&& 1 <= self.spec_width() <= i32::MAX
        &&& 1 <= self.spec_height() <= i32::MAX
        &&& self.spec_width() * self.spec_height() <= usize::MAX
        &&& self@.len() == self.spec_width() * self.spec_height()
    }

    /// `(x, y)` is a coordinate of this map.
    pub open spec fn contains(&self, x: int, y: int) -> bool {
        in_grid(self.spec_width(), self.spec_height(), x, y)
    }

    /// The tile at `(x, y)`.
    pub open spec fn tile(&self, x: int, y: int) -> TileType {
        grid_at(self@, self.spec_width(), x, y)
    }

    /// The cell at `(x, y)` cannot be entered.
    pub open spec fn blocking(&self, x: int, y: int) -> bool {
        self.tile(x, y) == TileType::Wall
    }

    /// Every cell holds what generation from `picks` leaves there.
    pub open spec fn generated_from(&self, picks: Seq<(i32, i32)>, safe: (i32, i32)) -> bool {
        forall|x: int, y: int|
            self.contains(x, y) ==> #[trigger] self.tile(x, y) == generated_tile(
                self.spec_width(),
                self.spec_height(),
                picks,
                safe,
                x,
                y,
            )
    }

    pub fn width(&self) -> (w: i32)
        ensures
            w == self.spec_width(),
    {
        self.width
    }

    pub fn height(&self) -> (h: i32)
        ensures
            h == self.spec_height(),
    {
        self.height
    }

    /// Index of cell `(x, y)` in the tile sequence.
    pub fn index(&self, x: i32, y: i32) -> (idx: usize)
        requires
            self.wf(),
            self.contains(x as int, y as int),
        ensures
            idx == cell_index(self.spec_width(), x as int, y as int),
            idx < self@.len(),
    {
        proof {
            lemma_index_bound(self.width as int, self.height as int, x as int, y as int);
        }
        let row: usize = y as usize;
        let width: usize = self.width as usize;
        assert(row * width == y * self.width) by (nonlinear_arith)
            requires
                row == y,
                width == self.width,
        ;
        row * width + x as usize
    }

    /// The tile at `(x, y)`.
    pub fn tile_at(&self, x: i32, y: i32) -> (t: TileType)
        requires
            self.wf(),
            self.contains(x as int, y as int),
        ensures
            t == self.tile(x as int, y as int),
    {
        let idx = self.index(x, y);
        self.tiles[idx]
    }

    /// Whether the cell at `(x, y)` is a wall.
    pub fn is_blocking(&self, x: i32, y: i32) -> (b: bool)
        requires
            self.wf(),
            self.contains(x as int, y as int),
        ensures
            b == self.blocking(x as int, y as int),
    {
        self.tile_at(x, y) == TileType::Wall
    }

    /// A map whose outer ring is wall and whose interior is floor.
    pub fn bordered(width: i32, height: i32) -> (m: TileMap)
        requires
            width >= 1,
            height >= 1,
            width * height <= usize::MAX,
        ensures
            m.wf(),
            m.spec_width() == width,
            m.spec_height() == height,
            m.generated_from(Seq::empty(), (0, 0)),
    {
        let mut tiles: Vec<TileType> = Vec::new();
        let mut y: i32 = 0;
        while y < height
            invariant
                width >= 1,
                height >= 1,
                0 <= y <= height,
                tiles@.len() == y * width,
                forall|cx: int, cy: int|
                    0 <= cx < width && 0 <= cy < y ==> #[trigger] grid_at(tiles@, width as int, cx, cy)
                        == generated_tile(width as int, height as int, Seq::empty(), (0, 0), cx, cy),
            decreases height - y,
        {
            let mut x: i32 = 0;
            while x < width
                invariant
                    width >= 1,
                    height >= 1,
                    0 <= y < height,
                    0 <= x <= width,
                    tiles@.len() == y * width + x,
                    forall|cx: int, cy: int|
                        0 <= cx < width && (0 <= cy < y || (cy == y && cx < x)) ==> #[trigger] grid_at(
                            tiles@,
                            width as int,
                            cx,
                            cy,
                        ) == generated_tile(width as int, height as int, Seq::empty(), (0, 0), cx, cy),
                decreases width - x,
            {
                let ring = x == 0 || y == 0 || x == width - 1 || y == height - 1;
                let t = if ring {
                    TileType::Wall
                } else {
                    TileType::Floor
                };
                let ghost before = tiles@;
                tiles.push(t);
                proof {
                    assert forall|cx: int, cy: int|
                        0 <= cx < width && (0 <= cy < y || (cy == y && cx < x + 1)) implies #[trigger] grid_at(
                            tiles@,
                            width as int,
                            cx,
                            cy,
                        ) == generated_tile(
                            width as int,
                            height as int,
                            Seq::empty(),
                            (0, 0),
                            cx,
                            cy,
                        ) by {
                        lemma_index_bound(width as int, cy + 1, cx, cy);
                        if cy == y && cx == x {
                        } else {
                            if cy < y {
                                lemma_index_bound(width as int, y as int, cx, cy);
                            }
                            assert(grid_at(tiles@, width as int, cx, cy) == grid_at(
                                before,
                                width as int,
                                cx,
                                cy,
                            ));
                        }
                    }
                }
                x = x + 1;
            }
            proof {
                assert(y * width + width == (y + 1) * width) by (nonlinear_arith);
            }
            y = y + 1;
        }
        proof {
            lemma_index_bound(width as int, height as int, 0, 0);
        }
        TileMap { width, height, tiles }
    }

    /// Turns the cell at `(x, y)` into a wall, unless it is the reserved cell
    /// `(safe_x, safe_y)`.
    pub fn place_wall(&mut self, x: i32, y: i32, safe_x: i32, safe_y: i32)
        requires
            old(self).wf(),
            old(self).contains(x as int, y as int),
        ensures
            final(self).wf(),
            final(self).spec_width() == old(self).spec_width(),
            final(self).spec_height() == old(self).spec_height(),
            forall|cx: int, cy: int|
                old(self).contains(cx, cy) ==> #[trigger] final(self).tile(cx, cy) == (if cx == x && cy
                    == y && !(x == safe_x && y == safe_y) {
                    TileType::Wall
                } else {
                    old(self).tile(cx, cy)
                }),
    {
        if !(x == safe_x && y == safe_y) {
            let idx = self.index(x, y);
            let ghost before = self.tiles@;
            self.tiles.set(idx, TileType::Wall);
            proof {
                assert forall|cx: int, cy: int| self.contains(cx, cy) implies #[trigger] self.tile(
                    cx,
                    cy,
                ) == (if cx == x && cy == y {
                    TileType::Wall
                } else {
                    grid_at(before, self.width as int, cx, cy)
                }) by {
                    lemma_index_bound(self.width as int, self.height as int, cx, cy);
                    if cell_index(self.width as int, cx, cy) == idx {
                        lemma_index_injective(self.width as int, cx, cy, x as int, y as int);
                    }
                }
            }
        }
    }

    /// The map that generation leaves when the random picks are `picks`: the
    /// outer ring is wall, every picked cell but the reserved one is wall, and
    /// all other cells are floor.
    pub fn generate_from(
        width: i32,
        height: i32,
        picks: &Vec<(i32, i32)>,
        safe_x: i32,
        safe_y: i32,
    ) -> (m: TileMap)
        requires
            width >= 1,
            height >= 1,
            width * height <= usize::MAX,
            picks_in_grid(width as int, height as int, picks@),
        ensures
            m.wf(),
            m.spec_width() == width,
            m.spec_height() == height,
            m.generated_from(picks@, (safe_x, safe_y)),
    {
        let mut map = TileMap::bordered(width, height);
        let mut i: usize = 0;
        while i < picks.len()
            invariant
                0 <= i <= picks@.len(),
                map.wf(),
                map.spec_width() == width,
                map.spec_height() == height,
                picks_in_grid(width as int, height as int, picks@),
                map.generated_from(picks@.take(i as int), (safe_x, safe_y)),
            decreases picks@.len() - i,
        {
            let (x, y) = picks[i];
            let ghost before = map;
            map.place_wall(x, y, safe_x, safe_y);
            proof {
                lemma_generated_step(before, map, picks@.take(i as int), picks@.take(i + 1), (x, y), (safe_x, safe_y));
            }
            i = i + 1;
        }
        proof {
            assert(picks@.take(i as int) =~= picks@);
        }
        map
    }

    /// A map with a solid outer ring and `wall_count` walls rolled at random.
    /// A roll may hit a cell twice, the outer ring, or the reserved cell
    /// `(safe_x, safe_y)`, which is left as it is; so fewer than `wall_count`
    /// cells of the interior may end up as walls. A map under two cells wide
    /// or high is all ring, and nothing is rolled for it.
    pub fn generate(width: i32, height: i32, wall_count: usize, safe_x: i32, safe_y: i32) -> (m:
        TileMap)
        requires
            width >= 1,
            height >= 1,
            width * height <= usize::MAX,
        ensures
            m.wf(),
            m.spec_width() == width,
            m.spec_height() == height,
            generated_from_rolls(
                m,
                if width >= 2 && height >= 2 {
                    wall_count as int
                } else {
                    0
                },
                (safe_x, safe_y),
            ),
            forall|x: int, y: int|
                m.contains(x, y) && on_border(width as int, height as int, x, y)
                    ==> #[trigger] m.tile(x, y) == TileType::Wall,
            m.contains(safe_x as int, safe_y as int) && !on_border(
                width as int,
                height as int,
                safe_x as int,
                safe_y as int,
            ) ==> m.tile(safe_x as int, safe_y as int) == TileType::Floor,
    {
        let mut map = TileMap::bordered(width, height);
        let ghost mut picks: Seq<(i32, i32)> = Seq::empty();
        assert(map.generated_from(picks, (safe_x, safe_y))) by {
            assert forall|x: int, y: int| map.contains(x, y) implies #[trigger] map.tile(x, y)
                == generated_tile(width as int, height as int, picks, (safe_x, safe_y), x, y) by {
                assert(!picked(picks, x, y));
            }
        }
        if width >= 2 && height >= 2 {
            let mut rng = fresh_rng();
            let mut i: usize = 0;
            while i < wall_count
                invariant
                    width >= 2,
                    height >= 2,
                    0 <= i <= wall_count,
                    map.wf(),
                    map.spec_width() == width,
                    map.spec_height() == height,
                    picks.len() == i,
                    picks_rolled(width as int, height as int, picks),
                    map.generated_from(picks, (safe_x, safe_y)),
                decreases wall_count - i,
            {
                let x = roll_die(&mut rng, width - 1);
                let y = roll_die(&mut rng, height - 1);
                let ghost before = map;
                let ghost earlier = picks;
                map.place_wall(x, y, safe_x, safe_y);
                proof {
                    picks = earlier.push((x, y));
                    lemma_generated_step(before, map, earlier, picks, (x, y), (safe_x, safe_y));
                }
                i = i + 1;
            }
        }
        proof {
            assert(map.generated_from(picks, (safe_x, safe_y)));
            lemma_border_is_wall(map, picks, (safe_x, safe_y));
            if map.contains(safe_x as int, safe_y as int) && !on_border(
                width as int,
                height as int,
                safe_x as int,
                safe_y as int,
            ) {
                lemma_safe_cell_is_floor(map, picks, (safe_x, safe_y));
            }
        }
        map
    }
}

/// The 80 by 50 map of the game: a solid outer ring, 400 walls rolled at
/// random, and the cell `(40, 25)` kept free.
pub fn new_map_test() -> (m: TileMap)
    ensures
        m.wf(),
        m.spec_width() == 80,
        m.spec_height() == 50,
        generated_from_rolls(m, 400, (40, 25)),
        forall|x: int, y: int|
            m.contains(x, y) && on_border(80, 50, x, y) ==> #[trigger] m.tile(x, y) == TileType::Wall,
        m.tile(40, 25) == TileType::Floor,
{
    TileMap::generate(80, 50, 400, 40, 25)
}

/// On every generated map, whatever was picked, each cell of the outer ring
/// is a wall.
pub proof fn lemma_border_is_wall(m: TileMap, picks: Seq<(i32, i32)>, safe: (i32, i32))
    requires
        m.generated_from(picks, safe),
    ensures
        forall|x: int, y: int|
            m.contains(x, y) && on_border(m.spec_width(), m.spec_height(), x, y)
                ==> #[trigger] m.tile(x, y) == TileType::Wall,
{
}

/// On every generated map, whatever was picked, the reserved cell is floor,
/// provided it lies inside the outer ring.
pub proof fn lemma_safe_cell_is_floor(m: TileMap, picks: Seq<(i32, i32)>, safe: (i32, i32))
    requires
        m.generated_from(picks, safe),
        m.contains(safe.0 as int, safe.1 as int),
        !on_border(m.spec_width(), m.spec_height(), safe.0 as int, safe.1 as int),
    ensures
        m.tile(safe.0 as int, safe.1 as int) == TileType::Floor,
        !m.blocking(safe.0 as int, safe.1 as int),
{
}

/// Adding one pick to the picks changes the generated tile only at the pick.
pub proof fn lemma_picked_push(picks: Seq<(i32, i32)>, pick: (i32, i32), x: int, y: int)
    ensures
        picked(picks.push(pick), x, y) <==> picked(picks, x, y) || (pick.0 == x && pick.1 == y),
{
    let more = picks.push(pick);
    if picked(picks, x, y) {
        let k = choose|k: int| 0 <= k < picks.len() && (#[trigger] picks[k]).0 == x && picks[k].1 == y;
        assert(more[k] == picks[k]);
    }
    if pick.0 == x && pick.1 == y {
        assert(more[picks.len() as int] == pick);
    }
    if picked(more, x, y) {
        let k = choose|k: int| 0 <= k < more.len() && (#[trigger] more[k]).0 == x && more[k].1 == y;
        if k < picks.len() {
            assert(picks[k] == more[k]);
        }
    }
}

/// Placing the next pick on a map generated from `picks` gives the map
/// generated from `picks` with that pick added.
proof fn lemma_generated_step(
    before: TileMap,
    after: TileMap,
    picks: Seq<(i32, i32)>,
    more: Seq<(i32, i32)>,
    pick: (i32, i32),
    safe: (i32, i32),
)
    requires
        before.wf(),
        before.contains(pick.0 as int, pick.1 as int),
        before.generated_from(picks, safe),
        more =~= picks.push(pick),
        after.spec_width() == before.spec_width(),
        after.spec_height() == before.spec_height(),
        forall|cx: int, cy: int|
            before.contains(cx, cy) ==> #[trigger] after.tile(cx, cy) == (if cx == pick.0 && cy == pick.1
                && !(pick.0 == safe.0 && pick.1 == safe.1) {
                TileType::Wall
            } else {
                before.tile(cx, cy)
            }),
    ensures
        after.generated_from(more, safe),
{
    assert forall|x: int, y: int| after.contains(x, y) implies #[trigger] after.tile(x, y)
        == generated_tile(after.spec_width(), after.spec_height(), more, safe, x, y) by {
        lemma_picked_push(picks, pick, x, y);
        assert(before.tile(x, y) == generated_tile(
            before.spec_width(),
            before.spec_height(),
            picks,
            safe,
            x,
            y,
        ));
    }
}

} // verus!
