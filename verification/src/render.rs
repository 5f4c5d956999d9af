use crate::components::{Colour, Position, Renderable};
use crate::map::{cell_index, lemma_index_bound, TileMap, TileType};
use crate::store::{drawable_ids, is_drawable_join, lemma_drawable_count, EntityStore};
use vstd::prelude::*;

verus! {

/// One call of the drawing primitive: a glyph in two colours at a cell.
#[derive(Clone, Copy, Debug, PartialEq, Eq, Structural)]
pub struct DrawCall {
    pub x: i32,
    pub y: i32,
    pub foreground: Colour,
    pub background: Colour,
    pub glyph: u16,
}

/// The code that `rltk::to_cp437` gives a character.
pub uninterp spec fn cp437_code(c: char) -> u16;

/// `rltk::to_cp437`: the character's code in code page 437, a table of the
/// outside crate.
#[verifier::external_body]
pub(crate) fn cp437(c: char) -> (g: u16)
    ensures
        g == cp437_code(c),
{
    rltk::to_cp437(c)
}

pub open spec fn black() -> Colour {
    Colour { r: 0, g: 0, b: 0 }
}

pub open spec fn grey() -> Colour {
    Colour { r: 128, g: 128, b: 128 }
}

pub open spec fn green() -> Colour {
    Colour { r: 0, g: 255, b: 0 }
}

/// How a tile is drawn at `(x, y)`: floor in grey and wall in green, both on
/// black, each with its glyph.
pub open spec fn tile_draw(t: TileType, x: int, y: int, floor_glyph: u16, wall_glyph: u16) -> DrawCall {
    match t {
        TileType::Floor => DrawCall {
            x: x as i32,
            y: y as i32,
            foreground: grey(),
            background: black(),
            glyph: floor_glyph,
        },
        TileType::Wall => DrawCall {
            x: x as i32,
            y: y as i32,
            foreground: green(),
            background: black(),
            glyph: wall_glyph,
        },
    }
}

/// How an entity is drawn: its own glyph and colours at its position.
pub open spec fn entity_draw(p: Position, r: Renderable) -> DrawCall {
    DrawCall { x: p.x, y: p.y, foreground: r.foreground, background: r.background, glyph: r.glyph }
}

/// The first calls of `out` draw the map row by row, one call for each cell.
pub open spec fn draws_map(map: TileMap, out: Seq<DrawCall>, floor_glyph: u16, wall_glyph: u16) -> bool {
    forall|x: int, y: int|
        map.contains(x, y) ==> #[trigger] out[cell_index(map.spec_width(), x, y)] == tile_draw(
            map.tile(x, y),
            x,
            y,
            floor_glyph,
            wall_glyph,
        )
}

/// From `from` on, `out` draws the entities of `found`, one call for each, in
/// their order.
pub open spec fn draws_entities(found: Seq<(u32, Position, Renderable)>, out: Seq<DrawCall>, from: int) -> bool {
    &&& out.len() == from + found.len()
    &&& forall|k: int| 0 <= k < found.len() ==> #[trigger] out[from + k] == entity_draw(found[k].1, found[k].2)
}

/// A frame: the map, cell by cell, then every entity with a position and a
/// renderable, by rising id, so that a later entity covers an earlier one on
/// the same cell.
pub open spec fn is_frame(
    map: TileMap,
    rows: Seq<crate::components::Components>,
    found: Seq<(u32, Position, Renderable)>,
    out: Seq<DrawCall>,
    floor_glyph: u16,
    wall_glyph: u16,
) -> bool {
    &&& is_drawable_join(rows, found)
    &&& draws_map(map, out, floor_glyph, wall_glyph)
    &&& draws_entities(found, out, map.spec_width() * map.spec_height())
}

/// The draw call for one tile.
pub fn style_tile(t: TileType, x: i32, y: i32, floor_glyph: u16, wall_glyph: u16) -> (d: DrawCall)
    ensures
        d == tile_draw(t, x as int, y as int, floor_glyph, wall_glyph),
{
    let background = Colour { r: 0, g: 0, b: 0 };
    match t {
        TileType::Floor => DrawCall {
            x,
            y,
            foreground: Colour { r: 128, g: 128, b: 128 },
            background,
            glyph: floor_glyph,
        },
        TileType::Wall => DrawCall {
            x,
            y,
            foreground: Colour { r: 0, g: 255, b: 0 },
            background,
            glyph: wall_glyph,
        },
    }
}

/// Draws the map with the two glyphs given: one call for each cell, row by
/// row.
pub fn draw_map_with(map: &TileMap, floor_glyph: u16, wall_glyph: u16) -> (out: Vec<DrawCall>)
    requires
        map.wf(),
    ensures
        out@.len() == map.spec_width() * map.spec_height(),
        draws_map(*map, out@, floor_glyph, wall_glyph),
{
    let width = map.width();
    let height = map.height();
    let mut out: Vec<DrawCall> = Vec::new();
    let mut y: i32 = 0;
    while y < height
        invariant
            map.wf(),
            width == map.spec_width(),
            height == map.spec_height(),
            0 <= y <= height,
            out@.len() == y * width,
            forall|cx: int, cy: int|
                0 <= cx < width && 0 <= cy < y ==> #[trigger] out@[cell_index(width as int, cx, cy)]
                    == tile_draw(map.tile(cx, cy), cx, cy, floor_glyph, wall_glyph),
        decreases height - y,
    {
        let mut x: i32 = 0;
        while x < width
            invariant
                map.wf(),
                width == map.spec_width(),
                height == map.spec_height(),
                0 <= y < height,
                0 <= x <= width,
                out@.len() == y * width + x,
                forall|cx: int, cy: int|
                    0 <= cx < width && (0 <= cy < y || (cy == y && cx < x)) ==> #[trigger] out@[cell_index(
                        width as int,
                        cx,
                        cy,
                    )] == tile_draw(map.tile(cx, cy), cx, cy, floor_glyph, wall_glyph),
            decreases width - x,
        {
            let d = style_tile(map.tile_at(x, y), x, y, floor_glyph, wall_glyph);
            let ghost before = out@;
            out.push(d);
            proof {
                assert forall|cx: int, cy: int|
                    0 <= cx < width && (0 <= cy < y || (cy == y && cx < x + 1)) implies #[trigger] out@[cell_index(
                        width as int,
                        cx,
                        cy,
                    )] == tile_draw(map.tile(cx, cy), cx, cy, floor_glyph, wall_glyph) by {
                    lemma_index_bound(width as int, cy + 1, cx, cy);
                    if cy == y && cx == x {
                    } else {
                        if cy < y {
                            lemma_index_bound(width as int, y as int, cx, cy);
                        }
                        assert(out@[cell_index(width as int, cx, cy)] == before[cell_index(
                            width as int,
                            cx,
                            cy,
                        )]);
                    }
                }
            }
            x = x + 1;
        }
        proof {
            assert(y * width + width == (y + 1) * width) by (nonlinear_arith);
        }
        y = y + 1;
    }
    proof {
        lemma_index_bound(width as int, height as int, 0, 0);
    }
    out
}

/// Draws the map: a full stop for floor and a hash sign for wall.
pub fn draw_map(map: &TileMap) -> (out: Vec<DrawCall>)
    requires
        map.wf(),
    ensures
        out@.len() == map.spec_width() * map.spec_height(),
        draws_map(*map, out@, cp437_code('.'), cp437_code('#')),
{
    let floor_glyph = cp437('.');
    let wall_glyph = cp437('#');
    draw_map_with(map, floor_glyph, wall_glyph)
}

/// Draws a whole frame: the map first, then the entities on top of it. The
/// number of calls is the number of cells plus the number of entities that
/// have a position and a renderable.
pub fn render(map: &TileMap, ecs: &EntityStore) -> (out: Vec<DrawCall>)
    requires
        map.wf(),
    ensures
        exists|found: Seq<(u32, Position, Renderable)>| #[trigger]
            is_frame(*map, ecs@, found, out@, cp437_code('.'), cp437_code('#')),
        out@.len() == map.spec_width() * map.spec_height() + drawable_ids(ecs@).len(),
{
    let mut out = draw_map(map);
    let found = ecs.drawables();
    let ghost cells = out@.len() as int;
    let ghost map_calls = out@;
    let mut k: usize = 0;
    while k < found.len()
        invariant
            0 <= k <= found@.len(),
            cells == map_calls.len(),
            cells == map.spec_width() * map.spec_height(),
            out@.len() == cells + k,
            forall|i: int| 0 <= i < cells ==> out@[i] == map_calls[i],
            forall|j: int| 0 <= j < k ==> #[trigger] out@[cells + j] == entity_draw(found@[j].1, found@[j].2),
        decreases found@.len() - k,
    {
        let (_id, p, r) = found[k];
        out.push(
            DrawCall { x: p.x, y: p.y, foreground: r.foreground, background: r.background, glyph: r.glyph },
        );
        k = k + 1;
    }
    proof {
        assert forall|x: int, y: int| map.contains(x, y) implies #[trigger] out@[cell_index(
            map.spec_width(),
            x,
            y,
        )] == tile_draw(map.tile(x, y), x, y, cp437_code('.'), cp437_code('#')) by {
            lemma_index_bound(map.spec_width(), map.spec_height(), x, y);
            let i = cell_index(map.spec_width(), x, y);
            assert(map_calls[i] == tile_draw(map.tile(x, y), x, y, cp437_code('.'), cp437_code('#')));
            assert(out@[i] == map_calls[i]);
        }
        assert(is_frame(*map, ecs@, found@, out@, cp437_code('.'), cp437_code('#')));
        lemma_drawable_count(ecs@, found@);
    }
    out
}

} // verus!
