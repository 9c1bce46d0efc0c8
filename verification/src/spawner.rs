//! Blocks: single tiles with a drawn look, spawned over an area or along
//! the border of a room.

use vstd::prelude::*;
use vstd::arithmetic::div_mod::lemma_fundamental_div_mod_converse;
use crate::draws::after_draw;
use crate::draws::Draws;
use crate::draws::first_draw;
use crate::grid::Pos;

verus! {

/// A tile at a position, with the index of its picture in the atlas.
#[derive(Clone, Copy, Debug, PartialEq, Eq, Structural)]
pub struct Block {
    pub pos: Pos,
    pub atlas_idx: i32,
}

/// How many whole numbers lie between `low` and `high`, both counted.
pub open spec fn span(low: int, high: int) -> int {
    if high >= low {
        high - low + 1
    } else {
        0
    }
}

/// What the draw after `n` others yields on the stream `rest`, reduced
/// below `bound`.
pub open spec fn nth_draw(rest: Seq<u32>, n: int, bound: int) -> int {
    if 0 <= n < rest.len() {
        rest[n] as int % bound
    } else {
        0
    }
}

/// The stream `rest` after `n` draws.
pub open spec fn after_draws(rest: Seq<u32>, n: int) -> Seq<u32> {
    if n <= 0 {
        rest
    } else if n >= rest.len() {
        Seq::empty()
    } else {
        rest.skip(n)
    }
}

/// The atlas index of the `n`-th block: the `n`-th draw picks it from
/// `low` up to but not including `high`. An empty range yields `low`.
pub open spec fn atlas_pick(low: i32, high: i32, rest: Seq<u32>, n: int) -> i32 {
    if low < high {
        (low + nth_draw(rest, n, high - low)) as i32
    } else {
        low
    }
}

/// The stream after `count` blocks have got their atlas index. An empty
/// range reads no draw.
pub open spec fn after_picks(low: i32, high: i32, rest: Seq<u32>, count: int) -> Seq<u32> {
    if low < high {
        after_draws(rest, count)
    } else {
        rest
    }
}

/// The blocks of the area from `start` to `end`, both corners counted:
/// column by column, each column from top to bottom.
pub open spec fn area_blocks(start: Pos, end: Pos, low: i32, high: i32, rest: Seq<u32>) -> Seq<
    Block,
> {
    let rows = span(start.y as int, end.y as int);
    Seq::new(
        (span(start.x as int, end.x as int) * rows) as nat,
        |j: int|
            Block {
                pos: Pos { x: (start.x + j / rows) as i64, y: (start.y + j % rows) as i64 },
                atlas_idx: atlas_pick(low, high, rest, j),
            },
    )
}

/// The number of blocks of the area from `start` to `end`.
pub open spec fn area_count(start: Pos, end: Pos) -> int {
    span(start.x as int, end.x as int) * span(start.y as int, end.y as int)
}

/// Reading one more draw after `n` is reading `n + 1`, and the first draw
/// after `n` is the `n`-th.
pub proof fn lemma_draw_after_draws(rest: Seq<u32>, n: int, bound: int)
    requires
        0 <= n,
    ensures
        after_draw(after_draws(rest, n)) == after_draws(rest, n + 1),
        first_draw(after_draws(rest, n), bound) == nth_draw(rest, n, bound),
{
}

/// Reading `n` draws after `m` is reading `m + n`, and the `n`-th draw
/// after `m` is the one after `m + n`.
pub proof fn lemma_draws_add(rest: Seq<u32>, m: int, n: int, bound: int)
    requires
        0 <= m,
        0 <= n,
    ensures
        after_draws(after_draws(rest, m), n) == after_draws(rest, m + n),
        nth_draw(after_draws(rest, m), n, bound) == nth_draw(rest, m + n, bound),
{
}

fn pick_atlas(low: i32, high: i32, draws: &mut Draws) -> (atlas_idx: i32)
    ensures
        atlas_idx == atlas_pick(low, high, old(draws)@, 0),
        final(draws)@ == after_picks(low, high, old(draws)@, 1),
{
    proof {
        lemma_draw_after_draws(draws@, 0, high - low);
    }
    if low < high {
        let width: u64 = (high as i64 - low as i64) as u64;
        let offset: u64 = draws.below(width);
        (low as i64 + offset as i64) as i32
    } else {
        low
    }
}

/// Appends the blocks of one column to `blocks`: the cells of column `x`
/// from row `top` to row `bottom`, both counted.
fn spawn_column(x: i64, top: i64, bottom: i64, low: i32, high: i32, draws: &mut Draws, blocks: &mut Vec<Block>)
    ensures
        final(blocks)@ == old(blocks)@ + Seq::new(
            span(top as int, bottom as int) as nat,
            |k: int|
                Block {
                    pos: Pos { x, y: (top + k) as i64 },
                    atlas_idx: atlas_pick(low, high, old(draws)@, k),
                },
        ),
        final(draws)@ == after_picks(low, high, old(draws)@, span(top as int, bottom as int)),
{
    let mut y: i128 = top as i128;
    while y <= bottom as i128
        invariant
            top <= y,
            bottom >= top ==> y <= bottom + 1,
            bottom < top ==> y == top,
            blocks@ == old(blocks)@ + Seq::new(
                (y - top) as nat,
                |k: int|
                    Block {
                        pos: Pos { x, y: (top + k) as i64 },
                        atlas_idx: atlas_pick(low, high, old(draws)@, k),
                    },
            ),
            draws@ == after_picks(low, high, old(draws)@, y - top),
        decreases bottom + 1 - y,
    {
        proof {
            lemma_draw_after_draws(old(draws)@, y - top, high - low);
        }
        let atlas_idx = pick_atlas(low, high, draws);
        blocks.push(Block { atlas_idx, pos: Pos { x, y: y as i64 } });
        y = y + 1;
    }
}

/// One block for every cell of the area from `start` to `end`, both
/// corners counted: column by column, each column from top to bottom. The
/// atlas index of each block is drawn from `low` up to but not including
/// `high`.
pub fn spawn_tile_in_area(start: Pos, end: Pos, low: i32, high: i32, draws: &mut Draws) -> (blocks:
    Vec<Block>)
    ensures
        blocks@ == area_blocks(start, end, low, high, old(draws)@),
        final(draws)@ == after_picks(low, high, old(draws)@, area_count(start, end)),
{
    let mut blocks: Vec<Block> = Vec::new();
    let ghost rows = span(start.y as int, end.y as int);
    let mut x: i128 = start.x as i128;
    while x <= end.x as i128
        invariant
            rows == span(start.y as int, end.y as int),
            start.x <= x,
            end.x >= start.x ==> x <= end.x + 1,
            end.x < start.x ==> x == start.x,
            blocks@ == Seq::new(
                ((x - start.x) * rows) as nat,
                |j: int|
                    Block {
                        pos: Pos { x: (start.x + j / rows) as i64, y: (start.y + j % rows) as i64 },
                        atlas_idx: atlas_pick(low, high, old(draws)@, j),
                    },
            ),
            draws@ == after_picks(low, high, old(draws)@, (x - start.x) * rows),
        decreases end.x + 1 - x,
    {
        let ghost done = x - start.x;
        let ghost before = draws@;
        proof {
            assert((done + 1) * rows == done * rows + rows) by (nonlinear_arith);
        }
        spawn_column(x as i64, start.y, end.y, low, high, draws, &mut blocks);
        proof {
            lemma_draws_add(old(draws)@, done * rows, rows, high - low);
            let longer = Seq::new(
                ((done + 1) * rows) as nat,
                |j: int|
                    Block {
                        pos: Pos { x: (start.x + j / rows) as i64, y: (start.y + j % rows) as i64 },
                        atlas_idx: atlas_pick(low, high, old(draws)@, j),
                    },
            );
            assert forall|j: int| done * rows <= j < (done + 1) * rows implies #[trigger] longer[j]
                == (Block {
                pos: Pos { x: x as i64, y: (start.y + (j - done * rows)) as i64 },
                atlas_idx: atlas_pick(low, high, before, j - done * rows),
            }) by {
                lemma_fundamental_div_mod_converse(j, rows, done, j - done * rows);
                lemma_draws_add(old(draws)@, done * rows, j - done * rows, high - low);
            }
        }
        x = x + 1;
    }
    blocks
}

/// The blocks along the border of a room: the top row, the left column
/// between top and bottom row, the bottom row, and the right column
/// between them, each with an atlas index drawn from 0 up to 5.
pub fn spawn_room(pos: Pos, width: i64, height: i64, draws: &mut Draws) -> (blocks: Vec<Block>)
    requires
        i64::MIN < pos.x + width <= i64::MAX,
        i64::MIN < pos.y + height < i64::MAX,
        pos.y < i64::MAX,
    ensures
        ({
            let top = border_strip(pos, width, height, 0);
            let left = border_strip(pos, width, height, 1);
            let bottom = border_strip(pos, width, height, 2);
            let right = border_strip(pos, width, height, 3);
            let after_top = after_draws(old(draws)@, area_count(top.0, top.1));
            let after_left = after_draws(after_top, area_count(left.0, left.1));
            let after_bottom = after_draws(after_left, area_count(bottom.0, bottom.1));
            &&& blocks@ == area_blocks(top.0, top.1, 0, 6, old(draws)@) + area_blocks(
                left.0,
                left.1,
                0,
                6,
                after_top,
            ) + area_blocks(bottom.0, bottom.1, 0, 6, after_left) + area_blocks(
                right.0,
                right.1,
                0,
                6,
                after_bottom,
            )
            &&& final(draws)@ == after_draws(after_bottom, area_count(right.0, right.1))
        }),
{
    let mut blocks: Vec<Block> = Vec::new();
    let mut top = spawn_blocks_in_area(
        Pos { x: pos.x, y: pos.y },
        Pos { x: pos.x + width, y: pos.y },
        draws,
    );
    blocks.append(&mut top);
    let mut left = spawn_blocks_in_area(
        Pos { x: pos.x, y: pos.y + 1 },
        Pos { x: pos.x, y: pos.y + height - 1 },
        draws,
    );
    blocks.append(&mut left);
    let mut bottom = spawn_blocks_in_area(
        Pos { x: pos.x, y: pos.y + height },
        Pos { x: pos.x + width, y: pos.y + height },
        draws,
    );
    blocks.append(&mut bottom);
    let mut right = spawn_blocks_in_area(
        Pos { x: pos.x + width, y: pos.y + 1 },
        Pos { x: pos.x + width, y: pos.y + height - 1 },
        draws,
    );
    blocks.append(&mut right);
    blocks
}

/// The corners of one strip of the border of a room: the top row (0), the
/// left column (1), the bottom row (2) or the right column (3).
pub open spec fn border_strip(pos: Pos, width: i64, height: i64, strip: int) -> (Pos, Pos) {
    if strip == 0 {
        (Pos { x: pos.x, y: pos.y }, Pos { x: (pos.x + width) as i64, y: pos.y })
    } else if strip == 1 {
        (
            Pos { x: pos.x, y: (pos.y + 1) as i64 },
            Pos { x: pos.x, y: (pos.y + height - 1) as i64 },
        )
    } else if strip == 2 {
        (
            Pos { x: pos.x, y: (pos.y + height) as i64 },
            Pos { x: (pos.x + width) as i64, y: (pos.y + height) as i64 },
        )
    } else {
        (
            Pos { x: (pos.x + width) as i64, y: (pos.y + 1) as i64 },
            Pos { x: (pos.x + width) as i64, y: (pos.y + height - 1) as i64 },
        )
    }
}

/// Wall blocks for every cell of an area: atlas indices 0 up to 5.
pub fn spawn_blocks_in_area(start: Pos, end: Pos, draws: &mut Draws) -> (blocks: Vec<Block>)
    ensures
        blocks@ == area_blocks(start, end, 0, 6, old(draws)@),
        final(draws)@ == after_draws(old(draws)@, area_count(start, end)),
{
    spawn_tile_in_area(start, end, 0, 6, draws)
}

/// Floor blocks for every cell of an area: atlas index 6.
pub fn spawn_floor_in_area(start: Pos, end: Pos, draws: &mut Draws) -> (blocks: Vec<Block>)
    ensures
        blocks@ == area_blocks(start, end, 6, 7, old(draws)@),
        final(draws)@ == after_draws(old(draws)@, area_count(start, end)),
{
    spawn_tile_in_area(start, end, 6, 7, draws)
}

} // verus!
