use vstd::prelude::*;
use crate::game::rng::{Pcg32, below_draw, below_fuel};
use crate::game::snake::Snake;
use crate::game::types::{Pos, GRID_H, GRID_W};

verus! {

/// The `k`-th cell of the grid in row-major order.
pub open spec fn grid_cell(k: int) -> Pos {
    Pos { x: (k % (GRID_W as int)) as i32, y: (k / (GRID_W as int)) as i32 }
}

/// Every grid cell, row by row, left to right.
pub open spec fn all_cells() -> Seq<Pos> {
    Seq::new((GRID_W * GRID_H) as nat, |k: int| grid_cell(k))
}

/// A cell food may take: not under the snake and not the excluded cell.
pub open spec fn is_free(body: Seq<Pos>, exclude: Option<Pos>) -> spec_fn(Pos) -> bool {
    |p: Pos| !body.contains(p) && exclude != Some(p)
}

/// The free cells of the grid in row-major order.
pub open spec fn free_cells(body: Seq<Pos>, exclude: Option<Pos>) -> Seq<Pos> {
    all_cells().filter(is_free(body, exclude))
}

/// What `spawn` picks: `None` on a full board; otherwise the free cell at the
/// index that one bounded draw of the generator selects.
#[verifier::opaque]
pub open spec fn spawn_pick(body: Seq<Pos>, exclude: Option<Pos>, rng: (u64, u64)) -> (Option<Pos>, (u64, u64)) {
    let free = free_cells(body, exclude);
    if free.len() == 0 {
        (None, rng)
    } else {
        let (i, st) = below_draw(rng.0, rng.1, free.len() as u32, below_fuel());
        (Some(free[i as int]), (st, rng.1))
    }
}

proof fn lemma_grid_cell_in_grid(k: int)
    requires
        0 <= k < GRID_W * GRID_H,
    ensures
        grid_cell(k).in_grid(),
        grid_cell(k) == (Pos { x: (k % 28) as i32, y: (k / 28) as i32 }),
{
}

proof fn lemma_free_cells_facts(body: Seq<Pos>, exclude: Option<Pos>)
    ensures
        free_cells(body, exclude).len() <= GRID_W * GRID_H,
        forall|i: int|
            0 <= i < free_cells(body, exclude).len() ==> {
                let p = #[trigger] free_cells(body, exclude)[i];
                &&& p.in_grid()
                &&& !body.contains(p)
                &&& exclude != Some(p)
            },
        free_cells(body, exclude).len() == 0 <==> forall|p: Pos|
            p.in_grid() ==> body.contains(p) || exclude == Some(p),
{
    let pred = is_free(body, exclude);
    let all = all_cells();
    broadcast use vstd::seq_lib::group_filter_ensures;

    let free = free_cells(body, exclude);
    assert forall|i: int| 0 <= i < free.len() implies (#[trigger] free[i]).in_grid() by {
        assert(free.contains(free[i]));
        all.lemma_filter_contains_rev(pred, free[i]);
        assert(all.contains(free[i]));
        let k = choose|k: int| 0 <= k < all.len() && all[k] == free[i];
        lemma_grid_cell_in_grid(k);
    }
    if free.len() == 0 {
        assert forall|p: Pos| p.in_grid() implies body.contains(p) || exclude == Some(p) by {
            let k = p.y * 28 + p.x;
            assert(all[k] == p);
            if pred(p) {
                assert(free.contains(all[k]));
            }
        }
    } else {
        let p = free[0];
        assert(pred(p));
        assert(p.in_grid());
    }
}

/// Picks a uniformly random free cell.
///
/// Enumerates free cells rather than rejection-sampling: rejection sampling
/// would spin forever on a full board, and would make the daily food sequence
/// depend on how many rejections happened.
///
/// Returns `None` when the board is full, which the caller turns into the win
/// state.
pub fn spawn(snake: &Snake, exclude: Option<Pos>, rng: &mut Pcg32) -> (r: Option<Pos>)
    ensures
        (r, final(rng)@) == spawn_pick(snake@.body, exclude, old(rng)@),
        r matches Some(p) ==> p.in_grid() && !snake@.body.contains(p) && exclude != Some(p),
        r is None <==> forall|p: Pos| p.in_grid() ==> snake@.body.contains(p) || exclude == Some(p),
{
    let ghost pred = is_free(snake@.body, exclude);
    let ghost all = all_cells();
    let mut free: Vec<Pos> = Vec::with_capacity((GRID_W * GRID_H) as usize);
    let mut y: i32 = 0;
    while y < GRID_H
        invariant
            0 <= y <= GRID_H,
            free@ == all.take(y * GRID_W).filter(pred),
            all == all_cells(),
            pred == is_free(snake@.body, exclude),
        decreases GRID_H - y,
    {
        let mut x: i32 = 0;
        while x < GRID_W
            invariant
                0 <= y < GRID_H,
                0 <= x <= GRID_W,
                free@ == all.take(y * GRID_W + x).filter(pred),
                all == all_cells(),
                pred == is_free(snake@.body, exclude),
            decreases GRID_W - x,
        {
            let p = Pos::new(x, y);
            let ghost k = y * GRID_W + x;
            proof {
                assert(all[k] == p);
                assert(all.take(k + 1).drop_last() =~= all.take(k));
                assert(all.take(k + 1).last() == p);
                reveal_with_fuel(Seq::<_>::filter, 1);
            }
            let excluded = match exclude {
                Some(e) => e == p,
                None => false,
            };
            if !snake.contains(p) && !excluded {
                free.push(p);
            }
            x = x + 1;
        }
        y = y + 1;
    }
    proof {
        assert(all.take(GRID_H * GRID_W) =~= all);
        lemma_free_cells_facts(snake@.body, exclude);
    }
    proof {
        reveal(spawn_pick);
    }
    if free.len() == 0 {
        return None;
    }
    let i = rng.below(free.len() as u32);
    Some(free[i as usize])
}

} // verus!
