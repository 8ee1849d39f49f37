use vstd::prelude::*;
use crate::game::types::{Direction, Pos, GRID_H, GRID_W, spec_delta};
use std::collections::VecDeque;
use vstd::std_specs::iter::IteratorSpec;

verus! {

broadcast use vstd::std_specs::vecdeque::group_vec_dequeue_axioms;

#[derive(Copy, Clone, PartialEq, Eq, Debug, Structural)]
pub enum StepOutcome {
    Moved,
    HitWall,
    HitSelf,
}

/// What a snake is: its cells head first, its heading, and the number of
/// steps on which it still grows instead of moving its tail.
pub ghost struct SnakeModel {
    pub body: Seq<Pos>,
    pub dir: Direction,
    pub grow: nat,
}

pub struct Snake {
    body: VecDeque<Pos>,
    dir: Direction,
    grow: u32,
}

impl View for Snake {
    type V = SnakeModel;

    closed spec fn view(&self) -> SnakeModel {
        SnakeModel { body: self.body@, dir: self.dir, grow: self.grow as nat }
    }
}

/// The body `Snake::new` lays out: `len` cells from `head`, trailing behind
/// it opposite `dir`.
pub open spec fn laid_body(head: Pos, len: nat, dir: Direction) -> Seq<Pos> {
    Seq::new(
        len,
        |i: int|
            Pos {
                x: (head.x - spec_delta(dir).0 * i) as i32,
                y: (head.y - spec_delta(dir).1 * i) as i32,
            },
    )
}

/// The number of cells `Snake::new` lays for a requested length: the length
/// as an `i32` (truncated to 32 bits), or none when that is negative.
pub open spec fn laid_len(len: usize) -> nat {
    let n = len as i32;
    if n > 0 {
        n as nat
    } else {
        0
    }
}

/// Every cell of that layout fits in an `i32` pair.
pub open spec fn laid_body_fits(head: Pos, len: nat, dir: Direction) -> bool {
    len > 0 ==> {
        &&& i32::MIN <= head.x - spec_delta(dir).0 * (len - 1) <= i32::MAX
        &&& i32::MIN <= head.y - spec_delta(dir).1 * (len - 1) <= i32::MAX
    }
}

/// The cell one step from `head` along `dir`, before any wrapping.
pub open spec fn raw_next(head: Pos, dir: Direction) -> (int, int) {
    (head.x + spec_delta(dir).0, head.y + spec_delta(dir).1)
}

/// The step from `head` can be computed in `i32`.
pub open spec fn step_fits(head: Pos, dir: Direction) -> bool {
    &&& i32::MIN <= raw_next(head, dir).0 <= i32::MAX
    &&& i32::MIN <= raw_next(head, dir).1 <= i32::MAX
}

/// Where the head goes when stepping along `dir`: `None` when it would leave
/// the grid and the walls do not wrap; otherwise the cell, wrapped onto the
/// grid when it left it.
pub open spec fn next_cell(head: Pos, dir: Direction, wrap: bool) -> Option<Pos> {
    let (nx, ny) = raw_next(head, dir);
    if 0 <= nx < GRID_W && 0 <= ny < GRID_H {
        Some(Pos { x: nx as i32, y: ny as i32 })
    } else if !wrap {
        None
    } else {
        Some(Pos { x: (nx % (GRID_W as int)) as i32, y: (ny % (GRID_H as int)) as i32 })
    }
}

/// The cells the new head may not enter: the whole body while growing,
/// otherwise all but the tail, which vacates on the same step.
pub open spec fn obstacles(m: SnakeModel) -> Seq<Pos> {
    if m.grow > 0 {
        m.body
    } else {
        m.body.drop_last()
    }
}

/// One step of the snake along `dir`: the outcome and the snake after it.
/// The heading becomes `dir` whatever happens; the body and growth change
/// only when the snake moves.
pub open spec fn step_spec(m: SnakeModel, dir: Direction, wrap: bool) -> (StepOutcome, SnakeModel) {
    let turned = SnakeModel { dir, ..m };
    match next_cell(m.body[0], dir, wrap) {
        None => (StepOutcome::HitWall, turned),
        Some(next) => if obstacles(m).contains(next) {
            (StepOutcome::HitSelf, turned)
        } else if m.grow > 0 {
            (
                StepOutcome::Moved,
                SnakeModel { body: seq![next] + m.body, dir, grow: (m.grow - 1) as nat },
            )
        } else {
            (StepOutcome::Moved, SnakeModel { body: seq![next] + m.body.drop_last(), dir, grow: m.grow })
        },
    }
}

/// No cell occurs twice in `s`.
pub open spec fn no_repeats(s: Seq<Pos>) -> bool {
    forall|i: int, j: int| 0 <= i < j < s.len() ==> s[i] != s[j]
}

/// Every cell of `s` is on the grid.
pub open spec fn all_in_grid(s: Seq<Pos>) -> bool {
    forall|i: int| 0 <= i < s.len() ==> (#[trigger] s[i]).in_grid()
}

/// A snake whose body is non-empty, on the grid, and never overlaps itself.
pub open spec fn simple_body(s: Seq<Pos>) -> bool {
    s.len() > 0 && no_repeats(s) && all_in_grid(s)
}

/// `v % m` for a positive `m`, with the sign of `m` (Euclidean remainder).
fn wrap_coord(v: i32, m: i32) -> (r: i32)
    requires
        m > 0,
    ensures
        r == v as int % m as int,
{
    if v >= 0 {
        let t = (v as u32) % (m as u32);
        t as i32
    } else {
        let a: u64 = (0i64 - v as i64) as u64;
        let t: u64 = a % (m as u64);
        proof {
            lemma_neg_mod(v as int, m as int, a as int, t as int);
        }
        if t == 0 {
            0
        } else {
            (m as u64 - t) as i32
        }
    }
}

proof fn lemma_neg_mod(v: int, m: int, a: int, t: int)
    requires
        m > 0,
        v < 0,
        a == -v,
        t == a % m,
    ensures
        t == 0 ==> v % m == 0,
        t != 0 ==> v % m == m - t,
{
    let q = a / m;
    assert(a == q * m + t) by (nonlinear_arith)
        requires m > 0, q == a / m, t == a % m;
    assert(0 <= t < m);
    if t == 0 {
        assert(v == (-q) * m) by (nonlinear_arith)
            requires v == -a, a == q * m + t, t == 0;
        vstd::arithmetic::div_mod::lemma_mod_multiples_basic(-q, m);
    } else {
        assert(v == (-q - 1) * m + (m - t)) by (nonlinear_arith)
            requires v == -a, a == q * m + t;
        vstd::arithmetic::div_mod::lemma_fundamental_div_mod_converse(v, m, -q - 1, m - t);
    }
}

impl Snake {
    /// `body[0]` is the head; the remaining segments trail behind it opposite
    /// `dir`.
    /// The segment count is `len` taken as an `i32`, as the layout loop
    /// counts in `i32`; a count that comes out negative lays no cells.
    pub fn new(head: Pos, len: usize, dir: Direction) -> (s: Snake)
        requires
            laid_body_fits(head, laid_len(len), dir),
        ensures
            s@ == (SnakeModel { body: laid_body(head, laid_len(len), dir), dir, grow: 0 }),
    {
        let (dx, dy) = dir.delta();
        let cap = if len > 8 { len } else { 8 };
        let mut body: VecDeque<Pos> = VecDeque::with_capacity(cap);
        let m = #[verifier::truncate] (len as i32);
        let n: i32 = if m > 0 { m } else { 0 };
        let mut i: i32 = 0;
        while i < n
            invariant
                0 <= i <= n,
                n == laid_len(len),
                dx == spec_delta(dir).0,
                dy == spec_delta(dir).1,
                laid_body_fits(head, laid_len(len), dir),
                body@ == laid_body(head, i as nat, dir),
            decreases n - i,
        {
            assert(-1 <= dx <= 1 && -1 <= dy <= 1);
            assert(i32::MIN <= head.x - dx * i <= i32::MAX) by (nonlinear_arith)
                requires
                    -1 <= dx <= 1,
                    0 <= i < n,
                    i32::MIN <= head.x - dx * (n - 1) <= i32::MAX,
                    i32::MIN <= head.x <= i32::MAX;
            assert(i32::MIN <= head.y - dy * i <= i32::MAX) by (nonlinear_arith)
                requires
                    -1 <= dy <= 1,
                    0 <= i < n,
                    i32::MIN <= head.y - dy * (n - 1) <= i32::MAX,
                    i32::MIN <= head.y <= i32::MAX;
            body.push_back(Pos::new(head.x - dx * i, head.y - dy * i));
            assert(body@ =~= laid_body(head, (i + 1) as nat, dir));
            i = i + 1;
        }
        Snake { body, dir, grow: 0 }
    }

    pub fn head(&self) -> (p: Pos)
        requires
            self@.body.len() > 0,
        ensures
            p == self@.body[0],
    {
        self.body[0]
    }

    pub fn len(&self) -> (n: usize)
        ensures
            n == self@.body.len(),
    {
        self.body.len()
    }

    pub fn dir(&self) -> (d: Direction)
        ensures
            d == self@.dir,
    {
        self.dir
    }

    /// Whether the next move will lengthen the snake instead of moving its tail.
    pub fn is_growing(&self) -> (b: bool)
        ensures
            b == (self@.grow > 0),
    {
        self.grow > 0
    }

    /// The cells, head first.
    pub fn iter(&self) -> (it: std::collections::vec_deque::Iter<'_, Pos>)
        ensures
            IteratorSpec::remaining(&it) == self@.body.map_values(|p: Pos| &p),
    {
        proof {
            assert(self.body@.as_ref() =~= self@.body.map_values(|p: Pos| &p));
        }
        self.body.iter()
    }

    /// Whether one of the first `k` cells is `p`.
    fn prefix_contains(&self, k: usize, p: Pos) -> (b: bool)
        requires
            k <= self@.body.len(),
        ensures
            b == self@.body.take(k as int).contains(p),
    {
        let mut i: usize = 0;
        while i < k
            invariant
                i <= k,
                k <= self.body@.len(),
                forall|j: int| 0 <= j < i ==> self.body@[j] != p,
            decreases k - i,
        {
            if self.body[i] == p {
                assert(self.body@.take(k as int)[i as int] == p);
                return true;
            }
            i = i + 1;
        }
        assert forall|j: int| 0 <= j < self.body@.take(k as int).len() implies
            self.body@.take(k as int)[j] != p by {}
        false
    }

    pub fn contains(&self, p: Pos) -> (b: bool)
        ensures
            b == self@.body.contains(p),
    {
        let r = self.prefix_contains(self.body.len(), p);
        assert(self.body@.take(self.body@.len() as int) =~= self.body@);
        r
    }

    /// Makes the next `n` moves lengthen the snake.
    pub fn grow(&mut self, n: u32)
        requires
            old(self)@.grow + n <= u32::MAX,
        ensures
            final(self)@ == (SnakeModel { grow: old(self)@.grow + n as nat, ..old(self)@ }),
    {
        self.grow = self.grow + n;
    }

    /// Moves the head one cell along `dir`. The move fails, leaving the body
    /// where it was, when the head would leave a non-wrapping grid or enter
    /// its own body; the tail counts as free unless the snake is growing.
    pub fn step(&mut self, dir: Direction, wrap: bool) -> (o: StepOutcome)
        requires
            old(self)@.body.len() > 0,
            step_fits(old(self)@.body[0], dir),
        ensures
            (o, final(self)@) == step_spec(old(self)@, dir, wrap),
    {
        self.dir = dir;
        let (dx, dy) = dir.delta();
        let head = self.head();
        let mut nx = head.x + dx;
        let mut ny = head.y + dy;

        if nx < 0 || nx >= GRID_W || ny < 0 || ny >= GRID_H {
            if !wrap {
                return StepOutcome::HitWall;
            }
            nx = wrap_coord(nx, GRID_W);
            ny = wrap_coord(ny, GRID_H);
        }
        let next = Pos::new(nx, ny);
        let ghost m = old(self)@;
        assert(next_cell(m.body[0], dir, wrap) == Some(next));

        // The tail vacates on this same tick unless we are growing, so it is
        // not an obstacle in that case.
        let growing = self.grow > 0;
        let n = self.body.len();
        let occupied = if growing {
            self.prefix_contains(n, next)
        } else {
            self.prefix_contains(n - 1, next)
        };
        proof {
            assert(m.body.take(n as int) =~= m.body);
            assert(m.body.take(n - 1) =~= m.body.drop_last());
        }
        if occupied {
            return StepOutcome::HitSelf;
        }

        self.body.push_front(next);
        if growing {
            self.grow = self.grow - 1;
        } else {
            self.body.pop_back();
            assert(self.body@ =~= seq![next] + m.body.drop_last());
        }
        StepOutcome::Moved
    }

    /// A snake with exactly these cells, head first, not growing.
    pub fn from_cells(cells: Vec<Pos>, dir: Direction) -> (s: Snake)
        ensures
            s@ == (SnakeModel { body: cells@, dir, grow: 0 }),
    {
        let mut body: VecDeque<Pos> = VecDeque::new();
        let mut i: usize = 0;
        while i < cells.len()
            invariant
                i <= cells@.len(),
                body@ == cells@.take(i as int),
            decreases cells@.len() - i,
        {
            body.push_back(cells[i]);
            assert(body@ =~= cells@.take(i as int + 1));
            i = i + 1;
        }
        assert(cells@.take(i as int) =~= cells@);
        Snake { body, dir, grow: 0 }
    }
}

/// A step either moves the snake or leaves its cells and growth untouched,
/// and the length plus the pending growth never changes.
pub proof fn lemma_step_conserves_length(m: SnakeModel, dir: Direction, wrap: bool)
    requires
        m.body.len() > 0,
    ensures
        ({
            let (o, m2) = step_spec(m, dir, wrap);
            &&& m2.body.len() + m2.grow == m.body.len() + m.grow
            &&& m2.dir == dir
            &&& o != StepOutcome::Moved ==> m2.body == m.body && m2.grow == m.grow
            &&& o == StepOutcome::Moved && m.grow > 0 ==> m2.body.len() == m.body.len() + 1
            &&& o == StepOutcome::Moved && m.grow == 0 ==> m2.body.len() == m.body.len()
        }),
{
}

/// A move keeps a simple body simple: on the grid and never overlapping
/// itself; the new head is the cell next to the old one.
pub proof fn lemma_step_keeps_body_simple(m: SnakeModel, dir: Direction, wrap: bool)
    requires
        simple_body(m.body),
    ensures
        ({
            let (o, m2) = step_spec(m, dir, wrap);
            &&& simple_body(m2.body)
            &&& o == StepOutcome::Moved ==> Some(m2.body[0]) == next_cell(m.body[0], dir, wrap)
        }),
{
    let (o, m2) = step_spec(m, dir, wrap);
    if o == StepOutcome::Moved {
        let next = m2.body[0];
        let rest = obstacles(m);
        assert(m2.body =~= seq![next] + rest);
        assert forall|i: int, j: int| 0 <= i < j < m2.body.len() implies m2.body[i] != m2.body[j] by {
            if i == 0 {
                assert(rest[j - 1] == m2.body[j]);
                assert(rest.contains(m2.body[j]));
            } else {
                assert(m.body[i - 1] == m2.body[i]);
                assert(m.body[j - 1] == m2.body[j]);
            }
        }
        assert forall|i: int| 0 <= i < m2.body.len() implies (#[trigger] m2.body[i]).in_grid() by {
            if i > 0 {
                assert(m.body[i - 1] == m2.body[i]);
            } else {
                let (nx, ny) = raw_next(m.body[0], dir);
                assert(0 <= nx % (GRID_W as int) < GRID_W);
                assert(0 <= ny % (GRID_H as int) < GRID_H);
            }
        }
    }
}

/// Moving into the cell the tail is leaving is legal when the snake is not
/// growing, and a collision when it is.
pub proof fn lemma_tail_cell(m: SnakeModel, dir: Direction, wrap: bool)
    requires
        no_repeats(m.body),
        m.body.len() >= 2,
        next_cell(m.body[0], dir, wrap) == Some(m.body.last()),
    ensures
        m.grow == 0 ==> step_spec(m, dir, wrap).0 == StepOutcome::Moved,
        m.grow > 0 ==> step_spec(m, dir, wrap).0 == StepOutcome::HitSelf,
{
    let t = m.body.last();
    if m.grow == 0 {
        if m.body.drop_last().contains(t) {
            let k = choose|k: int| 0 <= k < m.body.drop_last().len() && m.body.drop_last()[k] == t;
            assert(m.body[k] == m.body[m.body.len() - 1]);
        }
    } else {
        assert(m.body[m.body.len() - 1] == t);
    }
}

} // verus!
