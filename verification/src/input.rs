//! Key mapping and the queue of pending turns.
use vstd::prelude::*;
use crate::game::types::{Direction, spec_opposite};
use std::collections::VecDeque;

verus! {

broadcast use vstd::std_specs::vecdeque::group_vec_dequeue_axioms;

/// How many turns can wait for the next ticks.
pub const QUEUE_CAP: usize = 2;

#[derive(Copy, Clone, PartialEq, Eq, Debug, Structural)]
pub enum Action {
    Turn(Direction),
    Start,
    Pause,
    Restart,
    Quit,
}

/// A key press as the game reads it: the arrows, a character, Enter, Escape,
/// or anything else.
#[derive(Copy, Clone, PartialEq, Eq, Debug, Structural)]
pub enum Key {
    Up,
    Down,
    Left,
    Right,
    Char(char),
    Enter,
    Esc,
    Other,
}

/// Arrows and WASD turn, R restarts, Q or Escape quits, Enter or Space
/// starts; letters are matched without regard to case.
pub open spec fn spec_map_key(k: Key) -> Option<Action> {
    match k {
        Key::Up => Some(Action::Turn(Direction::Up)),
        Key::Down => Some(Action::Turn(Direction::Down)),
        Key::Left => Some(Action::Turn(Direction::Left)),
        Key::Right => Some(Action::Turn(Direction::Right)),
        Key::Enter => Some(Action::Start),
        Key::Esc => Some(Action::Quit),
        Key::Other => None,
        Key::Char(c) => if c == 'w' || c == 'W' {
            Some(Action::Turn(Direction::Up))
        } else if c == 's' || c == 'S' {
            Some(Action::Turn(Direction::Down))
        } else if c == 'a' || c == 'A' {
            Some(Action::Turn(Direction::Left))
        } else if c == 'd' || c == 'D' {
            Some(Action::Turn(Direction::Right))
        } else if c == 'r' || c == 'R' {
            Some(Action::Restart)
        } else if c == 'q' || c == 'Q' {
            Some(Action::Quit)
        } else if c == ' ' {
            Some(Action::Start)
        } else {
            None
        },
    }
}

pub fn map_key(k: Key) -> (a: Option<Action>)
    ensures
        a == spec_map_key(k),
{
    match k {
        Key::Up => Some(Action::Turn(Direction::Up)),
        Key::Down => Some(Action::Turn(Direction::Down)),
        Key::Left => Some(Action::Turn(Direction::Left)),
        Key::Right => Some(Action::Turn(Direction::Right)),
        Key::Enter => Some(Action::Start),
        Key::Esc => Some(Action::Quit),
        Key::Other => None,
        Key::Char(c) => {
            if c == 'w' || c == 'W' {
                Some(Action::Turn(Direction::Up))
            } else if c == 's' || c == 'S' {
                Some(Action::Turn(Direction::Down))
            } else if c == 'a' || c == 'A' {
                Some(Action::Turn(Direction::Left))
            } else if c == 'd' || c == 'D' {
                Some(Action::Turn(Direction::Right))
            } else if c == 'r' || c == 'R' {
                Some(Action::Restart)
            } else if c == 'q' || c == 'Q' {
                Some(Action::Quit)
            } else if c == ' ' {
                Some(Action::Start)
            } else {
                None
            }
        },
    }
}

/// Whether `d` may follow `prev`: it neither repeats nor reverses it.
pub open spec fn is_turn_from(prev: Direction, d: Direction) -> bool {
    d != prev && d != spec_opposite(prev)
}

/// The direction a new press is checked against: the newest queued turn, or
/// the applied direction when nothing is queued.
pub open spec fn spec_effective(applied: Direction, q: Seq<Direction>) -> Direction {
    if q.len() > 0 {
        q.last()
    } else {
        applied
    }
}

/// The turn before the `i`-th queued one.
pub open spec fn before_turn(applied: Direction, q: Seq<Direction>, i: int) -> Direction {
    if i == 0 {
        applied
    } else {
        q[i - 1]
    }
}

/// At most `QUEUE_CAP` turns wait, and each is a real turn from the one
/// before it.
pub open spec fn queue_ok(applied: Direction, q: Seq<Direction>) -> bool {
    &&& q.len() <= QUEUE_CAP
    &&& forall|i: int| 0 <= i < q.len() ==> is_turn_from(before_turn(applied, q, i), #[trigger] q[i])
}

/// Pushing onto a queue: a real turn from the effective direction is queued
/// while there is room; anything else leaves the queue as it was.
pub open spec fn spec_push(v: (Direction, Seq<Direction>), d: Direction) -> (Direction, Seq<Direction>) {
    if is_turn_from(spec_effective(v.0, v.1), d) && v.1.len() < QUEUE_CAP {
        (v.0, v.1.push(d))
    } else {
        v
    }
}

/// A press is queued exactly when there is room and it neither repeats nor
/// reverses the newest queued turn (the applied direction when nothing is
/// queued); otherwise the queue is left as it was. The applied direction is
/// never changed by a press.
pub proof fn lemma_push_queues_real_turns(v: (Direction, Seq<Direction>), d: Direction)
    ensures
        ({
            let eff = if v.1.len() > 0 { v.1[v.1.len() - 1] } else { v.0 };
            &&& (d != eff && d != spec_opposite(eff) && v.1.len() < QUEUE_CAP) ==> spec_push(v, d) == (
                v.0,
                v.1.push(d),
            )
            &&& !(d != eff && d != spec_opposite(eff) && v.1.len() < QUEUE_CAP) ==> spec_push(v, d) == v
        }),
{
}

/// The upper-case form of a lower-case ASCII letter.
pub open spec fn ascii_upper(c: char) -> char {
    ((c as int) - 32) as char
}

/// Letter keys are matched without regard to case, and R (either case)
/// restarts.
pub proof fn lemma_map_key_ignores_case(c: char)
    requires
        'a' <= c <= 'z',
    ensures
        spec_map_key(Key::Char(c)) == spec_map_key(Key::Char(ascii_upper(c))),
        spec_map_key(Key::Char('r')) == Some(Action::Restart),
        spec_map_key(Key::Char('R')) == Some(Action::Restart),
{
    assert('a' as int == 97 && 'z' as int == 122);
    assert('w' as int == 119 && 'W' as int == 87);
    assert('s' as int == 115 && 'S' as int == 83);
    assert('a' as int == 97 && 'A' as int == 65);
    assert('d' as int == 100 && 'D' as int == 68);
    assert('r' as int == 114 && 'R' as int == 82);
    assert('q' as int == 113 && 'Q' as int == 81);
    assert(' ' as int == 32);
    let u = ascii_upper(c);
    assert(u as int == c as int - 32);
}

/// Popping a queue: the oldest queued turn becomes the applied direction and
/// is returned; with nothing queued the applied direction is returned again.
pub open spec fn spec_pop(v: (Direction, Seq<Direction>)) -> (Direction, (Direction, Seq<Direction>)) {
    if v.1.len() > 0 {
        (v.1[0], (v.1[0], v.1.drop_first()))
    } else {
        (v.0, v)
    }
}

/// A short queue of pending turns.
///
/// Depth 2 is what lets a fast corner (up, then left, inside a single tick)
/// register instead of being swallowed. The reversal check is against the last
/// direction *in the queue*, not the direction currently being travelled:
/// with Right applied and Up queued, a Down press does not reverse Right, so
/// checking against Right would accept it and the next two ticks would apply
/// Up then Down — an instant self-collision.
pub struct DirQueue {
    applied: Direction,
    q: VecDeque<Direction>,
}

impl View for DirQueue {
    /// The applied direction and the queued turns, oldest first.
    type V = (Direction, Seq<Direction>);

    closed spec fn view(&self) -> (Direction, Seq<Direction>) {
        (self.applied, self.q@)
    }
}

impl DirQueue {
    /// At most `QUEUE_CAP` turns wait, and each is a real turn from the one
    /// before it (the applied direction for the first).
    #[verifier::type_invariant]
    closed spec fn inv(self) -> bool {
        queue_ok(self.applied, self.q@)
    }

    pub fn new(initial: Direction) -> (r: DirQueue)
        ensures
            r@ == (initial, Seq::<Direction>::empty()),
    {
        DirQueue { applied: initial, q: VecDeque::with_capacity(QUEUE_CAP) }
    }

    pub fn applied(&self) -> (d: Direction)
        ensures
            d == self@.0,
    {
        self.applied
    }

    pub fn len(&self) -> (n: usize)
        ensures
            n == self@.1.len(),
            n <= QUEUE_CAP,
    {
        proof {
            use_type_invariant(self);
        }
        self.q.len()
    }

    pub fn is_empty(&self) -> (b: bool)
        ensures
            b == (self@.1.len() == 0),
    {
        self.q.len() == 0
    }

    fn effective(&self) -> (d: Direction)
        ensures
            d == spec_effective(self@.0, self@.1),
    {
        let n = self.q.len();
        if n > 0 {
            self.q[n - 1]
        } else {
            self.applied
        }
    }

    /// Queues a turn. A repeat or a reversal of the effective direction is
    /// discarded, and so is any press while the queue is full.
    pub fn push(&mut self, d: Direction)
        ensures
            final(self)@ == spec_push(old(self)@, d),
    {
        proof {
            use_type_invariant(&*self);
        }
        let eff = self.effective();
        // A repeat press would burn one of only two slots for no movement.
        if d == eff || d == eff.opposite() {
            return;
        }
        if self.q.len() >= QUEUE_CAP {
            return;
        }
        let mut q: VecDeque<Direction> = VecDeque::new();
        std::mem::swap(&mut q, &mut self.q);
        q.push_back(d);
        self.q = q;
    }

    /// Takes the oldest queued turn as the applied direction, or keeps the
    /// applied one when nothing is queued, and returns it. The result is never
    /// the reverse of the direction applied before.
    pub fn pop(&mut self) -> (d: Direction)
        ensures
            (d, final(self)@) == spec_pop(old(self)@),
            d != spec_opposite(old(self)@.0),
    {
        proof {
            use_type_invariant(&*self);
        }
        if self.q.len() > 0 {
            let ghost before = self.q@;
            let mut q: VecDeque<Direction> = VecDeque::new();
            std::mem::swap(&mut q, &mut self.q);
            let d = q.pop_front().unwrap();
            assert(q@ =~= before.drop_first());
            proof {
                assert(is_turn_from(before_turn(self.applied, before, 1), before[1]) || before.len() < 2);
                assert(queue_ok(d, q@));
            }
            *self = DirQueue { applied: d, q };
        }
        self.applied
    }
}

} // verus!
