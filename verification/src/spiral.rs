use vstd::prelude::*;

verus! {

/// Direction of movement over the grid.  The spiral turns through the fixed
/// rotation Down -> Left -> Up -> Right -> Down.
#[derive(Clone, Copy, Debug, PartialEq, Eq, Structural)]
pub enum Direction {
    Up,
    Down,
    Left,
    Right,
}

/// The abstract state of a running spiral traversal: the shrinking bounds,
/// the number of moves left in the current leg, the direction of that leg,
/// and the current position.
pub ghost struct SpState {
    pub rem_x: int,
    pub rem_y: int,
    pub leg: int,
    pub dir: Direction,
    pub x: int,
    pub y: int,
}

/// Turning 90 degrees at the end of a leg: the bound opposite to the
/// completed leg shrinks by one, and the next leg runs for the newly
/// shrunk bound.
pub open spec fn turn(s: SpState) -> SpState {
    match s.dir {
        Direction::Down => SpState { rem_x: s.rem_x - 1, leg: s.rem_x - 1, dir: Direction::Left, ..s },
        Direction::Left => SpState { rem_y: s.rem_y - 1, leg: s.rem_y - 1, dir: Direction::Up, ..s },
        Direction::Up => SpState { rem_x: s.rem_x - 1, leg: s.rem_x - 1, dir: Direction::Right, ..s },
        Direction::Right => SpState { rem_y: s.rem_y - 1, leg: s.rem_y - 1, dir: Direction::Down, ..s },
    }
}

/// One move along the current leg.
pub open spec fn advance(s: SpState) -> SpState {
    match s.dir {
        Direction::Up => SpState { y: s.y - 1, leg: s.leg - 1, ..s },
        Direction::Down => SpState { y: s.y + 1, leg: s.leg - 1, ..s },
        Direction::Left => SpState { x: s.x - 1, leg: s.leg - 1, ..s },
        Direction::Right => SpState { x: s.x + 1, leg: s.leg - 1, ..s },
    }
}

/// The sequence of coordinates still to be yielded from state `s`.
/// When either bound has reached zero the current position is yielded one
/// last time; at the end of a leg the traversal turns without yielding.
pub open spec fn sseq(s: SpState) -> Seq<(int, int)>
    decreases s.rem_x + s.rem_y, s.leg,
        when s.rem_x >= 0 && s.rem_y >= 0 && s.leg >= 0
{
    if s.rem_x <= 0 || s.rem_y <= 0 {
        seq![(s.x, s.y)]
    } else if s.leg <= 0 {
        sseq(turn(s))
    } else {
        seq![(s.x, s.y)] + sseq(advance(s))
    }
}

/// The state a traversal of a `w` by `h` grid starts from: the top-right
/// corner, moving down, with a first leg of `h - 1` moves.
pub open spec fn init_state(w: int, h: int) -> SpState {
    SpState { rem_x: w, rem_y: h, leg: h - 1, dir: Direction::Down, x: w - 1, y: 0 }
}

/// The full visiting order of the inward spiral over a `w` by `h` grid.
pub open spec fn spiral(w: int, h: int) -> Seq<(int, int)> {
    sseq(init_state(w, h))
}

/// The cells of the current leg that are still to be visited: the current
/// position and `leg` further cells in the direction of movement.
pub open spec fn in_leg(s: SpState, c: (int, int)) -> bool {
    match s.dir {
        Direction::Down => c.0 == s.x && s.y <= c.1 <= s.y + s.leg,
        Direction::Up => c.0 == s.x && s.y - s.leg <= c.1 <= s.y,
        Direction::Left => c.1 == s.y && s.x - s.leg <= c.0 <= s.x,
        Direction::Right => c.1 == s.y && s.x <= c.0 <= s.x + s.leg,
    }
}

/// The rectangle of cells beyond the current leg that the spiral has not
/// reached yet.  Its corner sits where the current leg will end, one step
/// to the side the spiral turns towards.
pub open spec fn in_rect(s: SpState, c: (int, int)) -> bool {
    match s.dir {
        Direction::Down => s.x - (s.rem_x - 1) <= c.0 <= s.x - 1 && s.y + s.leg - (s.rem_y - 1)
            <= c.1 <= s.y + s.leg,
        Direction::Up => s.x + 1 <= c.0 <= s.x + (s.rem_x - 1) && s.y - s.leg <= c.1 <= s.y
            - s.leg + (s.rem_y - 1),
        Direction::Left => s.x - s.leg <= c.0 <= s.x - s.leg + (s.rem_x - 1) && s.y - (s.rem_y
            - 1) <= c.1 <= s.y - 1,
        Direction::Right => s.x + s.leg - (s.rem_x - 1) <= c.0 <= s.x + s.leg && s.y + 1 <= c.1
            <= s.y + (s.rem_y - 1),
    }
}

/// The cells that a traversal in state `s` has still to yield.
pub open spec fn unvisited(s: SpState, c: (int, int)) -> bool {
    if s.rem_x <= 0 || s.rem_y <= 0 {
        c == (s.x, s.y)
    } else {
        in_leg(s, c) || in_rect(s, c)
    }
}

/// How many cells a traversal in state `s` has still to yield.
pub open spec fn pending_count(s: SpState) -> int {
    if s.rem_x <= 0 || s.rem_y <= 0 {
        1
    } else {
        match s.dir {
            Direction::Down | Direction::Up => (s.leg + 1) + (s.rem_x - 1) * s.rem_y,
            Direction::Left | Direction::Right => (s.leg + 1) + s.rem_x * (s.rem_y - 1),
        }
    }
}

/// Turning yields nothing and visits nothing: the set of cells still owed
/// is unchanged, and so is their number.
proof fn lemma_turn_unvisited(s: SpState)
    requires
        s.rem_x >= 1,
        s.rem_y >= 1,
        s.leg == 0,
    ensures
        forall|c: (int, int)| unvisited(s, c) <==> unvisited(turn(s), c),
        pending_count(s) == pending_count(turn(s)),
        turn(s).rem_x >= 1 && turn(s).rem_y >= 1 ==> turn(s).leg >= 1,
        turn(s).x == s.x && turn(s).y == s.y,
        turn(s).leg >= 0,
{
    assert(pending_count(s) == pending_count(turn(s))) by (nonlinear_arith)
        requires
            s.rem_x >= 1,
            s.rem_y >= 1,
            s.leg == 0,
    ;
}

/// One move along a leg yields the current cell and leaves every other
/// owed cell owed: the set of cells still to come loses exactly the
/// current position.
proof fn lemma_advance_unvisited(s: SpState)
    requires
        s.rem_x >= 1,
        s.rem_y >= 1,
        s.leg >= 1,
    ensures
        forall|c: (int, int)| unvisited(s, c) <==> (c == (s.x, s.y) || unvisited(advance(s), c)),
        !unvisited(advance(s), (s.x, s.y)),
        pending_count(advance(s)) == pending_count(s) - 1,
        advance(s).leg >= 0,
        advance(s).rem_x == s.rem_x && advance(s).rem_y == s.rem_y,
{
}

/// From any reachable state, the coordinates still to be yielded are
/// exactly the owed cells, none is yielded twice, and their number is
/// `pending_count`.
pub proof fn lemma_sseq_props(s: SpState)
    requires
        s.rem_x >= 0,
        s.rem_y >= 0,
        s.leg >= 0,
    ensures
        sseq(s).len() == pending_count(s),
        sseq(s).no_duplicates(),
        forall|c: (int, int)| sseq(s).contains(c) <==> unvisited(s, c),
    decreases s.rem_x + s.rem_y, s.leg,
{
    let p = (s.x, s.y);
    if s.rem_x <= 0 || s.rem_y <= 0 {
        assert(sseq(s)[0] == p);
        assert forall|c: (int, int)| sseq(s).contains(c) implies c == p by {
            let i = choose|i: int| 0 <= i < sseq(s).len() && sseq(s)[i] == c;
            assert(i == 0);
        }
    } else if s.leg == 0 {
        lemma_turn_unvisited(s);
        lemma_sseq_props(turn(s));
    } else {
        lemma_advance_unvisited(s);
        lemma_sseq_props(advance(s));
        let rest = sseq(advance(s));
        assert(sseq(s) == seq![p] + rest);
        assert forall|c: (int, int)| sseq(s).contains(c) implies (c == p || rest.contains(c)) by {
            let i = choose|i: int| 0 <= i < sseq(s).len() && sseq(s)[i] == c;
            if i > 0 {
                assert(rest[i - 1] == c);
            }
        }
        assert forall|c: (int, int)| c == p || rest.contains(c) implies sseq(s).contains(c) by {
            if c == p {
                assert(sseq(s)[0] == c);
            } else {
                let i = choose|i: int| 0 <= i < rest.len() && rest[i] == c;
                assert(sseq(s)[i + 1] == c);
            }
        }
        assert forall|i: int, j: int|
            0 <= i < sseq(s).len() && 0 <= j < sseq(s).len() && i != j implies sseq(s)[i]
            != sseq(s)[j] by {
            if i == 0 {
                assert(rest.contains(rest[j - 1]));
            } else if j == 0 {
                assert(rest.contains(rest[i - 1]));
            } else {
                assert(rest[i - 1] != rest[j - 1]);
            }
        }
    }
}

/// The first coordinate still owed from state `s` is the current position.
pub proof fn lemma_sseq_first(s: SpState)
    requires
        s.rem_x >= 0,
        s.rem_y >= 0,
        s.leg >= 0,
    ensures
        sseq(s).len() >= 1,
        sseq(s)[0] == (s.x, s.y),
    decreases s.rem_x + s.rem_y, s.leg,
{
    if s.rem_x <= 0 || s.rem_y <= 0 {
    } else if s.leg == 0 {
        lemma_turn_unvisited(s);
        lemma_sseq_first(turn(s));
    } else {
        lemma_sseq_first(advance(s));
    }
}

/// The spiral over a `w` by `h` grid visits exactly `w * h` coordinates,
/// visits none of them twice, and visits every cell of the grid.
pub proof fn lemma_spiral_covers_grid(w: int, h: int)
    requires
        1 <= w,
        1 <= h,
    ensures
        spiral(w, h).len() == w * h,
        spiral(w, h).no_duplicates(),
        forall|c: (int, int)| spiral(w, h).contains(c) <==> (0 <= c.0 < w && 0 <= c.1 < h),
{
    let s = init_state(w, h);
    lemma_sseq_props(s);
    assert(pending_count(s) == h + (w - 1) * h);
    assert(h + (w - 1) * h == w * h) by (nonlinear_arith);
    assert forall|c: (int, int)|
        spiral(w, h).contains(c) <==> (0 <= c.0 < w && 0 <= c.1 < h) by {
        assert(spiral(w, h).contains(c) <==> unvisited(s, c));
    }
}

/// The spiral starts at the top-right corner, and its second coordinate,
/// when the grid is taller than one row, is the cell directly below it.
pub proof fn lemma_spiral_start(w: int, h: int)
    requires
        1 <= w,
        1 <= h,
    ensures
        spiral(w, h).len() >= 1,
        spiral(w, h)[0] == (w - 1, 0int),
        h > 1 ==> spiral(w, h).len() >= 2 && spiral(w, h)[1] == (w - 1, 1int),
{
    let s = init_state(w, h);
    lemma_sseq_first(s);
    if h > 1 {
        lemma_sseq_first(advance(s));
        assert(spiral(w, h) == seq![(w - 1, 0)] + sseq(advance(s)));
        assert(spiral(w, h)[1] == sseq(advance(s))[0]);
    }
}

/// Where a single move from position `p` in direction `d` lands.
pub open spec fn step_pos(d: Direction, p: (int, int)) -> (int, int) {
    match d {
        Direction::Up => (p.0, p.1 - 1),
        Direction::Down => (p.0, p.1 + 1),
        Direction::Left => (p.0 - 1, p.1),
        Direction::Right => (p.0 + 1, p.1),
    }
}

/// The lifecycle of a traversal: not yet started at its initial position,
/// started and standing at a position, or finished.
pub enum Lifecycle {
    Unstarted(usize, usize),
    Started(usize, usize),
    Finished,
}

/// A stateful coordinate generator that yields, one call at a time, the
/// visiting order of an inward spiral over a `width` by `height` grid.
pub struct SpiralTraversal {
    width: usize,
    height: usize,
    remaining_x: usize,
    remaining_y: usize,
    leg: usize,
    direction: Direction,
    lifecycle: Lifecycle,
    visited: Ghost<Seq<(int, int)>>,
}

impl SpiralTraversal {
    pub closed spec fn spec_width(self) -> int {
        self.width as int
    }

    pub closed spec fn spec_height(self) -> int {
        self.height as int
    }

    /// The coordinates yielded so far, in order.
    pub closed spec fn yielded(self) -> Seq<(int, int)> {
        self.visited@
    }

    closed spec fn spec_pos(self) -> (int, int) {
        match self.lifecycle {
            Lifecycle::Unstarted(x, y) => (x as int, y as int),
            Lifecycle::Started(x, y) => (x as int, y as int),
            Lifecycle::Finished => (0, 0),
        }
    }

    closed spec fn abs(self) -> SpState {
        SpState {
            rem_x: self.remaining_x as int,
            rem_y: self.remaining_y as int,
            leg: self.leg as int,
            dir: self.direction,
            x: self.spec_pos().0,
            y: self.spec_pos().1,
        }
    }

    /// The coordinates still to be yielded, in order.
    pub closed spec fn pending(self) -> Seq<(int, int)> {
        if self.lifecycle is Finished {
            Seq::empty()
        } else {
            sseq(self.abs())
        }
    }

    pub closed spec fn wf(self) -> bool {
        &&& self.width >= 1
        &&& self.height >= 1
        &&& self.yielded() + self.pending() == spiral(self.spec_width(), self.spec_height())
        &&& (!(self.lifecycle is Finished) ==> forall|c: (int, int)|
            unvisited(self.abs(), c) ==> 0 <= c.0 < self.spec_width() && 0 <= c.1
                < self.spec_height())
    }

    /// A fresh traversal of a `width` by `height` grid that has yielded
    /// nothing and owes the whole spiral.
    pub fn new(width: usize, height: usize) -> (t: SpiralTraversal)
        requires
            1 <= width,
            1 <= height,
        ensures
            t.wf(),
            t.spec_width() == width,
            t.spec_height() == height,
            t.yielded() == Seq::<(int, int)>::empty(),
            t.pending() == spiral(width as int, height as int),
    {
        let t = SpiralTraversal {
            width,
            height,
            remaining_x: width,
            remaining_y: height,
            leg: height - 1,
            direction: Direction::Down,
            lifecycle: Lifecycle::Unstarted(width - 1, 0),
            visited: Ghost(Seq::empty()),
        };
        proof {
            assert(t.abs() == init_state(width as int, height as int));
            assert(t.yielded() + t.pending() =~= spiral(width as int, height as int));
        }
        t
    }

    /// One move from `current_position` in `current_direction`.
    pub fn get_next_position(current_direction: &Direction, current_position: &(usize, usize)) -> (next: (
        usize,
        usize,
    ))
        requires
            (match current_direction {
                Direction::Up => current_position.1 >= 1,
                Direction::Down => current_position.1 < usize::MAX,
                Direction::Left => current_position.0 >= 1,
                Direction::Right => current_position.0 < usize::MAX,
            }),
        ensures
            (next.0 as int, next.1 as int) == step_pos(
                *current_direction,
                (current_position.0 as int, current_position.1 as int),
            ),
    {
        match current_direction {
            Direction::Up => (current_position.0, current_position.1 - 1),
            Direction::Down => (current_position.0, current_position.1 + 1),
            Direction::Left => (current_position.0 - 1, current_position.1),
            Direction::Right => (current_position.0 + 1, current_position.1),
        }
    }

    /// The 90 degree turn at the end of a leg: shrinks the bound opposite
    /// to the completed leg and starts the next leg with the shrunk bound.
    fn get_next_direction(&mut self)
        requires
            old(self).remaining_x >= 1,
            old(self).remaining_y >= 1,
        ensures
            final(self).abs() == turn(old(self).abs()),
            final(self).width == old(self).width,
            final(self).height == old(self).height,
            final(self).lifecycle == old(self).lifecycle,
            final(self).visited == old(self).visited,
    {
        match self.direction {
            Direction::Down => {
                self.remaining_x = self.remaining_x - 1;
                self.leg = self.remaining_x;
                self.direction = Direction::Left;
            },
            Direction::Left => {
                self.remaining_y = self.remaining_y - 1;
                self.leg = self.remaining_y;
                self.direction = Direction::Up;
            },
            Direction::Up => {
                self.remaining_x = self.remaining_x - 1;
                self.leg = self.remaining_x;
                self.direction = Direction::Right;
            },
            Direction::Right => {
                self.remaining_y = self.remaining_y - 1;
                self.leg = self.remaining_y;
                self.direction = Direction::Down;
            },
        }
    }

    /// Yields the next coordinate of the spiral, or `None` once every cell
    /// of the grid has been yielded.
    pub fn next(&mut self) -> (r: Option<(usize, usize)>)
        requires
            old(self).wf(),
        ensures
            final(self).wf(),
            final(self).spec_width() == old(self).spec_width(),
            final(self).spec_height() == old(self).spec_height(),
            (r is None) <==> old(self).pending().len() == 0,
            r is None ==> final(self).yielded() == old(self).yielded() && final(self).pending()
                == old(self).pending(),
            r is Some ==> ({
                let c = r->0;
                &&& (c.0 as int, c.1 as int) == old(self).pending()[0]
                &&& final(self).yielded() == old(self).yielded().push(old(self).pending()[0])
                &&& final(self).pending() == old(self).pending().drop_first()
            }),
    {
        let (px, py) = match self.lifecycle {
            Lifecycle::Finished => {
                return None;
            },
            Lifecycle::Unstarted(x, y) => (x, y),
            Lifecycle::Started(x, y) => (x, y),
        };
        proof {
            lemma_sseq_first(self.abs());
        }
        if self.remaining_x == 0 || self.remaining_y == 0 {
            self.lifecycle = Lifecycle::Finished;
            self.visited = Ghost(self.visited@.push((px as int, py as int)));
            proof {
                assert(self.yielded() + self.pending() =~= old(self).yielded() + old(
                    self,
                ).pending());
                assert(old(self).pending().drop_first() =~= Seq::<(int, int)>::empty());
            }
            return Some((px, py));
        }
        if self.leg == 0 {
            proof {
                lemma_turn_unvisited(self.abs());
            }
            self.get_next_direction();
            if self.remaining_x == 0 || self.remaining_y == 0 {
                self.lifecycle = Lifecycle::Finished;
                self.visited = Ghost(self.visited@.push((px as int, py as int)));
                proof {
                    reveal_with_fuel(sseq, 3);
                    assert(self.yielded() + self.pending() =~= old(self).yielded() + old(
                        self,
                    ).pending());
                    assert(old(self).pending().drop_first() =~= Seq::<(int, int)>::empty());
                }
                return Some((px, py));
            }
        }
        let ghost mid = *self;
        proof {
            lemma_advance_unvisited(mid.abs());
            let s = mid.abs();
            let p2 = step_pos(s.dir, (s.x, s.y));
            assert(unvisited(advance(s), p2));
            assert(unvisited(s, p2));
            assert(unvisited(old(self).abs(), p2));
            assert(0 <= p2.0 < mid.spec_width() && 0 <= p2.1 < mid.spec_height());
        }
        let next_position = Self::get_next_position(&self.direction, &(px, py));
        self.leg = self.leg - 1;
        self.lifecycle = Lifecycle::Started(next_position.0, next_position.1);
        self.visited = Ghost(self.visited@.push((px as int, py as int)));
        proof {
            assert(self.abs() == advance(mid.abs()));
            assert(mid.pending() == old(self).pending());
            assert(mid.pending() == seq![(px as int, py as int)] + self.pending());
            assert(self.yielded() + self.pending() =~= old(self).yielded() + old(self).pending());
            assert(self.pending() =~= old(self).pending().drop_first());
            assert forall|c: (int, int)|
                unvisited(self.abs(), c) implies 0 <= c.0 < self.spec_width() && 0 <= c.1
                < self.spec_height() by {
                assert(unvisited(mid.abs(), c));
                assert(unvisited(old(self).abs(), c));
            }
        }
        Some((px, py))
    }
}

} // verus!
