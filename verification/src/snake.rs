//! The snake body: movement, growth, and tail cutting.

use vstd::prelude::*;

use crate::direction::Direction;
use crate::point::clone_points;
use crate::point::Point;
use crate::AreaSize;

verus! {

/// Where, if anywhere, a chain cut at `point` lands: the least index `i >= 1`
/// with `s[i] == point`, or `s.len()` when no tail node carries the point.
pub open spec fn first_tail_index(s: Seq<Point>, point: Point, i: int) -> int
    decreases s.len() - i
        when 1 <= i <= s.len()
{
    if i >= s.len() {
        s.len() as int
    } else if s[i] == point {
        i
    } else {
        first_tail_index(s, point, i + 1)
    }
}

/// The first tail index never lies before the search start nor past the end.
pub proof fn lemma_first_tail_index_range(s: Seq<Point>, point: Point, i: int)
    requires
        1 <= i <= s.len(),
    ensures
        i <= first_tail_index(s, point, i) <= s.len(),
    decreases s.len() - i,
{
    if i < s.len() && s[i] != point {
        lemma_first_tail_index_range(s, point, i + 1);
    }
}

/// When some tail node at or after the search start carries the point, the
/// first tail index lands on the earliest such node.
pub proof fn lemma_first_tail_index_le(s: Seq<Point>, point: Point, i: int, m: int)
    requires
        1 <= i <= m < s.len(),
        s[m] == point,
    ensures
        i <= first_tail_index(s, point, i) <= m,
    decreases m - i,
{
    if s[i] != point {
        lemma_first_tail_index_le(s, point, i + 1, m);
    }
}

/// A bite that finds its point strictly shortens the chain, and the new tail
/// is the node just before the first tail node that carried the point.
pub proof fn lemma_tail_cut_shortens(s: Seq<Point>, p: Point)
    requires
        s.len() >= 1,
        exists|i: int| 1 <= i < s.len() && s[i] == p,
    ensures
        tail_cut(s, p) == s.take(first_tail_index(s, p, 1)),
        1 <= tail_cut(s, p).len() < s.len(),
        tail_cut(s, p).last() == s[first_tail_index(s, p, 1) - 1],
{
    let m = choose|i: int| 1 <= i < s.len() && s[i] == p;
    lemma_first_tail_index_le(s, p, 1, m);
    lemma_first_tail_index_range(s, p, 1);
}

/// The body chain after a bite at `point`: everything from the first tail node
/// equal to `point` onwards is discarded; unchanged when no tail node matches.
pub open spec fn tail_cut(s: Seq<Point>, point: Point) -> Seq<Point> {
    let i = first_tail_index(s, point, 1);
    if i < s.len() {
        s.take(i)
    } else {
        s
    }
}

/// An agent's body: an ordered, owned chain of points, head first, plus a
/// pending-growth flag that makes the next move append one extra segment.
pub struct Snake {
    body: Vec<Point>,
    is_stomach_not_empty: bool,
}

impl Snake {
    /// The body points, head first. A well-formed snake always has a head.
    pub closed spec fn points(&self) -> Seq<Point> {
        self.body@
    }

    /// Whether growth is armed for the next move.
    pub closed spec fn stomach_full(&self) -> bool {
        self.is_stomach_not_empty
    }

    pub open spec fn wf(&self) -> bool {
        self.points().len() >= 1
    }

    /// The head translated one cell in `d`, without mutating the snake.
    pub open spec fn spec_next_head_point(&self, d: Direction) -> Point {
        let h = self.points()[0];
        match d {
            Direction::Right => (Point { x: (h.x + 1) as AreaSize, y: h.y }),
            Direction::Left => (Point { x: (h.x - 1) as AreaSize, y: h.y }),
            Direction::Down => (Point { x: h.x, y: (h.y + 1) as AreaSize }),
            Direction::Up => (Point { x: h.x, y: (h.y - 1) as AreaSize }),
        }
    }

    /// A move in `d` stays inside the coordinate type: no wrap at the edges.
    pub open spec fn can_step(&self, d: Direction) -> bool {
        let h = self.points()[0];
        match d {
            Direction::Right => h.x < AreaSize::MAX,
            Direction::Left => h.x > 0,
            Direction::Down => h.y < AreaSize::MAX,
            Direction::Up => h.y > 0,
        }
    }

    pub fn new(point: Point) -> (r: Self)
        ensures
            r.points() == seq![point],
            !r.stomach_full(),
    {
        let body = vec![point];
        proof {
            assert(body@ =~= seq![point]);
        }
        Self { body, is_stomach_not_empty: false }
    }

    pub fn make_on(point: Point) -> (r: Self)
        ensures
            r.points() == seq![point],
            !r.stomach_full(),
    {
        Self::new(point)
    }

    /// The body points in head-to-tail order; with `include_head` false the
    /// head is left out, which is how "did the head land on my own body" asks.
    #[verifier::loop_isolation(false)]
    pub fn body_parts_points(&self, include_head: bool) -> (r: Vec<Point>)
        requires
            self.wf(),
        ensures
            r@ == if include_head {
                self.points()
            } else {
                self.points().skip(1)
            },
    {
        let mut r: Vec<Point> = Vec::new();
        let start: usize = if include_head {
            0
        } else {
            1
        };
        let mut i: usize = start;
        while i < self.body.len()
            invariant
                start <= i <= self.body.len(),
                r@ == self.body@.subrange(start as int, i as int),
            decreases self.body.len() - i,
        {
            r.push(self.body[i]);
            proof {
                assert(r@ =~= self.body@.subrange(start as int, i + 1));
            }
            i = i + 1;
        }
        proof {
            if include_head {
                assert(r@ =~= self.points());
            } else {
                assert(r@ =~= self.points().skip(1));
            }
        }
        r
    }

    /// Idempotently arms growth for the next move.
    pub fn fill_stomach_if_empty(&mut self)
        ensures
            final(self).points() == old(self).points(),
            final(self).stomach_full(),
    {
        self.is_stomach_not_empty = true;
    }

    pub fn head_point(&self) -> (r: Point)
        requires
            self.wf(),
        ensures
            r == self.points()[0],
    {
        self.body[0]
    }

    pub fn next_head_point(&self, move_direction: Direction) -> (r: Point)
        requires
            self.wf(),
            self.can_step(move_direction),
        ensures
            r == self.spec_next_head_point(move_direction),
    {
        let head_point = self.body[0];
        let mut x = head_point.x;
        let mut y = head_point.y;
        match move_direction {
            Direction::Right => x = x + 1,
            Direction::Left => x = x - 1,
            Direction::Down => y = y + 1,
            Direction::Up => y = y - 1,
        }
        Point::new(x, y)
    }

    /// Advances the head one cell in `move_direction` and shifts every segment
    /// to its predecessor's old place; if growth was armed the old tail stays
    /// as one extra segment and the flag is cleared.
    pub fn move_to(&mut self, move_direction: Direction)
        requires
            old(self).wf(),
            old(self).can_step(move_direction),
        ensures
            final(self).points() == seq![
                old(self).spec_next_head_point(move_direction),
            ] + if old(self).stomach_full() {
                old(self).points()
            } else {
                old(self).points().drop_last()
            },
            !final(self).stomach_full(),
            final(self).wf(),
    {
        let is_body_increased = self.is_stomach_not_empty;
        self.is_stomach_not_empty = false;
        let next_head_point = self.next_head_point(move_direction);
        self.body.insert(0, next_head_point);
        if !is_body_increased {
            let _ = self.body.pop();
        }
        proof {
            if is_body_increased {
                assert(self.points() =~= seq![
                    old(self).spec_next_head_point(move_direction),
                ] + old(self).points());
            } else {
                assert(self.points() =~= seq![
                    old(self).spec_next_head_point(move_direction),
                ] + old(self).points().drop_last());
            }
        }
    }

    /// Cuts the chain before the first tail node at `point`: that node and all
    /// after it are dropped, so the new tail is the node just before the cut.
    /// Returns whether anything was cut.
    #[verifier::loop_isolation(false)]
    pub fn remove_tail(&mut self, point: Point) -> (cut: bool)
        requires
            old(self).wf(),
        ensures
            final(self).points() == tail_cut(old(self).points(), point),
            final(self).stomach_full() == old(self).stomach_full(),
            cut == (first_tail_index(old(self).points(), point, 1)
                < old(self).points().len()),
    {
        let ghost s = self.body@;
        let mut i: usize = 1;
        while i < self.body.len()
            invariant
                1 <= i <= s.len(),
                self.body@ == s,
                self.is_stomach_not_empty == old(self).is_stomach_not_empty,
                forall|j: int| 1 <= j < i ==> s[j] != point,
                i <= s.len() ==> first_tail_index(s, point, 1)
                    == first_tail_index(s, point, i as int),
            decreases self.body.len() - i,
        {
            if self.body[i] == point {
                self.body.truncate(i);
                proof {
                    assert(first_tail_index(s, point, i as int) == i);
                    assert(self.body@ =~= tail_cut(s, point));
                }
                return true;
            }
            i = i + 1;
        }
        proof {
            assert(first_tail_index(s, point, s.len() as int) == s.len());
        }
        false
    }

    /// The tail-bite operation under the older name: same cut, result dropped.
    pub fn recursive_remove_tail(&mut self, point: Point)
        requires
            old(self).wf(),
        ensures
            final(self).points() == tail_cut(old(self).points(), point),
            final(self).stomach_full() == old(self).stomach_full(),
    {
        let _ = self.remove_tail(point);
    }
}

impl Clone for Snake {
    /// A deep copy with the same body points and growth flag.
    fn clone(&self) -> (r: Self)
        ensures
            r.points() == self.points(),
            r.stomach_full() == self.stomach_full(),
    {
        Snake {
            body: clone_points(&self.body),
            is_stomach_not_empty: self.is_stomach_not_empty,
        }
    }
}

} // verus!
