//! The owned linked chain a snake's body is made of.

use vstd::prelude::*;

use crate::point::Point;

verus! {

/// One owned link of a body chain: a point value plus exclusive ownership of
/// the remainder of the chain. A chain is never empty and never shares nodes.
pub struct Node {
    value: Point,
    next_node: Option<Box<Node>>,
}

impl Node {
    /// The chain's points: this node's value first, then its successors in order.
    pub closed spec fn points(self) -> Seq<Point>
        decreases self,
    {
        match self.next_node {
            Some(next) => seq![self.value] + next.points(),
            None => seq![self.value],
        }
    }

    pub proof fn lemma_points_nonempty(self)
        ensures
            self.points().len() >= 1,
        decreases self,
    {
        match self.next_node {
            Some(next) => next.lemma_points_nonempty(),
            None => {}
        }
    }

    pub fn new(value: Point) -> (r: Self)
        ensures
            r.points() == seq![value],
    {
        Self { value, next_node: None }
    }

    pub fn get_value(&self) -> (r: Point)
        ensures
            r == self.points()[0],
    {
        self.value
    }

    pub fn set_value(&mut self, value: Point)
        ensures
            final(self).points() == old(self).points().update(0, value),
    {
        self.value = value;
        proof {
            match &self.next_node {
                Some(next) => {
                    next.lemma_points_nonempty();
                    assert(self.points() =~= old(self).points().update(0, value));
                }
                None => {
                    assert(self.points() =~= old(self).points().update(0, value));
                }
            }
        }
    }

    pub fn get_next_node(&self) -> (r: Option<&Box<Node>>)
        ensures
            match r {
                Some(next) => self.points() == seq![self.points()[0]] + next.points(),
                None => self.points().len() == 1,
            },
    {
        self.next_node.as_ref()
    }

    pub fn get_next_node_mut(&mut self) -> (r: Option<&mut Box<Node>>)
        ensures
            match r {
                Some(next) => old(self).points().len() > 1
                    && next.points() == old(self).points().skip(1)
                    && final(self).points() == seq![old(self).points()[0]]
                        + final(next).points(),
                None => old(self).points().len() == 1
                    && final(self).points() == old(self).points(),
            },
    {
        proof {
            match &self.next_node {
                Some(next) => {
                    next.lemma_points_nonempty();
                    assert(next.points() =~= self.points().skip(1));
                }
                None => {}
            }
        }
        match &mut self.next_node {
            Some(next) => Some(next),
            None => None,
        }
    }

    pub fn set_next_node(&mut self, next_node: Option<Box<Node>>)
        ensures
            final(self).points() == seq![old(self).points()[0]]
                + (match next_node {
                    Some(next) => next.points(),
                    None => Seq::<Point>::empty(),
                }),
    {
        self.next_node = next_node;
        proof {
            match &self.next_node {
                Some(next) => {}
                None => {
                    assert(self.points() =~= seq![old(self).points()[0]]);
                }
            }
        }
    }

    /// The value of the `i`-th node of the chain, this node being the zeroth:
    /// one half of the index-based walk that stands in for a generic chain
    /// traversal.
    pub fn value_at(&self, i: usize) -> (r: Point)
        requires
            i < self.points().len(),
        ensures
            r == self.points()[i as int],
        decreases i,
    {
        if i == 0 {
            self.value
        } else {
            proof {
                if self.next_node is None {
                    assert(self.points().len() == 1);
                }
            }
            match &self.next_node {
                Some(next) => next.value_at(i - 1),
                None => vstd::pervasive::unreached(),
            }
        }
    }

    /// Replaces the value of the `i`-th node in place: the other half of the
    /// index-based walk, letting a caller visit and rewrite the chain node by
    /// node.
    pub fn set_value_at(&mut self, i: usize, value: Point)
        requires
            i < old(self).points().len(),
        ensures
            final(self).points() == old(self).points().update(i as int, value),
        decreases i,
    {
        if i == 0 {
            self.set_value(value);
        } else {
            proof {
                if self.next_node is None {
                    assert(self.points().len() == 1);
                }
            }
            match &mut self.next_node {
                Some(next) => {
                    next.set_value_at(i - 1, value);
                    proof {
                        assert(self.points() =~= old(self).points().update(i as int, value));
                    }
                }
                None => {
                    proof {
                        assert(false);
                    }
                }
            }
        }
    }

    /// Every point of the chain, in chain order, this node's value first.
    pub fn all_nodes_values(&self) -> (r: Vec<Point>)
        ensures
            r@ == self.points(),
        decreases *self,
    {
        let mut r: Vec<Point> = Vec::new();
        r.push(self.value);
        match &self.next_node {
            Some(next) => {
                let mut rest = next.all_nodes_values();
                r.append(&mut rest);
                proof {
                    assert(r@ =~= self.points());
                }
            }
            None => {}
        }
        r
    }
}

} // verus!
