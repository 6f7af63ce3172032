//! The layered spatial index: which objects occupy which grid cells, and
//! the collision query over it.

use vstd::prelude::*;

use crate::point::Point;

verus! {

/// What can occupy a grid cell: the border ring, one agent's body, or food.
#[derive(Debug, Clone, Copy, Hash, PartialEq, Eq, Structural)]
pub enum ObjectType {
    Border,
    Snake(usize),
    Eat,
}

/// Pairwise-distinct layer keys in an association list of layers.
pub open spec fn unique_keys(s: Seq<(ObjectType, Vec<Point>)>) -> bool {
    forall|i: int, j: int| 0 <= i < j < s.len() ==> (#[trigger] s[i]).0 != (#[trigger] s[j]).0
}

/// The mapping an association list of layers stands for.
pub open spec fn map_of(s: Seq<(ObjectType, Vec<Point>)>) -> Map<ObjectType, Seq<Point>>
    decreases s.len(),
{
    if s.len() == 0 {
        Map::empty()
    } else {
        map_of(s.drop_last()).insert(s.last().0, s.last().1@)
    }
}

pub proof fn lemma_map_of_props(s: Seq<(ObjectType, Vec<Point>)>)
    requires
        unique_keys(s),
    ensures
        forall|k: ObjectType| #[trigger] map_of(s).dom().contains(k)
            <==> exists|i: int| 0 <= i < s.len() && (#[trigger] s[i]).0 == k,
        forall|i: int| 0 <= i < s.len()
            ==> map_of(s)[(#[trigger] s[i]).0] == s[i].1@,
    decreases s.len(),
{
    if s.len() > 0 {
        let pre = s.drop_last();
        lemma_map_of_props(pre);
        assert forall|i: int| 0 <= i < s.len()
            implies map_of(s)[(#[trigger] s[i]).0] == s[i].1@ by {
            if i < s.len() - 1 {
                assert(s[i] == pre[i]);
                assert(s[i].0 != s.last().0);
            }
        }
        assert forall|k: ObjectType| #[trigger] map_of(s).dom().contains(k)
            implies exists|i: int| 0 <= i < s.len() && (#[trigger] s[i]).0 == k by {
            if k == s.last().0 {
                assert(s[s.len() - 1].0 == k);
            } else {
                assert(map_of(pre).dom().contains(k));
                let i = choose|i: int| 0 <= i < pre.len() && (#[trigger] pre[i]).0 == k;
                assert(pre[i] == s[i]);
                assert(s[i].0 == k);
            }
        }
        assert forall|k: ObjectType|
            exists|i: int| 0 <= i < s.len() && (#[trigger] s[i]).0 == k
            implies #[trigger] map_of(s).dom().contains(k) by {
            let i = choose|i: int| 0 <= i < s.len() && (#[trigger] s[i]).0 == k;
            if i < s.len() - 1 {
                assert(pre[i].0 == k);
            }
        }
    }
}

/// Whether any layer of the mapping `m` occupies the point `p`.
pub open spec fn occupied_in(m: Map<ObjectType, Seq<Point>>, p: Point) -> bool {
    exists|k: ObjectType| #[trigger] m.dom().contains(k) && m[k].contains(p)
}

/// Returns whether `v` holds `p`.
pub fn vec_contains_point(v: &Vec<Point>, p: Point) -> (r: bool)
    ensures
        r == v@.contains(p),
{
    let mut i: usize = 0;
    while i < v.len()
        invariant
            0 <= i <= v.len(),
            forall|j: int| 0 <= j < i ==> v@[j] != p,
        decreases v.len() - i,
    {
        if v[i] == p {
            return true;
        }
        i = i + 1;
    }
    false
}

/// Whether some pair of the listing carries the point `p` as its key.
pub open spec fn covers(r: Seq<(Point, ObjectType)>, p: Point) -> bool {
    exists|j: int| 0 <= j < r.len() && (#[trigger] r[j]).0 == p
}

proof fn lemma_covers_push(r: Seq<(Point, ObjectType)>, e: (Point, ObjectType))
    ensures
        forall|p: Point| covers(r, p) ==> #[trigger] covers(r.push(e), p),
        covers(r.push(e), e.0),
{
    assert forall|p: Point| covers(r, p) implies #[trigger] covers(r.push(e), p) by {
        let j = choose|j: int| 0 <= j < r.len() && (#[trigger] r[j]).0 == p;
        assert(r.push(e)[j].0 == p);
    }
    assert(r.push(e)[r.len() as int].0 == e.0);
}

proof fn lemma_map_of_congruent(a: Seq<(ObjectType, Vec<Point>)>, b: Seq<(ObjectType, Vec<Point>)>)
    requires
        a.len() == b.len(),
        forall|i: int| 0 <= i < a.len()
            ==> (#[trigger] a[i]).0 == b[i].0 && a[i].1@ == b[i].1@,
    ensures
        map_of(a) == map_of(b),
    decreases a.len(),
{
    if a.len() > 0 {
        lemma_map_of_congruent(a.drop_last(), b.drop_last());
        assert(map_of(a) =~= map_of(b));
    }
}

/// A layered spatial index over grid points. Each layer key owns one set of
/// occupied points; the core collision primitive asks which keys' sets
/// contain a given point.
pub struct World {
    layers: Vec<(ObjectType, Vec<Point>)>,
}

impl View for World {
    type V = Map<ObjectType, Seq<Point>>;

    closed spec fn view(&self) -> Map<ObjectType, Seq<Point>> {
        map_of(self.layers@)
    }
}

impl World {
    pub closed spec fn wf(&self) -> bool {
        unique_keys(self.layers@)
    }

    pub fn new() -> (r: Self)
        ensures
            r.wf(),
            r@ == Map::<ObjectType, Seq<Point>>::empty(),
    {
        Self { layers: Vec::new() }
    }

    fn layer_index(&self, layer_key: ObjectType) -> (r: Option<usize>)
        ensures
            match r {
                Some(i) => i < self.layers@.len() && self.layers@[i as int].0 == layer_key,
                None => forall|i: int|
                    0 <= i < self.layers@.len() ==> (#[trigger] self.layers@[i]).0 != layer_key,
            },
    {
        let mut i: usize = 0;
        while i < self.layers.len()
            invariant
                0 <= i <= self.layers.len(),
                forall|j: int| 0 <= j < i ==> (#[trigger] self.layers@[j]).0 != layer_key,
            decreases self.layers.len() - i,
        {
            if self.layers[i].0 == layer_key {
                return Some(i);
            }
            i = i + 1;
        }
        None
    }

    /// Replaces layer `layer_key`'s points wholesale.
    #[verifier::loop_isolation(false)]
    pub fn set_layer(&mut self, layer_key: ObjectType, layer: Vec<Point>)
        requires
            old(self).wf(),
        ensures
            final(self).wf(),
            final(self)@ == old(self)@.insert(layer_key, layer@),
    {
        proof {
            lemma_map_of_props(self.layers@);
        }
        let r = self.layer_index(layer_key);
        match r {
            Some(i) => {
                self.layers.set(i, (layer_key, layer));
                proof {
                    assert forall|a: int, b: int| 0 <= a < b < self.layers@.len()
                        implies (#[trigger] self.layers@[a]).0
                            != (#[trigger] self.layers@[b]).0 by {
                        assert(self.layers@[a].0 == old(self).layers@[a].0);
                        assert(self.layers@[b].0 == old(self).layers@[b].0);
                    }
                    lemma_map_of_props(self.layers@);
                    assert forall|k: ObjectType| #[trigger] self@.dom().contains(k)
                        <==> old(self)@.insert(layer_key, layer@).dom().contains(k) by {
                        assert(self.layers@[i as int].0 == layer_key);
                        if self@.dom().contains(k) {
                            let j = choose|j: int|
                                0 <= j < self.layers@.len() && (#[trigger] self.layers@[j]).0 == k;
                            if j != i {
                                assert(old(self).layers@[j].0 == k);
                            }
                        }
                        if old(self)@.insert(layer_key, layer@).dom().contains(k) && k != layer_key {
                            let j = choose|j: int|
                                0 <= j < old(self).layers@.len()
                                    && (#[trigger] old(self).layers@[j]).0 == k;
                            assert(self.layers@[j].0 == k);
                        }
                    }
                    assert forall|k: ObjectType| self@.dom().contains(k)
                        implies #[trigger] self@[k]
                            == old(self)@.insert(layer_key, layer@)[k] by {
                        let j = choose|j: int|
                            0 <= j < self.layers@.len() && (#[trigger] self.layers@[j]).0 == k;
                        if j != i {
                            assert(old(self).layers@[j].0 == k);
                        }
                    }
                    assert(self@ =~= old(self)@.insert(layer_key, layer@));
                }
            }
            None => {
                self.layers.push((layer_key, layer));
                proof {
                    assert(self.layers@.drop_last() =~= old(self).layers@);
                    assert(self@ =~= old(self)@.insert(layer_key, layer@));
                }
            }
        }
    }

    /// Deletes the layer; a no-op when the key is absent.
    #[verifier::loop_isolation(false)]
    pub fn remove_layer(&mut self, layer_key: &ObjectType)
        requires
            old(self).wf(),
        ensures
            final(self).wf(),
            final(self)@ == old(self)@.remove(*layer_key),
    {
        proof {
            lemma_map_of_props(self.layers@);
        }
        let r = self.layer_index(*layer_key);
        match r {
            Some(i) => {
                let _ = self.layers.remove(i);
                proof {
                    assert forall|a: int, b: int|
                        0 <= a < b < self.layers@.len()
                        implies (#[trigger] self.layers@[a]).0
                            != (#[trigger] self.layers@[b]).0 by {
                        let a0: int = if a < i { a } else { a + 1 };
                        let b0: int = if b < i { b } else { b + 1 };
                        assert(self.layers@[a] == old(self).layers@[a0]);
                        assert(self.layers@[b] == old(self).layers@[b0]);
                    }
                    lemma_map_of_props(self.layers@);
                    assert forall|k: ObjectType| #[trigger] self@.dom().contains(k)
                        <==> old(self)@.remove(*layer_key).dom().contains(k) by {
                        if self@.dom().contains(k) {
                            let j = choose|j: int|
                                0 <= j < self.layers@.len() && (#[trigger] self.layers@[j]).0 == k;
                            let j0: int = if j < i { j } else { j + 1 };
                            assert(old(self).layers@[j0].0 == k);
                        }
                        if old(self)@.remove(*layer_key).dom().contains(k) {
                            let j = choose|j: int|
                                0 <= j < old(self).layers@.len()
                                    && (#[trigger] old(self).layers@[j]).0 == k;
                            let j0: int = if j < i { j } else { j - 1 };
                            assert(self.layers@[j0].0 == k);
                        }
                    }
                    assert forall|k: ObjectType| self@.dom().contains(k)
                        implies #[trigger] self@[k] == old(self)@.remove(*layer_key)[k] by {
                        let j = choose|j: int|
                            0 <= j < self.layers@.len() && (#[trigger] self.layers@[j]).0 == k;
                        let j0: int = if j < i { j } else { j + 1 };
                        assert(old(self).layers@[j0].0 == k);
                        assert(old(self).layers@[j0].1@ == self.layers@[j].1@);
                    }
                    assert(self@ =~= old(self)@.remove(*layer_key));
                }
            }
            None => {
                proof {
                    assert(self@ =~= old(self)@.remove(*layer_key));
                }
            }
        }
    }

    pub fn remove_all_layers(&mut self)
        ensures
            final(self).wf(),
            final(self)@ == Map::<ObjectType, Seq<Point>>::empty(),
    {
        self.layers.clear();
    }

    /// Every layer key whose point set contains `point`: the collision query.
    #[verifier::loop_isolation(false)]
    pub fn point_occurrences(&self, point: &Point) -> (r: Vec<ObjectType>)
        requires
            self.wf(),
        ensures
            forall|k: ObjectType| #[trigger] r@.contains(k)
                <==> self@.dom().contains(k) && self@[k].contains(*point),
            r@.no_duplicates(),
    {
        proof {
            lemma_map_of_props(self.layers@);
        }
        let mut r: Vec<ObjectType> = Vec::new();
        let mut i: usize = 0;
        while i < self.layers.len()
            invariant
                0 <= i <= self.layers.len(),
                forall|k: ObjectType| #[trigger] r@.contains(k)
                    <==> exists|j: int|
                        0 <= j < i && (#[trigger] self.layers@[j]).0 == k
                            && self.layers@[j].1@.contains(*point),
                r@.no_duplicates(),
            decreases self.layers.len() - i,
        {
            let pair_key = self.layers[i].0;
            let ghost r0 = r@;
            let hit = vec_contains_point(&self.layers[i].1, *point);
            if hit {
                proof {
                    if r0.contains(pair_key) {
                        let j = choose|j: int|
                            0 <= j < i && (#[trigger] self.layers@[j]).0 == pair_key
                                && self.layers@[j].1@.contains(*point);
                        assert(false);
                    }
                }
                r.push(pair_key);
            }
            i = i + 1;
            proof {
                assert forall|k: ObjectType| #[trigger] r@.contains(k)
                    implies exists|j: int|
                        0 <= j < i && (#[trigger] self.layers@[j]).0 == k
                            && self.layers@[j].1@.contains(*point) by {
                    let x = choose|x: int| 0 <= x < r@.len() && r@[x] == k;
                    if hit && x == r@.len() - 1 {
                        assert(self.layers@[i - 1].0 == k);
                        assert(self.layers@[i - 1].1@.contains(*point));
                    } else {
                        assert(r0[x] == k);
                        assert(r0.contains(k));
                        let j = choose|j: int|
                            0 <= j < i - 1 && (#[trigger] self.layers@[j]).0 == k
                                && self.layers@[j].1@.contains(*point);
                    }
                }
                assert forall|k: ObjectType|
                    (exists|j: int|
                        0 <= j < i && (#[trigger] self.layers@[j]).0 == k
                            && self.layers@[j].1@.contains(*point))
                    implies #[trigger] r@.contains(k) by {
                    let j = choose|j: int|
                        0 <= j < i && (#[trigger] self.layers@[j]).0 == k
                            && self.layers@[j].1@.contains(*point);
                    if j == i - 1 {
                        assert(hit);
                        assert(r@[r@.len() - 1] == k);
                    } else {
                        assert(r0.contains(k));
                        let x = choose|x: int| 0 <= x < r0.len() && r0[x] == k;
                        assert(r@[x] == k);
                    }
                }
            }
        }
        r
    }

    /// Flattens the index into one point-to-key listing for presentation.
    /// Every occupied point appears exactly once; when several layers share a
    /// point, which key wins is unspecified.
    #[verifier::loop_isolation(false)]
    pub fn generate_map(&self) -> (r: Vec<(Point, ObjectType)>)
        requires
            self.wf(),
        ensures
            forall|a: int, b: int| 0 <= a < b < r@.len()
                ==> (#[trigger] r@[a]).0 != (#[trigger] r@[b]).0,
            forall|j: int| 0 <= j < r@.len()
                ==> self@.dom().contains((#[trigger] r@[j]).1)
                    && self@[r@[j].1].contains(r@[j].0),
            forall|p: Point| occupied_in(self@, p) <==> covers(r@, p),
    {
        proof {
            lemma_map_of_props(self.layers@);
        }
        let mut r: Vec<(Point, ObjectType)> = Vec::new();
        let mut i: usize = 0;
        while i < self.layers.len()
            invariant
                0 <= i <= self.layers.len(),
                forall|a: int, b: int| 0 <= a < b < r@.len()
                    ==> (#[trigger] r@[a]).0 != (#[trigger] r@[b]).0,
                forall|j: int| 0 <= j < r@.len()
                    ==> self@.dom().contains((#[trigger] r@[j]).1)
                        && self@[r@[j].1].contains(r@[j].0),
                forall|li: int, pk: int|
                    0 <= li < i && 0 <= pk < self.layers@[li].1@.len()
                        ==> covers(r@, #[trigger] self.layers@[li].1@[pk]),
            decreases self.layers.len() - i,
        {
            let layer_len = self.layers[i].1.len();
            let mut pj: usize = 0;
            while pj < layer_len
                invariant
                    0 <= i < self.layers@.len(),
                    layer_len == self.layers@[i as int].1@.len(),
                    0 <= pj <= layer_len,
                    forall|a: int, b: int| 0 <= a < b < r@.len()
                        ==> (#[trigger] r@[a]).0 != (#[trigger] r@[b]).0,
                    forall|j: int| 0 <= j < r@.len()
                        ==> self@.dom().contains((#[trigger] r@[j]).1)
                            && self@[r@[j].1].contains(r@[j].0),
                    forall|li: int, pk: int|
                        0 <= li < i && 0 <= pk < self.layers@[li].1@.len()
                            ==> covers(r@, #[trigger] self.layers@[li].1@[pk]),
                    forall|pk: int|
                        0 <= pk < pj
                            ==> covers(r@, #[trigger] self.layers@[i as int].1@[pk]),
                decreases layer_len - pj,
            {
                let p = self.layers[i].1[pj];
                let key = self.layers[i].0;
                proof {
                    lemma_map_of_props(self.layers@);
                    assert(self.layers@[i as int].1@.contains(p));
                }
                let mut found: bool = false;
                let mut j: usize = 0;
                while j < r.len()
                    invariant
                        0 <= j <= r.len(),
                        found ==> covers(r@, p),
                        !found ==> forall|x: int| 0 <= x < j ==> (#[trigger] r@[x]).0 != p,
                    decreases r.len() - j,
                {
                    if r[j].0 == p {
                        found = true;
                        proof {
                            assert(r@[j as int].0 == p);
                        }
                        break;
                    }
                    j = j + 1;
                }
                if !found {
                    let ghost r0 = r@;
                    r.push((p, key));
                    proof {
                        lemma_covers_push(r0, (p, key));
                        assert forall|a: int, b: int| 0 <= a < b < r@.len()
                            implies (#[trigger] r@[a]).0 != (#[trigger] r@[b]).0 by {
                            if b == r@.len() - 1 {
                                assert(r0[a].0 != p);
                            } else {
                                assert(r0[a].0 != r0[b].0);
                            }
                        }
                    }
                }
                proof {
                    assert(covers(r@, self.layers@[i as int].1@[pj as int]));
                }
                pj = pj + 1;
            }
            i = i + 1;
        }
        proof {
            lemma_map_of_props(self.layers@);
            assert forall|p: Point| occupied_in(self@, p) implies covers(r@, p) by {
                let k = choose|k: ObjectType|
                    #[trigger] self@.dom().contains(k) && self@[k].contains(p);
                let li = choose|li: int|
                    0 <= li < self.layers@.len() && (#[trigger] self.layers@[li]).0 == k;
                assert(self.layers@[li].1@.contains(p));
                let pk = choose|pk: int|
                    0 <= pk < self.layers@[li].1@.len() && self.layers@[li].1@[pk] == p;
                assert(covers(r@, self.layers@[li].1@[pk]));
            }
            assert forall|p: Point| covers(r@, p) implies occupied_in(self@, p) by {
                let j = choose|j: int| 0 <= j < r@.len() && (#[trigger] r@[j]).0 == p;
                assert(self@.dom().contains(r@[j].1) && self@[r@[j].1].contains(p));
            }
        }
        r
    }
}

impl Clone for World {
    /// A deep copy standing for the same layer mapping.
    #[verifier::loop_isolation(false)]
    fn clone(&self) -> (r: Self)
        ensures
            r@ == self@,
            self.wf() ==> r.wf(),
    {
        let mut layers: Vec<(ObjectType, Vec<Point>)> = Vec::new();
        let mut i: usize = 0;
        while i < self.layers.len()
            invariant
                0 <= i <= self.layers.len(),
                layers@.len() == i,
                forall|j: int| 0 <= j < i
                    ==> (#[trigger] layers@[j]).0 == self.layers@[j].0
                        && layers@[j].1@ == self.layers@[j].1@,
            decreases self.layers.len() - i,
        {
            let key = self.layers[i].0;
            let pts = crate::point::clone_points(&self.layers[i].1);
            layers.push((key, pts));
            i = i + 1;
        }
        proof {
            lemma_map_of_congruent(layers@, self.layers@);
            if self.wf() {
                assert forall|x: int, y: int| 0 <= x < y < layers@.len()
                    implies (#[trigger] layers@[x]).0 != (#[trigger] layers@[y]).0 by {
                    assert(layers@[x].0 == self.layers@[x].0);
                    assert(layers@[y].0 == self.layers@[y].0);
                }
            }
        }
        World { layers }
    }
}

} // verus!
