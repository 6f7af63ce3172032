//! The incremental text-screen renderer: which cells must be redrawn to
//! bring the screen from one frame to the next.

use vstd::prelude::*;

use crate::point::Point;

verus! {

/// What a cell shows when drawn; a space means the cell is blank.
pub trait TerminalPixel {
    fn char(&self) -> char;
}

/// Pairwise-distinct cells in a cell-to-char listing.
pub open spec fn ckeys_unique(s: Seq<(Point, char)>) -> bool {
    forall|i: int, j: int| 0 <= i < j < s.len() ==> (#[trigger] s[i]).0 != (#[trigger] s[j]).0
}

/// Whether the listing holds an entry for the cell `p`.
pub open spec fn chas(s: Seq<(Point, char)>, p: Point) -> bool {
    exists|i: int| 0 <= i < s.len() && (#[trigger] s[i]).0 == p
}

/// The char the listing holds for the cell `p`.
pub open spec fn cchar(s: Seq<(Point, char)>, p: Point) -> char {
    s[choose|i: int| 0 <= i < s.len() && (#[trigger] s[i]).0 == p].1
}

/// What the cell `p` shows once the listing is drawn: its char, or blank.
pub open spec fn shown(s: Seq<(Point, char)>, p: Point) -> char {
    if chas(s, p) {
        cchar(s, p)
    } else {
        ' '
    }
}

/// The position of the cell `p` in the listing, if it has an entry.
#[verifier::loop_isolation(false)]
fn find_cell(v: &Vec<(Point, char)>, p: Point) -> (r: Option<usize>)
    requires
        ckeys_unique(v@),
    ensures
        match r {
            Some(i) => i < v@.len() && v@[i as int].0 == p && cchar(v@, p) == v@[i as int].1
                && chas(v@, p),
            None => !chas(v@, p),
        },
{
    let mut i: usize = 0;
    while i < v.len()
        invariant
            0 <= i <= v@.len(),
            forall|j: int| 0 <= j < i ==> (#[trigger] v@[j]).0 != p,
        decreases v@.len() - i,
    {
        if v[i].0 == p {
            proof {
                assert(v@[i as int].0 == p);
                let x = choose|x: int| 0 <= x < v@.len() && (#[trigger] v@[x]).0 == p;
                assert(x == i);
            }
            return Some(i);
        }
        i = i + 1;
    }
    proof {
        if chas(v@, p) {
            let x = choose|x: int| 0 <= x < v@.len() && (#[trigger] v@[x]).0 == p;
            assert(false);
        }
    }
    None
}

/// A fresh listing with exactly the entries of `v`, in order.
fn clone_cells(v: &Vec<(Point, char)>) -> (r: Vec<(Point, char)>)
    ensures
        r@ == v@,
{
    let mut r: Vec<(Point, char)> = Vec::new();
    let mut i: usize = 0;
    while i < v.len()
        invariant
            0 <= i <= v@.len(),
            r@ == v@.subrange(0, i as int),
        decreases v@.len() - i,
    {
        r.push(v[i]);
        proof {
            assert(r@ =~= v@.subrange(0, i + 1));
        }
        i = i + 1;
    }
    proof {
        assert(r@ =~= v@);
    }
    r
}

/// The incremental screen renderer's state: which non-blank cells the screen
/// currently shows. The actual drawing is left to whoever applies the writes.
pub struct Terminal {
    cache: Vec<(Point, char)>,
}

impl Terminal {
    /// The remembered frame: the non-blank cells the screen shows.
    pub closed spec fn cache_view(&self) -> Seq<(Point, char)> {
        self.cache@
    }

    pub open spec fn wf(&self) -> bool {
        &&& ckeys_unique(self.cache_view())
        &&& forall|j: int| 0 <= j < self.cache_view().len()
            ==> (#[trigger] self.cache_view()[j]).1 != ' '
    }

    pub fn new() -> (r: Self)
        ensures
            r.wf(),
            r.cache_view().len() == 0,
    {
        Self { cache: Vec::new() }
    }

    /// Forgets the remembered frame, for use after the screen is wiped.
    pub fn clear(&mut self)
        ensures
            final(self).wf(),
            final(self).cache_view().len() == 0,
    {
        self.cache.clear();
    }

    /// Works out the cell writes that bring a screen agreeing with the
    /// remembered frame into agreement with `points_map`, and remembers the
    /// new frame. Every write paints its cell with what the new frame shows
    /// there, and every cell whose appearance changes is written.
    #[verifier::loop_isolation(false)]
    #[verifier::rlimit(60)]
    pub fn render(&mut self, points_map: &Vec<(Point, char)>) -> (writes: Vec<(Point, char)>)
        requires
            old(self).wf(),
            ckeys_unique(points_map@),
        ensures
            final(self).wf(),
            forall|p: Point| #[trigger] chas(final(self).cache_view(), p)
                <==> chas(points_map@, p) && cchar(points_map@, p) != ' ',
            forall|p: Point| #[trigger] chas(final(self).cache_view(), p)
                ==> cchar(final(self).cache_view(), p) == cchar(points_map@, p),
            forall|k: int| 0 <= k < writes@.len()
                ==> (#[trigger] writes@[k]).1 == shown(points_map@, writes@[k].0),
            forall|p: Point| shown(points_map@, p) != shown(old(self).cache_view(), p)
                ==> exists|k: int| 0 <= k < writes@.len()
                    && #[trigger] writes@[k] == (p, shown(points_map@, p)),
    {
        let ghost prev0 = self.cache@;
        let mut previous_cache = clone_cells(&self.cache);
        self.cache = Vec::new();
        let mut writes: Vec<(Point, char)> = Vec::new();
        let n = points_map.len();
        let mut i: usize = 0;
        while i < n
            invariant
                0 <= i <= n,
                n == points_map@.len(),
                // the new frame so far: non-blank map cells among the prefix
                ckeys_unique(self.cache@),
                forall|p: Point| #[trigger] chas(self.cache@, p)
                    <==> exists|j: int| 0 <= j < i && (#[trigger] points_map@[j]).0 == p
                        && points_map@[j].1 != ' ',
                forall|x: int| 0 <= x < self.cache@.len()
                    ==> (#[trigger] self.cache@[x]).1 != ' '
                        && chas(points_map@, self.cache@[x].0)
                        && cchar(points_map@, self.cache@[x].0) == self.cache@[x].1,
                // the not-yet-repainted old cells
                ckeys_unique(previous_cache@),
                forall|p: Point| #[trigger] chas(previous_cache@, p)
                    <==> chas(prev0, p) && !(exists|j: int|
                        0 <= j < i && (#[trigger] points_map@[j]).0 == p
                            && points_map@[j].1 != ' '),
                forall|p: Point| #[trigger] chas(previous_cache@, p)
                    ==> cchar(previous_cache@, p) == cchar(prev0, p),
                // writes so far
                forall|k: int| 0 <= k < writes@.len()
                    ==> (#[trigger] writes@[k]).1 == shown(points_map@, writes@[k].0),
                forall|j: int| 0 <= j < i
                    && (#[trigger] points_map@[j]).1 != shown(prev0, points_map@[j].0)
                    ==> exists|k: int| 0 <= k < writes@.len()
                        && #[trigger] writes@[k] == (points_map@[j].0, points_map@[j].1),
            decreases n - i,
        {
            let p = points_map[i].0;
            let c = points_map[i].1;
            proof {
                assert(points_map@[i as int].0 == p);
                let x = choose|x: int|
                    0 <= x < points_map@.len() && (#[trigger] points_map@[x]).0 == p;
                assert(x == i);
                assert(chas(points_map@, p) && cchar(points_map@, p) == c);
            }
            let is_space = c == ' ';
            let ghost cache0 = self.cache@;
            if !is_space {
                proof {
                    if chas(cache0, p) {
                        let j = choose|j: int|
                            0 <= j < i && (#[trigger] points_map@[j]).0 == p
                                && points_map@[j].1 != ' ';
                        assert(false);
                    }
                }
                self.cache.push((p, c));
                proof {
                    assert(self.cache@[self.cache@.len() - 1] == (p, c));
                    assert forall|q: Point| #[trigger] chas(self.cache@, q)
                        implies chas(cache0, q) || q == p by {
                        let x = choose|x: int|
                            0 <= x < self.cache@.len() && (#[trigger] self.cache@[x]).0 == q;
                        if x < cache0.len() {
                            assert(cache0[x].0 == q);
                        }
                    }
                    assert forall|q: Point| chas(cache0, q)
                        implies #[trigger] chas(self.cache@, q) by {
                        let x = choose|x: int|
                            0 <= x < cache0.len() && (#[trigger] cache0[x]).0 == q;
                        assert(self.cache@[x].0 == q);
                    }
                    assert forall|a: int, b: int| 0 <= a < b < self.cache@.len()
                        implies (#[trigger] self.cache@[a]).0
                            != (#[trigger] self.cache@[b]).0 by {
                        if b == self.cache@.len() - 1 {
                            assert(cache0[a] == self.cache@[a]);
                            assert(chas(cache0, self.cache@[a].0)) by {
                                assert(cache0[a].0 == self.cache@[a].0);
                            }
                        } else {
                            assert(cache0[a] == self.cache@[a]
                                && cache0[b] == self.cache@[b]);
                        }
                    }
                }
            }
            let ghost prev_a = previous_cache@;
            let found = find_cell(&previous_cache, p);
            let mut skip = false;
            match found {
                Some(pi) => {
                    let previous_char = previous_cache[pi].1;
                    skip = previous_char == c;
                    if !is_space {
                        let _ = previous_cache.remove(pi);
                        proof {
                            let cur = previous_cache@;
                            assert forall|a: int, b: int| 0 <= a < b < cur.len()
                                implies (#[trigger] cur[a]).0 != (#[trigger] cur[b]).0 by {
                                let a0: int = if a < pi { a } else { a + 1 };
                                let b0: int = if b < pi { b } else { b + 1 };
                                assert(cur[a] == prev_a[a0] && cur[b] == prev_a[b0]);
                            }
                            assert forall|q: Point| #[trigger] chas(cur, q)
                                implies chas(prev_a, q) && q != p by {
                                let x = choose|x: int|
                                    0 <= x < cur.len() && (#[trigger] cur[x]).0 == q;
                                let x0: int = if x < pi { x } else { x + 1 };
                                assert(prev_a[x0].0 == q);
                                if q == p {
                                    assert(x0 != pi);
                                    assert(false);
                                }
                            }
                            assert forall|q: Point| chas(prev_a, q) && q != p
                                implies #[trigger] chas(cur, q) by {
                                let x0 = choose|x0: int|
                                    0 <= x0 < prev_a.len() && (#[trigger] prev_a[x0]).0 == q;
                                assert(x0 != pi);
                                let x: int = if x0 < pi { x0 } else { x0 - 1 };
                                assert(cur[x].0 == q);
                            }
                            assert forall|q: Point| #[trigger] chas(cur, q)
                                implies cchar(cur, q) == cchar(prev_a, q) by {
                                let x = choose|x: int|
                                    0 <= x < cur.len() && (#[trigger] cur[x]).0 == q;
                                let x0: int = if x < pi { x } else { x + 1 };
                                assert(prev_a[x0].0 == q);
                                let y0 = choose|y0: int|
                                    0 <= y0 < prev_a.len() && (#[trigger] prev_a[y0]).0 == q;
                                assert(y0 == x0);
                            }
                        }
                    }
                }
                None => {}
            }
            let ghost writes_pre = writes@;
            if !skip {
                writes.push((p, c));
                proof {
                    assert(writes@[writes@.len() - 1] == (p, c));
                    assert(shown(points_map@, p) == c);
                }
            } else {
                proof {
                    assert(chas(prev_a, p) && cchar(prev_a, p) == c);
                    assert(cchar(prev0, p) == c);
                    assert(shown(prev0, p) == c);
                }
            }
            i = i + 1;
            proof {
                assert forall|j: int|
                    0 <= j < i
                        && (#[trigger] points_map@[j]).1 != shown(prev0, points_map@[j].0)
                    implies exists|k: int| 0 <= k < writes@.len()
                        && #[trigger] writes@[k] == (points_map@[j].0, points_map@[j].1) by {
                    if j == i - 1 {
                        assert(!skip);
                        assert(writes@[writes@.len() - 1] == (p, c));
                    } else {
                        let k = choose|k: int| 0 <= k < writes_pre.len()
                            && #[trigger] writes_pre[k]
                                == (points_map@[j].0, points_map@[j].1);
                        assert(writes@[k] == (points_map@[j].0, points_map@[j].1));
                    }
                }
                assert forall|q: Point| #[trigger] chas(previous_cache@, q)
                    implies chas(prev0, q) && !(exists|j: int|
                        0 <= j < i && (#[trigger] points_map@[j]).0 == q
                            && points_map@[j].1 != ' ') by {
                    if exists|j: int|
                        0 <= j < i && (#[trigger] points_map@[j]).0 == q
                            && points_map@[j].1 != ' ' {
                        let j = choose|j: int|
                            0 <= j < i && (#[trigger] points_map@[j]).0 == q
                                && points_map@[j].1 != ' ';
                        assert(j == i - 1 || j < i - 1);
                        if j == i - 1 {
                            assert(q == p && !is_space);
                        }
                        assert(false);
                    }
                }
                assert forall|q: Point|
                    chas(prev0, q) && !(exists|j: int|
                        0 <= j < i && (#[trigger] points_map@[j]).0 == q
                            && points_map@[j].1 != ' ')
                    implies #[trigger] chas(previous_cache@, q) by {
                }
                assert forall|q: Point| #[trigger] chas(self.cache@, q)
                    implies exists|j: int| 0 <= j < i && (#[trigger] points_map@[j]).0 == q
                        && points_map@[j].1 != ' ' by {
                    if chas(cache0, q) {
                        let j = choose|j: int|
                            0 <= j < i - 1 && (#[trigger] points_map@[j]).0 == q
                                && points_map@[j].1 != ' ';
                    } else {
                        assert(q == p && !is_space);
                        assert(points_map@[i - 1].0 == q && points_map@[i - 1].1 != ' ');
                    }
                }
                assert forall|q: Point|
                    (exists|j: int| 0 <= j < i && (#[trigger] points_map@[j]).0 == q
                        && points_map@[j].1 != ' ')
                    implies #[trigger] chas(self.cache@, q) by {
                    let j = choose|j: int|
                        0 <= j < i && (#[trigger] points_map@[j]).0 == q
                            && points_map@[j].1 != ' ';
                    if j < i - 1 {
                        assert(chas(cache0, q));
                        let x = choose|x: int|
                            0 <= x < cache0.len() && (#[trigger] cache0[x]).0 == q;
                        assert(self.cache@[x].0 == q);
                    } else {
                        assert(self.cache@[self.cache@.len() - 1].0 == p);
                    }
                }
            }
        }
        // blank every old cell the new frame no longer covers
        let n_stale = previous_cache.len();
        let ghost prev_end = previous_cache@;
        let ghost writes_mid = writes@;
        let mut t: usize = 0;
        while t < n_stale
            invariant
                0 <= t <= n_stale,
                n_stale == prev_end.len(),
                previous_cache@ == prev_end,
                writes@.len() == writes_mid.len() + t,
                forall|k: int| 0 <= k < writes_mid.len()
                    ==> #[trigger] writes@[k] == writes_mid[k],
                forall|x: int| 0 <= x < t
                    ==> #[trigger] writes@[writes_mid.len() + x]
                        == (prev_end[x].0, ' '),
                forall|k: int| 0 <= k < writes@.len()
                    ==> (#[trigger] writes@[k]).1 == shown(points_map@, writes@[k].0),
            decreases n_stale - t,
        {
            let q = previous_cache[t].0;
            proof {
                assert(prev_end[t as int].0 == q);
                assert(chas(prev_end, q)) by {
                    assert(prev_end[t as int].0 == q);
                }
                assert(shown(points_map@, q) == ' ') by {
                    if chas(points_map@, q) {
                        let x = choose|x: int|
                            0 <= x < points_map@.len()
                                && (#[trigger] points_map@[x]).0 == q;
                        assert(points_map@[x].1 == ' ') by {
                            if points_map@[x].1 != ' ' {
                                assert(false);
                            }
                        }
                    }
                }
            }
            writes.push((q, ' '));
            t = t + 1;
        }
        proof {
            assert forall|p: Point|
                shown(points_map@, p) != shown(prev0, p)
                implies exists|k: int| 0 <= k < writes@.len()
                    && #[trigger] writes@[k] == (p, shown(points_map@, p)) by {
                if chas(points_map@, p) {
                    let j = choose|j: int|
                        0 <= j < points_map@.len() && (#[trigger] points_map@[j]).0 == p;
                    assert(points_map@[j].1 == cchar(points_map@, p));
                    assert(shown(points_map@, p) == points_map@[j].1);
                    assert(points_map@[j].1 != shown(prev0, points_map@[j].0));
                    let k = choose|k: int| 0 <= k < writes_mid.len()
                        && #[trigger] writes_mid[k] == (points_map@[j].0, points_map@[j].1);
                    assert(writes@[k] == (p, shown(points_map@, p)));
                } else {
                    assert(shown(points_map@, p) == ' ');
                    assert(shown(prev0, p) != ' ');
                    assert(chas(prev0, p));
                    assert(chas(prev_end, p)) by {
                        if exists|j: int|
                            0 <= j < points_map@.len()
                                && (#[trigger] points_map@[j]).0 == p
                                && points_map@[j].1 != ' ' {
                            let j = choose|j: int|
                                0 <= j < points_map@.len()
                                    && (#[trigger] points_map@[j]).0 == p
                                    && points_map@[j].1 != ' ';
                            assert(false);
                        }
                    }
                    let x = choose|x: int|
                        0 <= x < prev_end.len() && (#[trigger] prev_end[x]).0 == p;
                    assert(writes@[writes_mid.len() + x] == (p, ' '));
                }
            }
        }
        writes
    }
}

} // verus!
