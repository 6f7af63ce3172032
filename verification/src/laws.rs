//! The laws the engine's parts obey, stated and proved once over the spec
//! functions that the executable contracts use.

use vstd::prelude::*;

use crate::direction::lemma_reverse_involutive;
use crate::direction::Direction;
use crate::point::Point;
use crate::snake::tail_cut;
use crate::spatial::ObjectType;
use crate::world::apply_bite;
use crate::world::arm_id;
use crate::world::config_valid;
use crate::world::cut_id;
use crate::world::has_id;
use crate::world::head_swap_hit;
use crate::world::ids_unique;
use crate::world::in_interior;
use crate::world::index_of_id;
use crate::world::initial_body;
use crate::world::marked_for_removal;
use crate::world::other_snake_at;
use crate::world::spec_accept;
use crate::world::state_of;
use crate::world::vector_recorded;
use crate::world::apply_bites;
use crate::world::apply_eats;
use crate::world::bite_victim_ok;
use crate::world::bites_someone;
use crate::world::border_at;
use crate::world::bhas;
use crate::world::detect_findings;
use crate::world::detection_over;
use crate::world::eat_at;
use crate::world::eats_food;
use crate::world::ehas;
use crate::world::layers_synced;
use crate::world::is_move_of;
use crate::world::move_pass;
use crate::world::moved_state;
use crate::world::removal_outcome;
use crate::world::respawn_outcome;
use crate::world::self_hit;
use crate::world::step_point;
use crate::world::tick_transition;
use crate::world::SnakeView;
use crate::AreaSize;

verus! {

/// After a reset, every agent's initial body lies strictly inside the border
/// ring, and no two agents' initial bodies share a point: the starting lanes
/// that the creation-time bounds guarantee never overlap.
pub proof fn lemma_initial_bodies_interior_disjoint(
    w: AreaSize,
    h: AreaSize,
    eat_count: AreaSize,
    n: int,
    tail: int,
    i1: int,
    i2: int,
    j1: int,
    j2: int,
)
    requires
        config_valid(w, h, eat_count, n, tail),
        0 <= tail,
        0 <= i1 < n,
        0 <= i2 < n,
        i1 != i2,
        0 <= j1 < initial_body(tail, i1).len(),
        0 <= j2 < initial_body(tail, i2).len(),
    ensures
        in_interior(w, h, initial_body(tail, i1)[j1]),
        initial_body(tail, i1)[j1] != initial_body(tail, i2)[j2],
{
    assert(initial_body(tail, i1)[j1] == (Point {
        x: (3 + tail - j1) as AreaSize,
        y: (3 * (i1 + 1)) as AreaSize,
    }));
    assert(initial_body(tail, i2)[j2] == (Point {
        x: (3 + tail - j2) as AreaSize,
        y: (3 * (i2 + 1)) as AreaSize,
    }));
    assert(j1 <= tail && j2 <= tail);
    assert(0 <= 3 + tail - j1 <= 3 + tail);
    assert(3 + tail <= w - 6);
    assert(3 <= 3 * (i1 + 1) <= 3 * n && 3 * n + 3 < h);
    assert(3 * (i2 + 1) <= 3 * n);
    assert(3 * (i1 + 1) != 3 * (i2 + 1));
}

/// Rejecting the 180-degree reversal: a snake that still has a tail and
/// requests the exact reverse of its committed direction keeps the committed
/// direction; a tail-less snake may reverse freely.
pub proof fn lemma_reversal_rejected(committed: Direction, requested: Direction)
    requires
        requested.spec_reverse() == committed,
    ensures
        spec_accept(Some(committed), requested, true) == committed,
        spec_accept(Some(committed), requested, false) == requested,
{
}

/// Head-swap detection: when two agents have crossed through each other in
/// one movement pass - each now sits where the other's recorded direction
/// left from, moving exactly opposite ways - both are marked for removal,
/// although their body sets never share a cell at any observed instant.
pub proof fn lemma_head_swap_mutual(
    agents: Seq<(usize, SnakeView)>,
    mask: Map<ObjectType, Seq<Point>>,
    vv: Seq<(Point, Seq<Direction>)>,
    cut: bool,
    a: int,
    b: int,
    d: Direction,
)
    requires
        0 <= a < agents.len(),
        0 <= b < agents.len(),
        a != b,
        agents[a].1.body.len() >= 1,
        agents[b].1.body.len() >= 1,
        agents[a].1.dir == Some(d),
        agents[b].1.dir == Some(d.spec_reverse()),
        vector_recorded(vv, agents[a].1.body[0], d.spec_reverse()),
        vector_recorded(vv, agents[b].1.body[0], d),
    ensures
        marked_for_removal(agents, mask, vv, cut, a),
        marked_for_removal(agents, mask, vv, cut, b),
{
    assert(d.spec_reverse().spec_reverse() == d);
    assert(head_swap_hit(vv, agents[a].1)) by {
        assert(vector_recorded(vv, agents[a].1.body[0], d.spec_reverse())
            && agents[a].1.dir == Some(d.spec_reverse().spec_reverse()));
    }
    assert(head_swap_hit(vv, agents[b].1)) by {
        assert(vector_recorded(vv, agents[b].1.body[0], d)
            && agents[b].1.dir == Some(d.spec_reverse()));
    }
}

/// With tail-cutting disabled, any overlap between an agent's body and
/// another agent's layer marks the overlapping agent for removal.
pub proof fn lemma_cross_overlap_fatal(
    agents: Seq<(usize, SnakeView)>,
    mask: Map<ObjectType, Seq<Point>>,
    vv: Seq<(Point, Seq<Direction>)>,
    i: int,
    o: usize,
    j: int,
)
    requires
        0 <= i < agents.len(),
        0 <= j < agents[i].1.body.len(),
        other_snake_at(mask, agents[i].0, o, agents[i].1.body[j]),
    ensures
        marked_for_removal(agents, mask, vv, false, i),
{
}

/// With tail-cutting enabled, a resolved bite grows the biter - its stomach
/// is armed while its body stands - and cuts the victim's chain at the bitten
/// point; the victim keeps its direction and growth flag.
pub proof fn lemma_bite_truncates_and_feeds(
    s: Seq<(usize, SnakeView)>,
    b: usize,
    v: usize,
    p: Point,
)
    requires
        ids_unique(s),
        has_id(s, b),
        has_id(s, v),
        b != v,
    ensures
        state_of(apply_bite(s, b, v, p), b).stomach,
        state_of(apply_bite(s, b, v, p), b).body == state_of(s, b).body,
        state_of(apply_bite(s, b, v, p), v).body == tail_cut(state_of(s, v).body, p),
        state_of(apply_bite(s, b, v, p), v).stomach == state_of(s, v).stomach,
{
    let r = apply_bite(s, b, v, p);
    assert(r.len() == s.len());
    assert forall|x: int| 0 <= x < s.len() implies (#[trigger] r[x]).0 == s[x].0 by {
    }
    let ib = index_of_id(s, b);
    assert(0 <= ib < s.len() && s[ib].0 == b) by {
        let x = choose|x: int| 0 <= x < s.len() && (#[trigger] s[x]).0 == b;
    }
    let iv = index_of_id(s, v);
    assert(0 <= iv < s.len() && s[iv].0 == v) by {
        let x = choose|x: int| 0 <= x < s.len() && (#[trigger] s[x]).0 == v;
    }
    assert(r[ib].0 == b && r[iv].0 == v);
    assert(has_id(r, b) && has_id(r, v));
    assert(index_of_id(r, b) == ib) by {
        let x = choose|x: int| 0 <= x < r.len() && (#[trigger] r[x]).0 == b;
        assert(s[x].0 == b);
    }
    assert(index_of_id(r, v) == iv) by {
        let x = choose|x: int| 0 <= x < r.len() && (#[trigger] r[x]).0 == v;
        assert(s[x].0 == v);
    }
    assert(state_of(s, b) == s[ib].1 && state_of(s, v) == s[iv].1);
    assert(r[ib] == cut_id(arm_id(s, b), v, p)[ib]);
}

/// A step always leaves the cell, and different directions lead to
/// different neighbour cells.
pub proof fn lemma_step_point_moves(p: Point, d1: Direction, d2: Direction)
    ensures
        step_point(p, d1) != p,
        step_point(p, d1) == step_point(p, d2) ==> d1 == d2,
{
    let x = p.x;
    let y = p.y;
    assert((x + 1) as AreaSize != x) by (bit_vector);
    assert((x - 1) as AreaSize != x) by (bit_vector);
    assert((y + 1) as AreaSize != y) by (bit_vector);
    assert((y - 1) as AreaSize != y) by (bit_vector);
    assert((x + 1) as AreaSize != (x - 1) as AreaSize) by (bit_vector);
    assert((y + 1) as AreaSize != (y - 1) as AreaSize) by (bit_vector);
}

/// One quiet tick for a lone snake, read off the tick-transition contract:
/// with no other agent, nothing on or next to its body, growth unarmed and
/// the food set at its target, the snake survives whichever direction is
/// accepted, keeps its length, advances its head one cell, sheds exactly its
/// old tail cell, and the food set comes through untouched.
#[verifier::rlimit(60)]
pub proof fn lemma_quiet_tick(
    pre: Seq<(usize, SnakeView)>,
    border: Seq<Point>,
    eat_pre: Seq<Point>,
    cut: bool,
    w: AreaSize,
    h: AreaSize,
    target: AreaSize,
    post: Seq<(usize, SnakeView)>,
    post_eat: Seq<Point>,
    d0: Direction,
)
    requires
        tick_transition(pre, border, eat_pre, cut, w, h, target, post, post_eat),
        pre.len() == 1,
        pre[0].1.body.len() >= 2,
        pre[0].1.dir == Some(d0),
        !pre[0].1.stomach,
        // the body cells are pairwise distinct
        forall|a: int, b: int| 0 <= a < b < pre[0].1.body.len()
            ==> pre[0].1.body[a] != pre[0].1.body[b],
        // the only body cell one step from the head lies straight behind it
        forall|d: Direction|
            pre[0].1.body.contains(#[trigger] step_point(pre[0].1.body[0], d))
                ==> d == d0.spec_reverse(),
        // neither the body nor any cell one step from the head is on the ring
        forall|j: int| 0 <= j < pre[0].1.body.len()
            ==> !border.contains(#[trigger] pre[0].1.body[j]),
        forall|d: Direction| !border.contains(#[trigger] step_point(pre[0].1.body[0], d)),
        // no food on the body nor one step from the head
        forall|j: int| 0 <= j < pre[0].1.body.len()
            ==> !eat_pre.contains(#[trigger] pre[0].1.body[j]),
        forall|d: Direction| !eat_pre.contains(#[trigger] step_point(pre[0].1.body[0], d)),
        eat_pre.len() == target,
    ensures
        post.len() == 1,
        post[0].0 == pre[0].0,
        post[0].1.body.len() == pre[0].1.body.len(),
        post[0].1.body[0] != pre[0].1.body[0],
        post[0].1.body == seq![post[0].1.body[0]] + pre[0].1.body.drop_last(),
        !post[0].1.body.contains(pre[0].1.body.last()),
        !post[0].1.stomach,
        post_eat == eat_pre,
{
    let id = pre[0].0;
    let head = pre[0].1.body[0];
    let body = pre[0].1.body;
    let (m, vv, rem, eats, bites, s3) = choose|
        m: Seq<(usize, SnakeView)>,
        vv: Seq<(Point, Seq<Direction>)>,
        rem: Seq<usize>,
        eats: Seq<(usize, Point)>,
        bites: Seq<(usize, (usize, Point))>,
        s3: Seq<(usize, SnakeView)>,
    |
        {
            &&& #[trigger] move_pass(pre, m, vv)
            &&& #[trigger] detection_over(m, border, eat_pre, vv, cut, rem, eats, bites)
            &&& #[trigger] removal_outcome(m, rem, s3)
            &&& post == apply_eats(apply_bites(s3, bites), eat_pre, eats).0
            &&& respawn_outcome(
                apply_eats(apply_bites(s3, bites), eat_pre, eats).1,
                post,
                border,
                w,
                h,
                target,
                post_eat,
            )
        };
    assert(move_pass(pre, m, vv));
    assert(m[0].0 == id);
    assert(is_move_of(pre[0].1, m[0].1));
    let req = choose|req: Direction| m[0].1 == #[trigger] moved_state(pre[0].1, req);
    let d = spec_accept(Some(d0), req, body.len() > 1);
    assert(m[0].1 == moved_state(pre[0].1, req));
    let mhead = step_point(head, d);
    let mbody = m[0].1.body;
    assert(mbody == seq![mhead] + body.drop_last());
    assert(mbody[0] == mhead);
    assert(mbody.len() == body.len());
    assert(m[0].1.dir == Some(d));
    assert(!m[0].1.stomach);
    assert forall|j: int| 1 <= j < mbody.len() implies #[trigger] mbody[j] == body[j - 1] by {
        assert(mbody[j] == body.drop_last()[j - 1]);
    }
    // the accepted direction never reverses straight into the neck
    assert(d != d0.spec_reverse()) by {
        lemma_reverse_involutive(d0);
        lemma_reverse_involutive(req);
        if req.spec_reverse() == d0 {
            assert(d == d0);
            assert(d0.spec_reverse() != d0);
        } else {
            assert(d == req);
        }
    }
    lemma_step_point_moves(head, d, d);
    // unpack the detection pass
    assert(detection_over(m, border, eat_pre, vv, cut, rem, eats, bites));
    let mask_mid = choose|mask_mid: Map<ObjectType, Seq<Point>>|
        #[trigger] layers_synced(mask_mid, m, border, eat_pre)
            && detect_findings(m, mask_mid, vv, cut, rem, eats, bites);
    assert(layers_synced(mask_mid, m, border, eat_pre));
    assert(detect_findings(m, mask_mid, vv, cut, rem, eats, bites));
    // no record ever points at the new head cell
    assert(!head_swap_hit(vv, m[0].1)) by {
        if head_swap_hit(vv, m[0].1) {
            let dd = choose|dd: Direction|
                #[trigger] vector_recorded(vv, m[0].1.body[0], dd)
                    && m[0].1.dir == Some(dd.spec_reverse());
            assert(vector_recorded(vv, mhead, dd));
            let i = choose|i: int|
                0 <= i < pre.len() && (#[trigger] pre[i]).1.body[0] == mhead
                    && m[i].1.dir == Some(dd);
            assert(i == 0);
            assert(head == mhead);
            assert(false);
        }
    }
    // the head lands on no body cell
    assert(!self_hit(m[0].1)) by {
        if self_hit(m[0].1) {
            let j = choose|j: int|
                1 <= j < m[0].1.body.len() && #[trigger] m[0].1.body[j] == m[0].1.body[0];
            assert(mbody[j] == body[j - 1]);
            assert(body.contains(step_point(head, d))) by {
                assert(body[j - 1] == step_point(head, d));
            }
            assert(d == d0.spec_reverse());
            assert(false);
        }
    }
    // there is no other agent to meet
    assert forall|o: usize, p: Point|
        !(#[trigger] other_snake_at(mask_mid, id, o, p)) by {
        if other_snake_at(mask_mid, id, o, p) {
            assert(mask_mid.dom().contains(ObjectType::Snake(o)));
            assert(has_id(m, o));
            let xm = choose|xm: int| 0 <= xm < m.len() && (#[trigger] m[xm]).0 == o;
            assert(xm == 0);
            assert(false);
        }
    }
    // no food and no ring cell anywhere under the moved body
    assert forall|j: int| 0 <= j < mbody.len()
        implies !eat_at(mask_mid, #[trigger] mbody[j]) by {
        if eat_at(mask_mid, mbody[j]) {
            assert(mask_mid[ObjectType::Eat] == eat_pre);
            assert(eat_pre.contains(mbody[j]));
            if j == 0 {
                assert(!eat_pre.contains(step_point(head, d)));
            } else {
                assert(mbody[j] == body[j - 1]);
                assert(!eat_pre.contains(body[j - 1]));
            }
            assert(false);
        }
    }
    assert forall|j: int| 0 <= j < mbody.len()
        implies !border_at(mask_mid, #[trigger] mbody[j]) by {
        if border_at(mask_mid, mbody[j]) {
            assert(mask_mid[ObjectType::Border] == border);
            assert(border.contains(mbody[j]));
            if j == 0 {
                assert(!border.contains(step_point(head, d)));
            } else {
                assert(mbody[j] == body[j - 1]);
                assert(!border.contains(body[j - 1]));
            }
            assert(false);
        }
    }
    // nothing marks the lone agent
    assert(!marked_for_removal(m, mask_mid, vv, cut, 0)) by {
        if marked_for_removal(m, mask_mid, vv, cut, 0) {
            if exists|o: usize, j: int|
                0 <= j < mbody.len()
                    && #[trigger] other_snake_at(mask_mid, m[0].0, o, mbody[j]) {
                let (o, j) = choose|o: usize, j: int|
                    0 <= j < mbody.len()
                        && #[trigger] other_snake_at(mask_mid, m[0].0, o, mbody[j]);
                assert(false);
            }
            if exists|o: usize|
                #[trigger] other_snake_at(mask_mid, m[0].0, o, mbody[0])
                    && mask_mid[ObjectType::Snake(o)].len() >= 1
                    && mask_mid[ObjectType::Snake(o)][0] == mbody[0] {
                let o = choose|o: usize|
                    #[trigger] other_snake_at(mask_mid, m[0].0, o, mbody[0])
                        && mask_mid[ObjectType::Snake(o)].len() >= 1
                        && mask_mid[ObjectType::Snake(o)][0] == mbody[0];
                assert(false);
            }
            if exists|j: int|
                0 <= j < mbody.len() && eat_at(mask_mid, #[trigger] mbody[j])
                    && mbody[j] != mbody[0] {
                let j = choose|j: int|
                    0 <= j < mbody.len() && eat_at(mask_mid, #[trigger] mbody[j])
                        && mbody[j] != mbody[0];
                assert(false);
            }
            if exists|j: int| 0 <= j < mbody.len() && border_at(mask_mid, #[trigger] mbody[j]) {
                let j = choose|j: int|
                    0 <= j < mbody.len() && border_at(mask_mid, #[trigger] mbody[j]);
                assert(false);
            }
            assert(false);
        }
    }
    // so the removal pass keeps it
    assert(!rem.contains(id)) by {
        if rem.contains(id) {
            let i = choose|i: int|
                0 <= i < m.len() && (#[trigger] m[i]).0 == id
                    && marked_for_removal(m, mask_mid, vv, cut, i);
            assert(i == 0);
            assert(false);
        }
    }
    // nobody ate and nobody bit
    assert(eats.len() == 0) by {
        if eats.len() > 0 {
            let x = eats[0].0;
            assert(ehas(eats, x)) by {
                assert(eats[0].0 == x);
            }
            let i = choose|i: int|
                0 <= i < m.len() && (#[trigger] m[i]).0 == x && eats_food(mask_mid, m[i].1);
            assert(i == 0);
            assert(eat_at(mask_mid, mbody[0]));
            assert(false);
        }
    }
    assert(bites.len() == 0) by {
        if bites.len() > 0 {
            let x = bites[0].0;
            assert(bhas(bites, x)) by {
                assert(bites[0].0 == x);
            }
            let i = choose|i: int|
                0 <= i < m.len() && (#[trigger] m[i]).0 == x && bites_someone(m, mask_mid, i);
            assert(i == 0);
            let v = choose|v: usize| #[trigger] bite_victim_ok(m, mask_mid, 0, v);
            if v == m[0].0 {
                assert(self_hit(m[0].1));
            } else {
                assert(mask_mid.dom().contains(ObjectType::Snake(v)));
                assert(has_id(m, v));
                let xm = choose|xm: int| 0 <= xm < m.len() && (#[trigger] m[xm]).0 == v;
                assert(xm == 0);
            }
            assert(false);
        }
    }
    // the resolution collapses to the moved registry and the old food set
    assert(apply_bites(s3, bites) == s3);
    assert(apply_eats(s3, eat_pre, eats) == (s3, eat_pre));
    assert(post == s3);
    // the survivor is exactly the moved agent
    assert(removal_outcome(m, rem, s3));
    assert(has_id(m, id)) by {
        assert(m[0].0 == id);
    }
    assert(has_id(s3, id));
    assert(index_of_id(m, id) == 0) by {
        let xx = choose|xx: int| 0 <= xx < m.len() && (#[trigger] m[xx]).0 == id;
    }
    assert(state_of(m, id) == m[0].1);
    assert(s3.len() == 1) by {
        let i1 = choose|i1: int| 0 <= i1 < s3.len() && (#[trigger] s3[i1]).0 == id;
        if s3.len() >= 2 {
            let other_idx: int = if i1 == 0 {
                1
            } else {
                0
            };
            let oid = s3[other_idx].0;
            assert(has_id(s3, oid)) by {
                assert(s3[other_idx].0 == oid);
            }
            assert(has_id(m, oid));
            let xm = choose|xm: int| 0 <= xm < m.len() && (#[trigger] m[xm]).0 == oid;
            assert(xm == 0);
            assert(false);
        }
    }
    assert(index_of_id(s3, id) == 0) by {
        let xx = choose|xx: int| 0 <= xx < s3.len() && (#[trigger] s3[xx]).0 == id;
    }
    assert(s3[0].0 == id);
    assert(s3[0].1 == state_of(s3, id));
    assert(s3[0].1 == m[0].1);
    assert(post.len() == 1 && post[0].0 == id && post[0].1 == m[0].1);
    // the stated shape of the surviving body
    assert(post[0].1.body == seq![post[0].1.body[0]] + body.drop_last());
    let t = body.last();
    assert(!post[0].1.body.contains(t)) by {
        if post[0].1.body.contains(t) {
            let j = choose|j: int| 0 <= j < mbody.len() && mbody[j] == t;
            if j == 0 {
                assert(body.contains(step_point(head, d))) by {
                    assert(body[body.len() - 1] == t);
                }
                assert(d == d0.spec_reverse());
            } else {
                assert(mbody[j] == body[j - 1]);
                assert(body[j - 1] == body[body.len() - 1]);
            }
            assert(false);
        }
    }
    // the food set is at its target, so the respawn leaves it alone
    assert(respawn_outcome(eat_pre, post, border, w, h, target, post_eat));
    assert(post_eat == eat_pre);
}

} // verus!
