//! The simulation pipeline: per-tick movement, interaction detection,
//! fixed-order resolution and food respawn for any number of agents at once.

use vstd::prelude::*;

use crate::direction::Direction;
use crate::point::clone_points;
use crate::point::Point;
use crate::snake::Snake;
use crate::snake::tail_cut;
use crate::spatial;
use crate::spatial::ObjectType;
use crate::spatial::occupied_in;
use crate::AreaSize;

verus! {

/// The mathematical state of one agent: its body points (head first), its
/// pending-growth flag, and its last committed direction.
pub struct SnakeView {
    pub body: Seq<Point>,
    pub stomach: bool,
    pub dir: Option<Direction>,
}

/// One agent as the pipeline holds it: the snake plus its last committed
/// direction, `None` before the snake has ever moved.
pub struct SnakeInfo {
    snake: Snake,
    direction: Option<Direction>,
}

impl View for SnakeInfo {
    type V = SnakeView;

    closed spec fn view(&self) -> SnakeView {
        SnakeView {
            body: self.snake.points(),
            stomach: self.snake.stomach_full(),
            dir: self.direction,
        }
    }
}

impl SnakeInfo {
    pub open spec fn wf(&self) -> bool {
        self@.body.len() >= 1
    }

    pub fn get_snake(&self) -> (r: &Snake)
        ensures
            r.points() == self@.body,
            r.stomach_full() == self@.stomach,
    {
        &self.snake
    }

    pub fn get_direction(&self) -> (r: &Option<Direction>)
        ensures
            *r == self@.dir,
    {
        &self.direction
    }
}

impl Clone for SnakeInfo {
    /// A deep copy standing for the same agent state.
    fn clone(&self) -> (r: Self)
        ensures
            r@ == self@,
    {
        SnakeInfo { snake: self.snake.clone(), direction: self.direction }
    }
}

/// The per-agent registry view: stable ids paired with agent states.
pub open spec fn agents_of(s: Seq<(usize, SnakeInfo)>) -> Seq<(usize, SnakeView)> {
    s.map_values(|e: (usize, SnakeInfo)| (e.0, e.1@))
}

/// Pairwise-distinct agent ids in a registry.
pub open spec fn ids_unique(s: Seq<(usize, SnakeView)>) -> bool {
    forall|i: int, j: int| 0 <= i < j < s.len() ==> (#[trigger] s[i]).0 != (#[trigger] s[j]).0
}

/// Whether the registry holds an agent with the given id.
pub open spec fn has_id(s: Seq<(usize, SnakeView)>, id: usize) -> bool {
    exists|i: int| 0 <= i < s.len() && (#[trigger] s[i]).0 == id
}

/// The position of the agent with the given id.
pub open spec fn index_of_id(s: Seq<(usize, SnakeView)>, id: usize) -> int {
    choose|i: int| 0 <= i < s.len() && (#[trigger] s[i]).0 == id
}

/// The state of the agent with the given id.
pub open spec fn state_of(s: Seq<(usize, SnakeView)>, id: usize) -> SnakeView {
    s[index_of_id(s, id)].1
}

/// The discriminated reasons a session configuration is rejected.
#[derive(Debug, Clone, Copy, Hash, PartialEq, Eq, Structural)]
pub enum CreateError {
    WorldSmall,
    WorldLarge,
    FoodLack,
    FoodExcess,
    TooFewControllers,
    TooManyControllers,
    TooLargeSnakeTail,
}

/// The creation checks, in the order they are applied: the first failing
/// bound names the error; `None` means the configuration is accepted.
pub open spec fn spec_create_check(
    w: AreaSize,
    h: AreaSize,
    eat_count: AreaSize,
    n_controllers: int,
    tail: int,
) -> Option<CreateError> {
    if w < 10 || h < 10 {
        Some(CreateError::WorldSmall)
    } else if w > 1000 || h > 1000 {
        Some(CreateError::WorldLarge)
    } else if eat_count < 1 {
        Some(CreateError::FoodLack)
    } else if eat_count > 100 {
        Some(CreateError::FoodExcess)
    } else if n_controllers < 1 {
        Some(CreateError::TooFewControllers)
    } else if h <= (n_controllers + 1) * 3 {
        Some(CreateError::TooManyControllers)
    } else if 4 + tail + 1 + 4 > w {
        Some(CreateError::TooLargeSnakeTail)
    } else {
        None
    }
}

/// A configuration every bound of which holds.
pub open spec fn config_valid(
    w: AreaSize,
    h: AreaSize,
    eat_count: AreaSize,
    n_controllers: int,
    tail: int,
) -> bool {
    spec_create_check(w, h, eat_count, n_controllers, tail) is None
}

/// A cell strictly inside the border ring of a `w` by `h` grid.
pub open spec fn in_interior(w: AreaSize, h: AreaSize, p: Point) -> bool {
    &&& 1 <= p.x && p.x + 1 < w
    &&& 1 <= p.y && p.y + 1 < h
}

/// A cell of the border ring of a `w` by `h` grid.
pub open spec fn is_border_point(w: AreaSize, h: AreaSize, p: Point) -> bool {
    &&& p.x < w && p.y < h
    &&& (p.x == 0 || p.y == 0 || p.x + 1 == w || p.y + 1 == h)
}

/// A spatial index in sync with its authoritative sets: each live agent's
/// layer holds exactly its body, and the border and food layers hold exactly
/// the border and food sets whenever those are non-empty.
pub open spec fn layers_synced(
    mask: Map<ObjectType, Seq<Point>>,
    agents: Seq<(usize, SnakeView)>,
    border: Seq<Point>,
    eat: Seq<Point>,
) -> bool {
    &&& forall|id: usize| #[trigger] mask.dom().contains(ObjectType::Snake(id))
        <==> has_id(agents, id)
    &&& forall|i: int| 0 <= i < agents.len()
        ==> mask[ObjectType::Snake((#[trigger] agents[i]).0)] == agents[i].1.body
    &&& mask.dom().contains(ObjectType::Border) ==> mask[ObjectType::Border] == border
    &&& border.len() > 0 ==> mask.dom().contains(ObjectType::Border)
    &&& mask.dom().contains(ObjectType::Eat) ==> mask[ObjectType::Eat] == eat
    &&& eat.len() > 0 ==> mask.dom().contains(ObjectType::Eat)
}

/// A border set that is exactly the ring of a `w` by `h` grid.
pub open spec fn is_ring(border: Seq<Point>, w: AreaSize, h: AreaSize) -> bool {
    &&& forall|p: Point| #[trigger] border.contains(p) <==> is_border_point(w, h, p)
    &&& border.no_duplicates()
}

/// Two registries of the same shape - the same id and body position by
/// position - stay in sync with the same spatial index, and id uniqueness
/// carries over.
pub proof fn lemma_synced_same_shape(
    mask: Map<ObjectType, Seq<Point>>,
    a: Seq<(usize, SnakeView)>,
    b: Seq<(usize, SnakeView)>,
    border: Seq<Point>,
    eat: Seq<Point>,
)
    requires
        layers_synced(mask, a, border, eat),
        ids_unique(a),
        b.len() == a.len(),
        forall|i: int| 0 <= i < b.len()
            ==> (#[trigger] b[i]).0 == a[i].0 && b[i].1.body == a[i].1.body,
    ensures
        layers_synced(mask, b, border, eat),
        ids_unique(b),
{
    assert forall|x: int, y: int| 0 <= x < y < b.len()
        implies (#[trigger] b[x]).0 != (#[trigger] b[y]).0 by {
        assert(b[x].0 == a[x].0);
        assert(b[y].0 == a[y].0);
    }
    assert forall|id: usize| #[trigger] mask.dom().contains(ObjectType::Snake(id))
        implies has_id(b, id) by {
        assert(has_id(a, id));
        let j = choose|j: int| 0 <= j < a.len() && (#[trigger] a[j]).0 == id;
        assert(b[j].0 == id);
    }
    assert forall|id: usize| has_id(b, id)
        implies #[trigger] mask.dom().contains(ObjectType::Snake(id)) by {
        let j = choose|j: int| 0 <= j < b.len() && (#[trigger] b[j]).0 == id;
        assert(a[j].0 == id);
        assert(has_id(a, id));
    }
    assert forall|i: int| 0 <= i < b.len()
        implies mask[ObjectType::Snake((#[trigger] b[i]).0)] == b[i].1.body by {
        assert(b[i].0 == a[i].0);
        assert(mask[ObjectType::Snake(a[i].0)] == a[i].1.body);
    }
}

/// A read-only snapshot of the pipeline state, handed to controller hooks so
/// they can decide or render without touching the pipeline's own state.
pub struct WorldView {
    world_mask: spatial::World,
    snakes_info: Vec<(usize, SnakeInfo)>,
    border_points: Vec<Point>,
    eat_points: Vec<Point>,
}

impl WorldView {
    pub closed spec fn mask(&self) -> Map<ObjectType, Seq<Point>> {
        self.world_mask@
    }

    pub closed spec fn agents(&self) -> Seq<(usize, SnakeView)> {
        agents_of(self.snakes_info@)
    }

    pub closed spec fn border(&self) -> Seq<Point> {
        self.border_points@
    }

    pub closed spec fn eat(&self) -> Seq<Point> {
        self.eat_points@
    }

    pub closed spec fn mask_wf(&self) -> bool {
        self.world_mask.wf()
    }

    pub fn get_world_mask(&self) -> (r: &spatial::World)
        ensures
            r@ == self.mask(),
            r.wf() == self.mask_wf(),
    {
        &self.world_mask
    }

    pub fn get_snakes_info(&self) -> (r: &Vec<(usize, SnakeInfo)>)
        ensures
            agents_of(r@) == self.agents(),
    {
        &self.snakes_info
    }

    pub fn get_border_points(&self) -> (r: &Vec<Point>)
        ensures
            r@ == self.border(),
    {
        &self.border_points
    }

    pub fn get_eat_points(&self) -> (r: &Vec<Point>)
        ensures
            r@ == self.eat(),
    {
        &self.eat_points
    }

    /// Flattens the snapshot to a point-to-object listing for presentation.
    pub fn generate_map(&self) -> (r: Vec<(Point, ObjectType)>)
        requires
            self.mask_wf(),
        ensures
            forall|a: int, b: int| 0 <= a < b < r@.len()
                ==> (#[trigger] r@[a]).0 != (#[trigger] r@[b]).0,
            forall|j: int| 0 <= j < r@.len()
                ==> self.mask().dom().contains((#[trigger] r@[j]).1)
                    && self.mask()[r@[j].1].contains(r@[j].0),
            forall|p: Point| occupied_in(self.mask(), p) <==> spatial::covers(r@, p),
    {
        self.world_mask.generate_map()
    }
}

/// The hooks an external agent controller implements. The pipeline calls them
/// synchronously; any influence a controller has flows back through the
/// returned direction, never through shared state.
pub trait SnakeController {
    fn snake_will_burn(&mut self, world_view: &WorldView);

    fn snake_did_burn(&mut self, self_info: &SnakeInfo, world_view: &WorldView);

    fn snake_will_move(&mut self, self_info: &SnakeInfo, world_view: &WorldView) -> Direction;

    fn snake_did_move(&mut self, self_info: &SnakeInfo, world_view: &WorldView);

    fn snake_will_eat(&mut self, good_eat: bool, self_info: &SnakeInfo, world_view: &WorldView);

    fn snake_did_eat(&mut self, good_eat: bool, self_info: &SnakeInfo, world_view: &WorldView);

    fn snake_will_died(&mut self, self_info: &SnakeInfo, world_view: &WorldView);

    fn snake_did_died(&mut self, world_view: &WorldView);
}

/// One session's creation settings: grid size, food target, the tail-bite
/// policy, the synthetic starting tail length, and the per-agent controller
/// registry (the stable agent ids are the controllers' positions).
pub struct Config<C> {
    pub world_size: (AreaSize, AreaSize),
    pub eat_count: AreaSize,
    pub cut_tails: bool,
    pub base_snake_tail_size: usize,
    pub snakes_controllers: Vec<C>,
}

/// The simulation pipeline: the layered spatial index, the live agents, the
/// authoritative border and food sets, and the session configuration.
pub struct World<C> {
    world_mask: spatial::World,
    snakes_info: Vec<(usize, SnakeInfo)>,
    border_points: Vec<Point>,
    eat_points: Vec<Point>,
    config: Config<C>,
}

impl<C> World<C> {
    pub closed spec fn mask(&self) -> Map<ObjectType, Seq<Point>> {
        self.world_mask@
    }

    pub closed spec fn agents(&self) -> Seq<(usize, SnakeView)> {
        agents_of(self.snakes_info@)
    }

    pub closed spec fn border(&self) -> Seq<Point> {
        self.border_points@
    }

    pub closed spec fn eat(&self) -> Seq<Point> {
        self.eat_points@
    }

    pub closed spec fn width(&self) -> AreaSize {
        self.config.world_size.0
    }

    pub closed spec fn height(&self) -> AreaSize {
        self.config.world_size.1
    }

    pub closed spec fn food_target(&self) -> AreaSize {
        self.config.eat_count
    }

    pub closed spec fn cut_tails(&self) -> bool {
        self.config.cut_tails
    }

    pub closed spec fn tail_size(&self) -> usize {
        self.config.base_snake_tail_size
    }

    pub closed spec fn n_agents(&self) -> int {
        self.config.snakes_controllers@.len() as int
    }

    /// The session settings never change after creation.
    pub open spec fn same_session(&self, other: &World<C>) -> bool {
        &&& self.width() == other.width()
        &&& self.height() == other.height()
        &&& self.food_target() == other.food_target()
        &&& self.cut_tails() == other.cut_tails()
        &&& self.tail_size() == other.tail_size()
        &&& self.n_agents() == other.n_agents()
    }

    /// The spatial index mirrors the authoritative sets: each live agent's
    /// layer holds exactly its body, and the border and food layers hold
    /// exactly the border and food sets whenever those are non-empty.
    pub open spec fn mask_synced(&self) -> bool {
        layers_synced(self.mask(), self.agents(), self.border(), self.eat())
    }

    pub closed spec fn mask_wf(&self) -> bool {
        self.world_mask.wf()
    }

    /// The state invariant that holds between the pipeline's phases.
    pub open spec fn wf_core(&self) -> bool {
        &&& self.mask_wf()
        &&& ids_unique(self.agents())
        &&& forall|i: int| 0 <= i < self.agents().len()
            ==> (#[trigger] self.agents()[i]).1.body.len() >= 1
        &&& forall|i: int| 0 <= i < self.agents().len()
            ==> (#[trigger] self.agents()[i]).0 < self.n_agents()
        &&& config_valid(
            self.width(),
            self.height(),
            self.food_target(),
            self.n_agents(),
            self.tail_size() as int,
        )
        &&& self.mask_synced()
        &&& self.eat().len() <= self.food_target()
        &&& self.eat().no_duplicates()
    }

    /// The border set is exactly the grid's ring.
    pub open spec fn border_ring(&self) -> bool {
        is_ring(self.border(), self.width(), self.height())
    }

    /// The full invariant between ticks: on top of the core invariant, the
    /// ring is in place once agents exist, and every live body is interior.
    pub open spec fn wf(&self) -> bool {
        &&& self.wf_core()
        &&& self.agents().len() > 0 ==> self.border_ring()
        &&& forall|i: int, j: int|
            0 <= i < self.agents().len() && 0 <= j < self.agents()[i].1.body.len()
                ==> in_interior(
                    self.width(),
                    self.height(),
                    #[trigger] self.agents()[i].1.body[j],
                )
    }
}

impl<C: SnakeController> World<C> {
    /// Validates the configuration and builds the empty, uninitialized
    /// pipeline; every violated bound is reported, never defaulted.
    pub fn new(config: Config<C>) -> (r: Result<Self, CreateError>)
        ensures
            match r {
                Ok(w) => {
                    &&& spec_create_check(
                        config.world_size.0,
                        config.world_size.1,
                        config.eat_count,
                        config.snakes_controllers@.len() as int,
                        config.base_snake_tail_size as int,
                    ) is None
                    &&& w.wf()
                    &&& w.agents().len() == 0
                    &&& w.eat().len() == 0
                    &&& w.border().len() == 0
                    &&& w.mask() == Map::<ObjectType, Seq<Point>>::empty()
                    &&& w.width() == config.world_size.0
                    &&& w.height() == config.world_size.1
                    &&& w.food_target() == config.eat_count
                    &&& w.cut_tails() == config.cut_tails
                    &&& w.tail_size() == config.base_snake_tail_size
                    &&& w.n_agents() == config.snakes_controllers@.len()
                },
                Err(e) => spec_create_check(
                    config.world_size.0,
                    config.world_size.1,
                    config.eat_count,
                    config.snakes_controllers@.len() as int,
                    config.base_snake_tail_size as int,
                ) == Some(e),
            },
    {
        if config.world_size.0 < 10 || config.world_size.1 < 10 {
            return Err(CreateError::WorldSmall);
        }
        if config.world_size.0 > 1000 || config.world_size.1 > 1000 {
            return Err(CreateError::WorldLarge);
        }
        if config.eat_count < 1 {
            return Err(CreateError::FoodLack);
        }
        if config.eat_count > 100 {
            return Err(CreateError::FoodExcess);
        }
        let n = config.snakes_controllers.len();
        if n < 1 {
            return Err(CreateError::TooFewControllers);
        }
        if n > 1000 || config.world_size.1 as usize <= (n + 1) * 3 {
            return Err(CreateError::TooManyControllers);
        }
        if config.base_snake_tail_size > config.world_size.0 as usize - 9 {
            return Err(CreateError::TooLargeSnakeTail);
        }
        Ok(Self {
            world_mask: spatial::World::new(),
            snakes_info: Vec::new(),
            border_points: Vec::new(),
            eat_points: Vec::new(),
            config,
        })
    }
}

/// The starting body laid out at reset for the agent with the given id: the
/// head at x = 3 + tail, the tail end at x = 3, all in the agent's own lane
/// y = 3 * (id + 1).
pub open spec fn initial_body(tail: int, id: int) -> Seq<Point> {
    Seq::new((tail + 1) as nat, |j: int| (Point {
        x: (3 + tail - j) as AreaSize,
        y: (3 * (id + 1)) as AreaSize,
    }))
}

/// Relies on rand::Rng::gen_range over `0..n`: a uniformly chosen index below
/// `n`; it panics only on an empty range, which the precondition rules out.
/// The generator is rand's thread_rng, whose first per-thread initialization
/// aborts if the operating system's entropy source fails - an environmental
/// failure, like running out of memory, that no precondition on the inputs
/// can exclude.
#[verifier::external_body]
fn random_index(n: usize) -> (r: usize)
    requires
        n > 0,
    ensures
        r < n,
{
    rand::Rng::gen_range(&mut rand::thread_rng(), 0..n)
}

impl<C: SnakeController> World<C> {
    /// A controller hook call leaves everything but the controllers' own
    /// state untouched.
    pub open spec fn controllers_only_changed(pre: &World<C>, post: &World<C>) -> bool {
        &&& post.mask() == pre.mask()
        &&& post.mask_wf() == pre.mask_wf()
        &&& post.agents() == pre.agents()
        &&& post.border() == pre.border()
        &&& post.eat() == pre.eat()
        &&& post.same_session(pre)
    }

    fn call_will_burn(&mut self, idx: usize, view: &WorldView)
        requires
            idx < old(self).n_agents(),
        ensures
            Self::controllers_only_changed(old(self), final(self)),
    {
        let mut c = self.config.snakes_controllers.remove(idx);
        c.snake_will_burn(view);
        self.config.snakes_controllers.insert(idx, c);
    }

    fn call_did_burn(&mut self, idx: usize, info: &SnakeInfo, view: &WorldView)
        requires
            idx < old(self).n_agents(),
        ensures
            Self::controllers_only_changed(old(self), final(self)),
    {
        let mut c = self.config.snakes_controllers.remove(idx);
        c.snake_did_burn(info, view);
        self.config.snakes_controllers.insert(idx, c);
    }

    fn call_will_move(&mut self, idx: usize, info: &SnakeInfo, view: &WorldView) -> (d: Direction)
        requires
            idx < old(self).n_agents(),
        ensures
            Self::controllers_only_changed(old(self), final(self)),
    {
        let mut c = self.config.snakes_controllers.remove(idx);
        let d = c.snake_will_move(info, view);
        self.config.snakes_controllers.insert(idx, c);
        d
    }

    fn call_did_move(&mut self, idx: usize, info: &SnakeInfo, view: &WorldView)
        requires
            idx < old(self).n_agents(),
        ensures
            Self::controllers_only_changed(old(self), final(self)),
    {
        let mut c = self.config.snakes_controllers.remove(idx);
        c.snake_did_move(info, view);
        self.config.snakes_controllers.insert(idx, c);
    }

    fn call_will_eat(&mut self, idx: usize, good_eat: bool, info: &SnakeInfo, view: &WorldView)
        requires
            idx < old(self).n_agents(),
        ensures
            Self::controllers_only_changed(old(self), final(self)),
    {
        let mut c = self.config.snakes_controllers.remove(idx);
        c.snake_will_eat(good_eat, info, view);
        self.config.snakes_controllers.insert(idx, c);
    }

    fn call_did_eat(&mut self, idx: usize, good_eat: bool, info: &SnakeInfo, view: &WorldView)
        requires
            idx < old(self).n_agents(),
        ensures
            Self::controllers_only_changed(old(self), final(self)),
    {
        let mut c = self.config.snakes_controllers.remove(idx);
        c.snake_did_eat(good_eat, info, view);
        self.config.snakes_controllers.insert(idx, c);
    }

    fn call_will_died(&mut self, idx: usize, info: &SnakeInfo, view: &WorldView)
        requires
            idx < old(self).n_agents(),
        ensures
            Self::controllers_only_changed(old(self), final(self)),
    {
        let mut c = self.config.snakes_controllers.remove(idx);
        c.snake_will_died(info, view);
        self.config.snakes_controllers.insert(idx, c);
    }

    fn call_did_died(&mut self, idx: usize, view: &WorldView)
        requires
            idx < old(self).n_agents(),
        ensures
            Self::controllers_only_changed(old(self), final(self)),
    {
        let mut c = self.config.snakes_controllers.remove(idx);
        c.snake_did_died(view);
        self.config.snakes_controllers.insert(idx, c);
    }
}

impl<C: SnakeController> World<C> {
    /// Computes the ring of cells on the grid's edge and installs it as the
    /// authoritative border set and the Border layer.
    #[verifier::loop_isolation(false)]
    pub fn spawn_border(&mut self)
        requires
            old(self).wf_core(),
        ensures
            final(self).wf_core(),
            final(self).border_ring(),
            final(self).mask() == old(self).mask().insert(
                ObjectType::Border,
                final(self).border(),
            ),
            final(self).agents() == old(self).agents(),
            final(self).eat() == old(self).eat(),
            final(self).same_session(old(self)),
    {
        let w = self.config.world_size.0;
        let h = self.config.world_size.1;
        let mut border: Vec<Point> = Vec::new();
        let mut x: AreaSize = 0;
        while x < w
            invariant
                0 <= x <= w,
                forall|p: Point| #[trigger] border@.contains(p)
                    <==> is_border_point(w, h, p) && p.x < x,
                border@.no_duplicates(),
            decreases w - x,
        {
            let mut y: AreaSize = 0;
            while y < h
                invariant
                    0 <= y <= h,
                    x < w,
                    forall|p: Point| #[trigger] border@.contains(p)
                        <==> is_border_point(w, h, p)
                            && (p.x < x || (p.x == x && p.y < y)),
                    border@.no_duplicates(),
                decreases h - y,
            {
                if x == 0 || y == 0 || x == w - 1 || y == h - 1 {
                    let ghost b0 = border@;
                    let np = Point::new(x, y);
                    border.push(np);
                    proof {
                        assert(border@[border@.len() - 1] == np);
                        assert forall|p: Point| #[trigger] border@.contains(p)
                            implies is_border_point(w, h, p)
                                && (p.x < x || (p.x == x && p.y < y + 1)) by {
                            let q = choose|q: int| 0 <= q < border@.len() && border@[q] == p;
                            if q < b0.len() {
                                assert(b0[q] == p);
                                assert(b0.contains(p));
                            }
                        }
                        assert forall|p: Point|
                            is_border_point(w, h, p)
                                && (p.x < x || (p.x == x && p.y < y + 1))
                            implies #[trigger] border@.contains(p) by {
                            if p.x < x || (p.x == x && p.y < y) {
                                assert(b0.contains(p));
                                let q = choose|q: int| 0 <= q < b0.len() && b0[q] == p;
                                assert(border@[q] == p);
                            } else {
                                assert(p == np);
                                assert(border@[border@.len() - 1] == p);
                            }
                        }
                        assert(!b0.contains(np));
                        assert forall|a: int, b: int| 0 <= a < b < border@.len()
                            implies border@[a] != border@[b] by {
                            if b == border@.len() - 1 {
                                assert(b0[a] == border@[a]);
                                assert(b0.contains(border@[a]));
                            } else {
                                assert(b0[a] == border@[a] && b0[b] == border@[b]);
                            }
                        }
                    }
                } else {
                    proof {
                        assert forall|p: Point|
                            is_border_point(w, h, p)
                                && (p.x < x || (p.x == x && p.y < y + 1))
                            implies #[trigger] border@.contains(p) by {
                            assert(!(p.x == x && p.y == y));
                        }
                    }
                }
                y = y + 1;
            }
            x = x + 1;
        }
        self.border_points = border;
        let layer = clone_points(&self.border_points);
        self.world_mask.set_layer(ObjectType::Border, layer);
        proof {
            assert forall|id: usize|
                #[trigger] self.mask().dom().contains(ObjectType::Snake(id))
                implies has_id(self.agents(), id) by {
                assert(old(self).mask().dom().contains(ObjectType::Snake(id)));
            }
            assert forall|id: usize| has_id(self.agents(), id)
                implies #[trigger] self.mask().dom().contains(ObjectType::Snake(id)) by {
                assert(old(self).mask().dom().contains(ObjectType::Snake(id)));
            }
        }
    }
}

/// The registry a reset tick builds: one agent per registered controller,
/// ids in order, each with the configured starting body, no growth armed and
/// no committed direction yet.
pub open spec fn spawn_layout(s: Seq<(usize, SnakeView)>, n: int, tail: int) -> bool {
    &&& s.len() == n
    &&& forall|i: int| 0 <= i < s.len()
        ==> (#[trigger] s[i]).0 == i
            && s[i].1.body == initial_body(tail, i)
            && !s[i].1.stomach
            && s[i].1.dir is None
}

impl<C: SnakeController> World<C> {
    /// Places one fresh snake per registered agent, id by id, growing each to
    /// the configured tail length along its own horizontal lane, and commits
    /// each agent's registry entry and layer between its spawn hooks.
    #[verifier::loop_isolation(false)]
    pub fn spawn_snakes(&mut self)
        requires
            old(self).wf_core(),
            old(self).border_ring(),
            old(self).agents().len() == 0,
        ensures
            final(self).wf_core(),
            final(self).border_ring(),
            spawn_layout(
                final(self).agents(),
                old(self).n_agents(),
                old(self).tail_size() as int,
            ),
            forall|k: ObjectType| !(k is Snake)
                ==> (#[trigger] final(self).mask().dom().contains(k)
                        == old(self).mask().dom().contains(k))
                    && (final(self).mask().dom().contains(k)
                        ==> final(self).mask()[k] == old(self).mask()[k]),
            final(self).border() == old(self).border(),
            final(self).eat() == old(self).eat(),
            final(self).same_session(old(self)),
    {
        let n = self.config.snakes_controllers.len();
        let tail = self.config.base_snake_tail_size;
        let mut id: usize = 0;
        while id < n
            invariant
                0 <= id <= n,
                self.wf_core(),
                self.border_ring(),
                self.agents().len() == id,
                forall|i: int| 0 <= i < id
                    ==> (#[trigger] self.agents()[i]).0 == i
                        && self.agents()[i].1.body == initial_body(tail as int, i)
                        && !self.agents()[i].1.stomach
                        && self.agents()[i].1.dir is None,
                forall|k: ObjectType| !(k is Snake)
                    ==> (#[trigger] self.mask().dom().contains(k)
                            == old(self).mask().dom().contains(k))
                        && (self.mask().dom().contains(k)
                            ==> self.mask()[k] == old(self).mask()[k]),
                self.border() == old(self).border(),
                self.eat() == old(self).eat(),
                self.same_session(old(self)),
                n == self.n_agents(),
                tail == self.tail_size(),
            decreases n - id,
        {
            let y: AreaSize = ((id + 1) * 3) as AreaSize;
            proof {
                assert((id + 1) * 3 < self.height() as int);
            }
            let mut snake = Snake::new(Point::new(3, y));
            proof {
                assert(snake.points() =~= initial_body(0, id as int));
            }
            let mut k: usize = 0;
            while k < tail
                invariant
                    0 <= k <= tail,
                    snake.points() == initial_body(k as int, id as int),
                    !snake.stomach_full(),
                decreases tail - k,
            {
                snake.fill_stomach_if_empty();
                proof {
                    assert(snake.points()[0] == (Point {
                        x: (3 + k) as AreaSize,
                        y: (3 * (id + 1)) as AreaSize,
                    }));
                    assert(3 + k < AreaSize::MAX);
                }
                snake.move_to(Direction::Right);
                proof {
                    assert(snake.points() =~= initial_body(k + 1, id as int));
                }
                k = k + 1;
            }
            let view = WorldView::new(self);
            self.call_will_burn(id, &view);
            let points = snake.body_parts_points(true);
            let info = SnakeInfo { snake, direction: None };
            let info_c = info.clone();
            let ghost agents0 = self.agents();
            self.snakes_info.push((id, info));
            proof {
                assert(self.agents() =~= agents0.push((id, info_c@)));
            }
            self.world_mask.set_layer(ObjectType::Snake(id), points);
            proof {
                assert forall|id2: usize|
                    #[trigger] self.mask().dom().contains(ObjectType::Snake(id2))
                    implies has_id(self.agents(), id2) by {
                    if id2 == id {
                        assert(self.agents()[id as int].0 == id);
                    } else {
                        let i = choose|i: int|
                            0 <= i < agents0.len() && (#[trigger] agents0[i]).0 == id2;
                        assert(self.agents()[i].0 == id2);
                    }
                }
                assert forall|id2: usize| has_id(self.agents(), id2)
                    implies #[trigger] self.mask().dom().contains(ObjectType::Snake(id2)) by {
                    let i = choose|i: int|
                        0 <= i < self.agents().len() && (#[trigger] self.agents()[i]).0 == id2;
                    if i < agents0.len() {
                        assert(agents0[i].0 == id2);
                    }
                }
                assert(ids_unique(self.agents()));
            }
            let view2 = WorldView::new(self);
            self.call_did_burn(id, &info_c, &view2);
            id = id + 1;
        }
    }
}

/// The point one cell away from `p` in direction `d` (coordinates wrap only
/// outside the grid bounds the pipeline maintains).
pub open spec fn step_point(p: Point, d: Direction) -> Point {
    match d {
        Direction::Right => (Point { x: (p.x + 1) as AreaSize, y: p.y }),
        Direction::Left => (Point { x: (p.x - 1) as AreaSize, y: p.y }),
        Direction::Down => (Point { x: p.x, y: (p.y + 1) as AreaSize }),
        Direction::Up => (Point { x: p.x, y: (p.y - 1) as AreaSize }),
    }
}

/// A cell of the `w` by `h` grid.
pub open spec fn in_grid(w: AreaSize, h: AreaSize, p: Point) -> bool {
    p.x < w && p.y < h
}

/// The direction-acceptance rule: a requested direction is taken unless it
/// exactly reverses the committed one while the snake still has a tail; a
/// tail-less snake may reverse freely, and a first request is always taken.
pub open spec fn spec_accept(
    committed: Option<Direction>,
    requested: Direction,
    has_tail: bool,
) -> Direction {
    match committed {
        None => requested,
        Some(d) => if requested.spec_reverse() == d && has_tail {
            d
        } else {
            requested
        },
    }
}

/// Applies the direction-acceptance rule.
pub fn accept_direction(
    committed: Option<Direction>,
    requested: Direction,
    has_tail: bool,
) -> (r: Direction)
    ensures
        r == spec_accept(committed, requested, has_tail),
{
    match committed {
        None => requested,
        Some(d) => {
            if requested.reverse() == d && has_tail {
                d
            } else {
                requested
            }
        }
    }
}

/// An agent's state after one movement step in which it requested `req`.
pub open spec fn moved_state(pre: SnakeView, req: Direction) -> SnakeView {
    let d = spec_accept(pre.dir, req, pre.body.len() > 1);
    SnakeView {
        body: seq![step_point(pre.body[0], d)] + if pre.stomach {
            pre.body
        } else {
            pre.body.drop_last()
        },
        stomach: false,
        dir: Some(d),
    }
}

/// Whether `post` is a lawful movement result from `pre`: the outcome of
/// some requested direction run through the acceptance rule and the body
/// shift, with growth consumed.
pub open spec fn is_move_of(pre: SnakeView, post: SnakeView) -> bool {
    exists|req: Direction| post == #[trigger] moved_state(pre, req)
}

/// The per-cell record of which directions left a given pre-move head cell.
pub open spec fn vectors_view(s: Seq<(Point, Vec<Direction>)>) -> Seq<(Point, Seq<Direction>)> {
    s.map_values(|e: (Point, Vec<Direction>)| (e.0, e.1@))
}

/// Pairwise-distinct cells in a movement-vector record.
pub open spec fn vkeys_unique(s: Seq<(Point, Seq<Direction>)>) -> bool {
    forall|i: int, j: int| 0 <= i < j < s.len() ==> (#[trigger] s[i]).0 != (#[trigger] s[j]).0
}

/// Whether the record holds an entry for the cell `p`.
pub open spec fn vhas(s: Seq<(Point, Seq<Direction>)>, p: Point) -> bool {
    exists|i: int| 0 <= i < s.len() && (#[trigger] s[i]).0 == p
}

/// The directions recorded for the cell `p`.
pub open spec fn vdirs(s: Seq<(Point, Seq<Direction>)>, p: Point) -> Seq<Direction> {
    s[choose|i: int| 0 <= i < s.len() && (#[trigger] s[i]).0 == p].1
}

/// Whether direction `d` is recorded as having left the cell `p`.
pub open spec fn vector_recorded(s: Seq<(Point, Seq<Direction>)>, p: Point, d: Direction) -> bool {
    vhas(s, p) && vdirs(s, p).contains(d)
}

/// One whole movement pass from registry `pre` to registry `m`, leaving the
/// per-cell record `vv`: every id stays in place, every state is the lawful
/// outcome of some requested direction, and the record holds direction `d`
/// at cell `p` exactly when some agent left pre-move head `p` with accepted
/// direction `d`.
pub open spec fn move_pass(
    pre: Seq<(usize, SnakeView)>,
    m: Seq<(usize, SnakeView)>,
    vv: Seq<(Point, Seq<Direction>)>,
) -> bool {
    &&& m.len() == pre.len()
    &&& forall|i: int| 0 <= i < pre.len() ==> (#[trigger] m[i]).0 == pre[i].0
    &&& forall|i: int| 0 <= i < pre.len() ==> is_move_of(pre[i].1, (#[trigger] m[i]).1)
    &&& vkeys_unique(vv)
    &&& forall|p: Point, d: Direction| #[trigger] vector_recorded(vv, p, d)
        <==> exists|i: int| 0 <= i < pre.len()
            && (#[trigger] pre[i]).1.body[0] == p && m[i].1.dir == Some(d)
}

/// Adds `d` to the set of directions recorded for `p`.
#[verifier::loop_isolation(false)]
fn record_vector(vectors: &mut Vec<(Point, Vec<Direction>)>, p: Point, d: Direction)
    requires
        vkeys_unique(vectors_view(old(vectors)@)),
    ensures
        vkeys_unique(vectors_view(final(vectors)@)),
        forall|q: Point, d2: Direction|
            #[trigger] vector_recorded(vectors_view(final(vectors)@), q, d2)
                <==> vector_recorded(vectors_view(old(vectors)@), q, d2)
                    || (q == p && d2 == d),
{
    let ghost v0 = vectors_view(vectors@);
    let mut i: usize = 0;
    let n = vectors.len();
    while i < n
        invariant
            0 <= i <= n,
            n == vectors@.len(),
            vectors_view(vectors@) == v0,
            forall|j: int| 0 <= j < i ==> (#[trigger] v0[j]).0 != p,
        decreases n - i,
    {
        if vectors[i].0 == p {
            proof {
                assert(v0[i as int].0 == p);
            }
            let (key, mut dirs) = vectors.remove(i);
            let mut found = false;
            let mut k: usize = 0;
            while k < dirs.len()
                invariant
                    0 <= k <= dirs@.len(),
                    found ==> dirs@.contains(d),
                    !found ==> forall|x: int| 0 <= x < k ==> dirs@[x] != d,
                decreases dirs@.len() - k,
            {
                if dirs[k] == d {
                    found = true;
                    proof {
                        assert(dirs@[k as int] == d);
                    }
                    break;
                }
                k = k + 1;
            }
            let ghost dirs0 = dirs@;
            if !found {
                dirs.push(d);
            }
            vectors.insert(i, (key, dirs));
            proof {
                let vf = vectors_view(vectors@);
                assert(vf.len() == v0.len());
                assert forall|j: int| 0 <= j < vf.len() && j != i
                    implies #[trigger] vf[j] == v0[j] by {
                }
                assert(vf[i as int].0 == p);
                assert(vf[i as int].1 == if found {
                    dirs0
                } else {
                    dirs0.push(d)
                });
                assert forall|q: Point, d2: Direction|
                    #[trigger] vector_recorded(vf, q, d2)
                        <==> vector_recorded(v0, q, d2) || (q == p && d2 == d) by {
                    if q == p {
                        assert(vhas(vf, q));
                        assert(vhas(v0, q));
                        let w0 = choose|x: int| 0 <= x < v0.len() && (#[trigger] v0[x]).0 == q;
                        assert(w0 == i);
                        let wf = choose|x: int| 0 <= x < vf.len() && (#[trigger] vf[x]).0 == q;
                        assert(wf == i);
                        assert(vdirs(v0, q) == dirs0);
                        assert(vdirs(vf, q) == vf[i as int].1);
                        if !found {
                            assert forall|d3: Direction| #[trigger] dirs0.push(d).contains(d3)
                                implies dirs0.contains(d3) || d3 == d by {
                                let x = choose|x: int|
                                    0 <= x < dirs0.push(d).len() && dirs0.push(d)[x] == d3;
                                if x < dirs0.len() {
                                    assert(dirs0[x] == d3);
                                }
                            }
                            assert(dirs0.push(d)[dirs0.len() as int] == d);
                            assert forall|d3: Direction| dirs0.contains(d3)
                                implies #[trigger] dirs0.push(d).contains(d3) by {
                                let x = choose|x: int| 0 <= x < dirs0.len() && dirs0[x] == d3;
                                assert(dirs0.push(d)[x] == d3);
                            }
                        }
                    } else {
                        if vhas(vf, q) {
                            let x = choose|x: int|
                                0 <= x < vf.len() && (#[trigger] vf[x]).0 == q;
                            assert(x != i);
                            assert(v0[x].0 == q);
                            assert(vdirs(vf, q) == vdirs(v0, q)) by {
                                let x0 = choose|x0: int|
                                    0 <= x0 < v0.len() && (#[trigger] v0[x0]).0 == q;
                                assert(x0 == x);
                            }
                        }
                        if vhas(v0, q) {
                            let x = choose|x: int|
                                0 <= x < v0.len() && (#[trigger] v0[x]).0 == q;
                            assert(x != i);
                            assert(vf[x].0 == q);
                        }
                    }
                }
            }
            return;
        }
        i = i + 1;
    }
    let ghost v0b = vectors_view(vectors@);
    let dirs = vec![d];
    proof {
        assert(dirs@ =~= seq![d]);
    }
    vectors.push((p, dirs));
    proof {
        let vf = vectors_view(vectors@);
        assert(vf.len() == v0b.len() + 1);
        assert forall|j: int| 0 <= j < v0b.len() implies #[trigger] vf[j] == v0b[j] by {
        }
        assert(vf[vf.len() - 1].0 == p && vf[vf.len() - 1].1 == seq![d]);
        assert(!vhas(v0b, p));
        assert forall|q: Point, d2: Direction|
            #[trigger] vector_recorded(vf, q, d2)
                <==> vector_recorded(v0b, q, d2) || (q == p && d2 == d) by {
            if q == p {
                assert(vhas(vf, q));
                let wf = choose|x: int| 0 <= x < vf.len() && (#[trigger] vf[x]).0 == q;
                assert(wf == vf.len() - 1);
                assert(vdirs(vf, q) == seq![d]);
                assert(seq![d].contains(d)) by {
                    assert(seq![d][0] == d);
                }
                assert forall|d3: Direction| #[trigger] seq![d].contains(d3)
                    implies d3 == d by {
                }
            } else {
                if vhas(vf, q) {
                    let x = choose|x: int| 0 <= x < vf.len() && (#[trigger] vf[x]).0 == q;
                    assert(x < v0b.len());
                    assert(v0b[x].0 == q);
                    assert(vdirs(vf, q) == vdirs(v0b, q)) by {
                        let x0 = choose|x0: int|
                            0 <= x0 < v0b.len() && (#[trigger] v0b[x0]).0 == q;
                        assert(x0 == x);
                    }
                }
                if vhas(v0b, q) {
                    let x = choose|x: int| 0 <= x < v0b.len() && (#[trigger] v0b[x]).0 == q;
                    assert(vf[x].0 == q);
                }
            }
        }
    }
}

impl<C: SnakeController> World<C> {
    /// One movement pass: asks each agent's controller for a direction,
    /// applies the acceptance rule, records the accepted direction at the
    /// agent's pre-move head cell, commits the direction, moves the snake and
    /// rewrites its layer. Returns the per-cell movement record.
    #[verifier::loop_isolation(false)]
    pub fn snakes_move(&mut self) -> (vectors: Vec<(Point, Vec<Direction>)>)
        requires
            old(self).wf(),
        ensures
            final(self).wf_core(),
            final(self).border() == old(self).border(),
            final(self).eat() == old(self).eat(),
            final(self).same_session(old(self)),
            move_pass(old(self).agents(), final(self).agents(), vectors_view(vectors@)),
            forall|i: int, j: int|
                0 <= i < final(self).agents().len()
                    && 0 <= j < final(self).agents()[i].1.body.len()
                    ==> in_grid(
                        final(self).width(),
                        final(self).height(),
                        #[trigger] final(self).agents()[i].1.body[j],
                    ),
    {
        let mut vectors: Vec<(Point, Vec<Direction>)> = Vec::new();
        let n_snakes = self.snakes_info.len();
        let mut i: usize = 0;
        while i < n_snakes
            invariant
                0 <= i <= n_snakes,
                n_snakes == self.agents().len(),
                self.wf_core(),
                self.border() == old(self).border(),
                self.eat() == old(self).eat(),
                self.same_session(old(self)),
                self.agents().len() == old(self).agents().len(),
                forall|j: int| 0 <= j < old(self).agents().len()
                    ==> (#[trigger] self.agents()[j]).0 == old(self).agents()[j].0,
                forall|j: int| i <= j < old(self).agents().len()
                    ==> (#[trigger] self.agents()[j]).1 == old(self).agents()[j].1,
                forall|j: int| 0 <= j < i
                    ==> is_move_of(
                        old(self).agents()[j].1,
                        (#[trigger] self.agents()[j]).1,
                    ),
                forall|j: int, k: int|
                    0 <= j < i && 0 <= k < self.agents()[j].1.body.len()
                        ==> in_grid(
                            self.width(),
                            self.height(),
                            #[trigger] self.agents()[j].1.body[k],
                        ),
                vkeys_unique(vectors_view(vectors@)),
                forall|p: Point, d: Direction|
                    #[trigger] vector_recorded(vectors_view(vectors@), p, d)
                        <==> exists|j: int|
                            0 <= j < i
                                && (#[trigger] old(self).agents()[j]).1.body[0] == p
                                && self.agents()[j].1.dir == Some(d),
            decreases n_snakes - i,
        {
            let id = self.snakes_info[i].0;
            let info_c = self.snakes_info[i].1.clone();
            proof {
                assert(self.agents()[i as int].1 == info_c@);
                assert(info_c@ == old(self).agents()[i as int].1);
            }
            let view = WorldView::new(self);
            let requested = self.call_will_move(id, &info_c, &view);
            let committed: Option<Direction> = *info_c.get_direction();
            let has_tail = info_c.get_snake().body_parts_points(false).len() > 0;
            let new_direction = accept_direction(committed, requested, has_tail);
            let head_point = info_c.get_snake().head_point();
            let ghost vv0 = vectors_view(vectors@);
            record_vector(&mut vectors, head_point, new_direction);
            let ghost agents_mid = self.agents();
            let ghost mask_mid = self.mask();
            let (eid, mut einfo) = self.snakes_info.remove(i);
            einfo.direction = Some(new_direction);
            proof {
                assert(einfo.snake.points() == old(self).agents()[i as int].1.body);
                assert(in_interior(
                    self.width(),
                    self.height(),
                    old(self).agents()[i as int].1.body[0],
                ));
            }
            einfo.snake.move_to(new_direction);
            let pts = einfo.snake.body_parts_points(true);
            let ghost moved = einfo@;
            self.snakes_info.insert(i, (eid, einfo));
            proof {
                assert forall|j: int| 0 <= j < agents_mid.len() && j != i
                    implies #[trigger] self.agents()[j] == agents_mid[j] by {
                }
                assert(self.agents()[i as int] == (id, moved));
                assert(self.agents().len() == agents_mid.len());
                assert(moved == moved_state(old(self).agents()[i as int].1, requested));
            }
            self.world_mask.set_layer(ObjectType::Snake(id), pts);
            proof {
                let agents_new = self.agents();
                assert(ids_unique(agents_new)) by {
                    assert forall|a: int, b: int| 0 <= a < b < agents_new.len()
                        implies (#[trigger] agents_new[a]).0 != (#[trigger] agents_new[b]).0 by {
                        assert(agents_new[a].0 == agents_mid[a].0);
                        assert(agents_new[b].0 == agents_mid[b].0);
                    }
                }
                assert forall|id2: usize|
                    #[trigger] self.mask().dom().contains(ObjectType::Snake(id2))
                    implies has_id(agents_new, id2) by {
                    if id2 == id {
                        assert(agents_new[i as int].0 == id);
                    } else {
                        assert(mask_mid.dom().contains(ObjectType::Snake(id2)));
                        let j = choose|j: int|
                            0 <= j < agents_mid.len() && (#[trigger] agents_mid[j]).0 == id2;
                        assert(agents_new[j].0 == id2);
                    }
                }
                assert forall|id2: usize| has_id(agents_new, id2)
                    implies #[trigger] self.mask().dom().contains(ObjectType::Snake(id2)) by {
                    if id2 != id {
                        let j = choose|j: int|
                            0 <= j < agents_new.len() && (#[trigger] agents_new[j]).0 == id2;
                        assert(agents_mid[j].0 == id2);
                        assert(mask_mid.dom().contains(ObjectType::Snake(id2)));
                    }
                }
                assert forall|j: int| 0 <= j < agents_new.len()
                    implies self.mask()[ObjectType::Snake((#[trigger] agents_new[j]).0)]
                        == agents_new[j].1.body by {
                    if j != i {
                        assert(agents_new[j].0 == agents_mid[j].0);
                        assert(agents_new[j].0 != id);
                        assert(mask_mid[ObjectType::Snake(agents_mid[j].0)]
                            == agents_mid[j].1.body);
                    }
                }
            }
            let info_c2 = self.snakes_info[i].1.clone();
            let view2 = WorldView::new(self);
            self.call_did_move(id, &info_c2, &view2);
            i = i + 1;
            proof {
                assert forall|j: int| 0 <= j < i
                    implies is_move_of(
                        old(self).agents()[j].1,
                        (#[trigger] self.agents()[j]).1,
                    ) by {
                    if j < i - 1 {
                        assert(is_move_of(old(self).agents()[j].1, agents_mid[j].1));
                        let req = choose|req: Direction|
                            agents_mid[j].1 == #[trigger] moved_state(
                                old(self).agents()[j].1,
                                req,
                            );
                        assert(self.agents()[j].1
                            == moved_state(old(self).agents()[j].1, req));
                    } else {
                        assert(self.agents()[j].1
                            == moved_state(old(self).agents()[j].1, requested));
                    }
                }
                let vv = vectors_view(vectors@);
                assert forall|p: Point, d: Direction|
                    #[trigger] vector_recorded(vv, p, d)
                        implies exists|j: int|
                            0 <= j < i
                                && (#[trigger] old(self).agents()[j]).1.body[0] == p
                                && self.agents()[j].1.dir == Some(d) by {
                    if vector_recorded(vv0, p, d) {
                        let j = choose|j: int|
                            0 <= j < i - 1
                                && (#[trigger] old(self).agents()[j]).1.body[0] == p
                                && agents_mid[j].1.dir == Some(d);
                        assert(self.agents()[j].1 == agents_mid[j].1);
                    } else {
                        assert(p == head_point && d == new_direction);
                        assert(old(self).agents()[i - 1].1.body[0] == p);
                        assert(self.agents()[i - 1].1.dir == Some(d));
                    }
                }
                assert forall|p: Point, d: Direction|
                    (exists|j: int|
                        0 <= j < i
                            && (#[trigger] old(self).agents()[j]).1.body[0] == p
                            && self.agents()[j].1.dir == Some(d))
                    implies #[trigger] vector_recorded(vv, p, d) by {
                    let j = choose|j: int|
                        0 <= j < i
                            && (#[trigger] old(self).agents()[j]).1.body[0] == p
                            && self.agents()[j].1.dir == Some(d);
                    if j < i - 1 {
                        assert(agents_mid[j].1 == self.agents()[j].1);
                        assert(vector_recorded(vv0, p, d));
                    } else {
                        assert(p == head_point && d == new_direction);
                    }
                }
            }
        }
        vectors
    }
}

/// Whether the food layer of `mask` occupies `p`.
pub open spec fn eat_at(mask: Map<ObjectType, Seq<Point>>, p: Point) -> bool {
    mask.dom().contains(ObjectType::Eat) && mask[ObjectType::Eat].contains(p)
}

/// Whether the border layer of `mask` occupies `p`.
pub open spec fn border_at(mask: Map<ObjectType, Seq<Point>>, p: Point) -> bool {
    mask.dom().contains(ObjectType::Border) && mask[ObjectType::Border].contains(p)
}

/// Whether the head value recurs later in the same body: a self-bite.
pub open spec fn self_hit(state: SnakeView) -> bool {
    exists|j: int| 1 <= j < state.body.len() && #[trigger] state.body[j] == state.body[0]
}

/// Whether some other agent's layer occupies the point `p`.
pub open spec fn other_snake_at(
    mask: Map<ObjectType, Seq<Point>>,
    me: usize,
    other: usize,
    p: Point,
) -> bool {
    &&& other != me
    &&& mask.dom().contains(ObjectType::Snake(other))
    &&& mask[ObjectType::Snake(other)].contains(p)
}

/// Whether a direction recorded at the agent's post-move head cell is the
/// exact reverse of its own committed direction: the lethal same-tick
/// crossing of two heads that never share a cell.
pub open spec fn head_swap_hit(vv: Seq<(Point, Seq<Direction>)>, state: SnakeView) -> bool {
    exists|d: Direction| #[trigger] vector_recorded(vv, state.body[0], d)
        && state.dir == Some(d.spec_reverse())
}

/// Every way the detection pass can mark the agent at position `i` for
/// removal: a head swap; a self-bite when tails are not cut; any cross-agent
/// overlap when tails are not cut; a mutual head-on meeting when they are;
/// food under a non-head segment; or any body point on the border.
pub open spec fn marked_for_removal(
    agents: Seq<(usize, SnakeView)>,
    mask: Map<ObjectType, Seq<Point>>,
    vv: Seq<(Point, Seq<Direction>)>,
    cut: bool,
    i: int,
) -> bool {
    let id = agents[i].0;
    let body = agents[i].1.body;
    let head = body[0];
    ||| head_swap_hit(vv, agents[i].1)
    ||| (!cut && self_hit(agents[i].1))
    ||| (!cut && exists|o: usize, j: int|
        0 <= j < body.len() && #[trigger] other_snake_at(mask, id, o, body[j]))
    ||| (cut && exists|o: usize| #[trigger] other_snake_at(mask, id, o, head)
        && mask[ObjectType::Snake(o)].len() >= 1
        && mask[ObjectType::Snake(o)][0] == head)
    ||| (exists|j: int| 0 <= j < body.len()
        && eat_at(mask, #[trigger] body[j]) && body[j] != head)
    ||| (exists|j: int| 0 <= j < body.len() && border_at(mask, #[trigger] body[j]))
}

/// Whether the agent's head rests on food.
pub open spec fn eats_food(mask: Map<ObjectType, Seq<Point>>, state: SnakeView) -> bool {
    eat_at(mask, state.body[0])
}

/// A lawful victim of a tail bite by the agent at position `i`: the agent
/// itself when its head recurs in its own body, or another agent whose
/// non-head body holds the biter's head.
pub open spec fn bite_victim_ok(
    agents: Seq<(usize, SnakeView)>,
    mask: Map<ObjectType, Seq<Point>>,
    i: int,
    v: usize,
) -> bool {
    let id = agents[i].0;
    let head = agents[i].1.body[0];
    ||| (v == id && self_hit(agents[i].1))
    ||| (v != id && mask.dom().contains(ObjectType::Snake(v))
        && mask[ObjectType::Snake(v)].contains(head)
        && mask[ObjectType::Snake(v)].len() >= 1
        && mask[ObjectType::Snake(v)][0] != head)
}

/// Whether the agent at position `i` bites some tail this tick.
pub open spec fn bites_someone(
    agents: Seq<(usize, SnakeView)>,
    mask: Map<ObjectType, Seq<Point>>,
    i: int,
) -> bool {
    exists|v: usize| #[trigger] bite_victim_ok(agents, mask, i, v)
}

/// Distinct keys in the eaten-food record.
pub open spec fn ekeys_unique(s: Seq<(usize, Point)>) -> bool {
    forall|i: int, j: int| 0 <= i < j < s.len() ==> (#[trigger] s[i]).0 != (#[trigger] s[j]).0
}

/// Whether the eaten-food record holds an entry for the agent `id`.
pub open spec fn ehas(s: Seq<(usize, Point)>, id: usize) -> bool {
    exists|i: int| 0 <= i < s.len() && (#[trigger] s[i]).0 == id
}

/// The food point recorded for the agent `id`.
pub open spec fn eat_point_of(s: Seq<(usize, Point)>, id: usize) -> Point {
    s[choose|i: int| 0 <= i < s.len() && (#[trigger] s[i]).0 == id].1
}

/// Distinct keys in the tail-bite record.
pub open spec fn bkeys_unique(s: Seq<(usize, (usize, Point))>) -> bool {
    forall|i: int, j: int| 0 <= i < j < s.len() ==> (#[trigger] s[i]).0 != (#[trigger] s[j]).0
}

/// Whether the tail-bite record holds an entry for the biter `id`.
pub open spec fn bhas(s: Seq<(usize, (usize, Point))>, id: usize) -> bool {
    exists|i: int| 0 <= i < s.len() && (#[trigger] s[i]).0 == id
}

/// The victim and bite point recorded for the biter `id`.
pub open spec fn bite_of(s: Seq<(usize, (usize, Point))>, id: usize) -> (usize, Point) {
    s[choose|i: int| 0 <= i < s.len() && (#[trigger] s[i]).0 == id].1
}

/// Adds `id` to a duplicate-free set of ids.
#[verifier::loop_isolation(false)]
fn push_unique_id(v: &mut Vec<usize>, id: usize)
    requires
        old(v)@.no_duplicates(),
    ensures
        final(v)@.no_duplicates(),
        forall|x: usize| #[trigger] final(v)@.contains(x) <==> old(v)@.contains(x) || x == id,
{
    let ghost v0 = v@;
    let mut i: usize = 0;
    while i < v.len()
        invariant
            0 <= i <= v@.len(),
            v@ == v0,
            forall|j: int| 0 <= j < i ==> v0[j] != id,
        decreases v@.len() - i,
    {
        if v[i] == id {
            proof {
                assert(v0[i as int] == id);
                assert(v0.contains(id));
            }
            return;
        }
        i = i + 1;
    }
    v.push(id);
    proof {
        assert(v@[v@.len() - 1] == id);
        assert forall|x: usize| #[trigger] v@.contains(x)
            implies v0.contains(x) || x == id by {
            let j = choose|j: int| 0 <= j < v@.len() && v@[j] == x;
            if j < v0.len() {
                assert(v0[j] == x);
            }
        }
        assert forall|x: usize| v0.contains(x) implies #[trigger] v@.contains(x) by {
            let j = choose|j: int| 0 <= j < v0.len() && v0[j] == x;
            assert(v@[j] == x);
        }
        assert forall|a: int, b: int| 0 <= a < b < v@.len()
            implies v@[a] != v@[b] by {
            if b == v@.len() - 1 {
                assert(v0[a] == v@[a]);
            } else {
                assert(v0[a] == v@[a] && v0[b] == v@[b]);
            }
        }
    }
}

/// Records (or overwrites) the food point eaten by agent `id`.
#[verifier::loop_isolation(false)]
fn upsert_eat(v: &mut Vec<(usize, Point)>, id: usize, p: Point)
    requires
        ekeys_unique(old(v)@),
    ensures
        ekeys_unique(final(v)@),
        forall|x: usize| #[trigger] ehas(final(v)@, x) <==> ehas(old(v)@, x) || x == id,
        forall|x: usize| x != id && ehas(old(v)@, x)
            ==> #[trigger] eat_point_of(final(v)@, x) == eat_point_of(old(v)@, x),
        eat_point_of(final(v)@, id) == p,
{
    let ghost v0 = v@;
    let mut i: usize = 0;
    let n = v.len();
    while i < n
        invariant
            0 <= i <= n,
            n == v@.len(),
            v@ == v0,
            forall|j: int| 0 <= j < i ==> (#[trigger] v0[j]).0 != id,
        decreases n - i,
    {
        if v[i].0 == id {
            proof {
                assert(v0[i as int].0 == id);
            }
            let _ = v.remove(i);
            v.insert(i, (id, p));
            proof {
                assert(v@.len() == v0.len());
                assert forall|j: int| 0 <= j < v@.len() && j != i
                    implies #[trigger] v@[j] == v0[j] by {
                }
                assert(v@[i as int] == (id, p));
                assert forall|x: usize| #[trigger] ehas(v@, x) implies ehas(v0, x) by {
                    let j = choose|j: int| 0 <= j < v@.len() && (#[trigger] v@[j]).0 == x;
                    assert(v0[j].0 == x);
                }
                assert forall|x: usize| ehas(v0, x) implies #[trigger] ehas(v@, x) by {
                    let j = choose|j: int| 0 <= j < v0.len() && (#[trigger] v0[j]).0 == x;
                    if j == i {
                        assert(v@[j].0 == id);
                    } else {
                        assert(v@[j].0 == x);
                    }
                }
                assert(ehas(v@, id)) by {
                    assert(v@[i as int].0 == id);
                }
                assert forall|a: int, b: int| 0 <= a < b < v@.len()
                    implies (#[trigger] v@[a]).0 != (#[trigger] v@[b]).0 by {
                    assert(v@[a].0 == v0[a].0);
                    assert(v@[b].0 == v0[b].0);
                }
                assert forall|x: usize| x != id && ehas(v0, x)
                    implies #[trigger] eat_point_of(v@, x) == eat_point_of(v0, x) by {
                    let j0 = choose|j0: int| 0 <= j0 < v0.len() && (#[trigger] v0[j0]).0 == x;
                    assert(j0 != i);
                    assert(v@[j0].0 == x);
                    let j = choose|j: int| 0 <= j < v@.len() && (#[trigger] v@[j]).0 == x;
                    assert(j == j0);
                    assert(v@[j0] == v0[j0]);
                }
                assert(eat_point_of(v@, id) == p) by {
                    let j = choose|j: int| 0 <= j < v@.len() && (#[trigger] v@[j]).0 == id;
                    assert(j == i);
                }
            }
            return;
        }
        i = i + 1;
    }
    v.push((id, p));
    proof {
        assert(v@[v@.len() - 1] == (id, p));
        assert forall|x: usize| #[trigger] ehas(v@, x) implies ehas(v0, x) || x == id by {
            let j = choose|j: int| 0 <= j < v@.len() && (#[trigger] v@[j]).0 == x;
            if j < v0.len() {
                assert(v0[j].0 == x);
            }
        }
        assert forall|x: usize| ehas(v0, x) implies #[trigger] ehas(v@, x) by {
            let j = choose|j: int| 0 <= j < v0.len() && (#[trigger] v0[j]).0 == x;
            assert(v@[j].0 == x);
        }
        assert(ehas(v@, id)) by {
            assert(v@[v@.len() - 1].0 == id);
        }
        assert forall|a: int, b: int| 0 <= a < b < v@.len()
            implies (#[trigger] v@[a]).0 != (#[trigger] v@[b]).0 by {
            if b == v@.len() - 1 {
                assert(v0[a] == v@[a]);
            } else {
                assert(v0[a] == v@[a] && v0[b] == v@[b]);
            }
        }
        assert forall|x: usize| x != id && ehas(v0, x)
            implies #[trigger] eat_point_of(v@, x) == eat_point_of(v0, x) by {
            let j0 = choose|j0: int| 0 <= j0 < v0.len() && (#[trigger] v0[j0]).0 == x;
            assert(v@[j0].0 == x);
            let j = choose|j: int| 0 <= j < v@.len() && (#[trigger] v@[j]).0 == x;
            assert(v@[v@.len() - 1].0 == id);
            assert(j < v0.len() && j0 < v0.len());
            assert(j == j0);
            assert(v0[j0] == v@[j0]);
        }
        assert(eat_point_of(v@, id) == p) by {
            let j = choose|j: int| 0 <= j < v@.len() && (#[trigger] v@[j]).0 == id;
            assert(j == v@.len() - 1);
        }
    }
}

/// Records (or overwrites) the bite attributed to the biter `id`.
#[verifier::loop_isolation(false)]
fn upsert_bite(v: &mut Vec<(usize, (usize, Point))>, id: usize, victim: usize, p: Point)
    requires
        bkeys_unique(old(v)@),
    ensures
        bkeys_unique(final(v)@),
        forall|x: usize| #[trigger] bhas(final(v)@, x) <==> bhas(old(v)@, x) || x == id,
        forall|x: usize| x != id && bhas(old(v)@, x)
            ==> #[trigger] bite_of(final(v)@, x) == bite_of(old(v)@, x),
        bite_of(final(v)@, id) == (victim, p),
{
    let ghost v0 = v@;
    let mut i: usize = 0;
    let n = v.len();
    while i < n
        invariant
            0 <= i <= n,
            n == v@.len(),
            v@ == v0,
            forall|j: int| 0 <= j < i ==> (#[trigger] v0[j]).0 != id,
        decreases n - i,
    {
        if v[i].0 == id {
            proof {
                assert(v0[i as int].0 == id);
            }
            let _ = v.remove(i);
            v.insert(i, (id, (victim, p)));
            proof {
                assert(v@.len() == v0.len());
                assert forall|j: int| 0 <= j < v@.len() && j != i
                    implies #[trigger] v@[j] == v0[j] by {
                }
                assert(v@[i as int] == (id, (victim, p)));
                assert forall|x: usize| #[trigger] bhas(v@, x) implies bhas(v0, x) by {
                    let j = choose|j: int| 0 <= j < v@.len() && (#[trigger] v@[j]).0 == x;
                    assert(v0[j].0 == x);
                }
                assert forall|x: usize| bhas(v0, x) implies #[trigger] bhas(v@, x) by {
                    let j = choose|j: int| 0 <= j < v0.len() && (#[trigger] v0[j]).0 == x;
                    if j == i {
                        assert(v@[j].0 == id);
                    } else {
                        assert(v@[j].0 == x);
                    }
                }
                assert(bhas(v@, id)) by {
                    assert(v@[i as int].0 == id);
                }
                assert forall|a: int, b: int| 0 <= a < b < v@.len()
                    implies (#[trigger] v@[a]).0 != (#[trigger] v@[b]).0 by {
                    assert(v@[a].0 == v0[a].0);
                    assert(v@[b].0 == v0[b].0);
                }
                assert forall|x: usize| x != id && bhas(v0, x)
                    implies #[trigger] bite_of(v@, x) == bite_of(v0, x) by {
                    let j0 = choose|j0: int| 0 <= j0 < v0.len() && (#[trigger] v0[j0]).0 == x;
                    assert(j0 != i);
                    assert(v@[j0].0 == x);
                    let j = choose|j: int| 0 <= j < v@.len() && (#[trigger] v@[j]).0 == x;
                    assert(j == j0);
                    assert(v@[j0] == v0[j0]);
                }
                assert(bite_of(v@, id) == (victim, p)) by {
                    let j = choose|j: int| 0 <= j < v@.len() && (#[trigger] v@[j]).0 == id;
                    assert(j == i);
                }
            }
            return;
        }
        i = i + 1;
    }
    v.push((id, (victim, p)));
    proof {
        assert(v@[v@.len() - 1] == (id, (victim, p)));
        assert forall|x: usize| #[trigger] bhas(v@, x) implies bhas(v0, x) || x == id by {
            let j = choose|j: int| 0 <= j < v@.len() && (#[trigger] v@[j]).0 == x;
            if j < v0.len() {
                assert(v0[j].0 == x);
            }
        }
        assert forall|x: usize| bhas(v0, x) implies #[trigger] bhas(v@, x) by {
            let j = choose|j: int| 0 <= j < v0.len() && (#[trigger] v0[j]).0 == x;
            assert(v@[j].0 == x);
        }
        assert(bhas(v@, id)) by {
            assert(v@[v@.len() - 1].0 == id);
        }
        assert forall|a: int, b: int| 0 <= a < b < v@.len()
            implies (#[trigger] v@[a]).0 != (#[trigger] v@[b]).0 by {
            if b == v@.len() - 1 {
                assert(v0[a] == v@[a]);
            } else {
                assert(v0[a] == v@[a] && v0[b] == v@[b]);
            }
        }
        assert forall|x: usize| x != id && bhas(v0, x)
            implies #[trigger] bite_of(v@, x) == bite_of(v0, x) by {
            let j0 = choose|j0: int| 0 <= j0 < v0.len() && (#[trigger] v0[j0]).0 == x;
            assert(v@[j0].0 == x);
            let j = choose|j: int| 0 <= j < v@.len() && (#[trigger] v@[j]).0 == x;
            assert(v@[v@.len() - 1].0 == id);
            assert(j < v0.len() && j0 < v0.len());
            assert(j == j0);
            assert(v0[j0] == v@[j0]);
        }
        assert(bite_of(v@, id) == (victim, p)) by {
            let j = choose|j: int| 0 <= j < v@.len() && (#[trigger] v@[j]).0 == id;
            assert(j == v@.len() - 1);
        }
    }
}

/// Whether some direction recorded at `head` is the reverse of `dir`.
#[verifier::loop_isolation(false)]
fn head_swap_check(
    vectors: &Vec<(Point, Vec<Direction>)>,
    head: Point,
    dir: Option<Direction>,
) -> (r: bool)
    requires
        vkeys_unique(vectors_view(vectors@)),
    ensures
        r == exists|d: Direction|
            #[trigger] vector_recorded(vectors_view(vectors@), head, d)
                && dir == Some(d.spec_reverse()),
{
    let ghost vv = vectors_view(vectors@);
    let mut i: usize = 0;
    let n = vectors.len();
    while i < n
        invariant
            0 <= i <= n,
            n == vv.len(),
            vectors_view(vectors@) == vv,
            forall|j: int| 0 <= j < i ==> (#[trigger] vv[j]).0 != head,
        decreases n - i,
    {
        if vectors[i].0 == head {
            proof {
                assert(vv[i as int].0 == head);
                assert(vhas(vv, head));
                let w = choose|w: int| 0 <= w < vv.len() && (#[trigger] vv[w]).0 == head;
                assert(w == i);
                assert(vdirs(vv, head) == vv[i as int].1);
            }
            let dirs = &vectors[i].1;
            let mut k: usize = 0;
            while k < dirs.len()
                invariant
                    0 <= k <= dirs@.len(),
                    dirs@ == vv[i as int].1,
                    vdirs(vv, head) == dirs@,
                    vhas(vv, head),
                    forall|x: int| 0 <= x < k
                        ==> dir != Some((#[trigger] dirs@[x]).spec_reverse()),
                decreases dirs@.len() - k,
            {
                let d = dirs[k];
                let matched = match dir {
                    Some(cd) => d.reverse() == cd,
                    None => false,
                };
                if matched {
                    proof {
                        assert(dirs@[k as int] == d);
                        assert(vdirs(vv, head).contains(d));
                        assert(vector_recorded(vv, head, d));
                    }
                    return true;
                }
                k = k + 1;
            }
            proof {
                assert forall|d: Direction|
                    #[trigger] vector_recorded(vv, head, d)
                        implies dir != Some(d.spec_reverse()) by {
                    let x = choose|x: int| 0 <= x < dirs@.len() && dirs@[x] == d;
                }
            }
            return false;
        }
        i = i + 1;
    }
    proof {
        assert forall|d: Direction| #[trigger] vector_recorded(vv, head, d)
            implies false by {
            let w = choose|w: int| 0 <= w < vv.len() && (#[trigger] vv[w]).0 == head;
        }
    }
    false
}

/// Whether the head value recurs at a later position of `body`.
#[verifier::loop_isolation(false)]
fn body_self_hit(body: &Vec<Point>) -> (r: bool)
    requires
        body@.len() >= 1,
    ensures
        r == exists|j: int| 1 <= j < body@.len() && #[trigger] body@[j] == body@[0],
{
    let head = body[0];
    let mut j: usize = 1;
    while j < body.len()
        invariant
            1 <= j <= body@.len(),
            head == body@[0],
            forall|x: int| 1 <= x < j ==> #[trigger] body@[x] != head,
        decreases body@.len() - j,
    {
        if body[j] == head {
            proof {
                assert(body@[j as int] == body@[0]);
            }
            return true;
        }
        j = j + 1;
    }
    false
}

/// Whether any point of `points` also stands in `within`.
#[verifier::loop_isolation(false)]
fn any_in(points: &Vec<Point>, within: &Vec<Point>) -> (r: bool)
    ensures
        r == exists|j: int| 0 <= j < points@.len() && within@.contains(#[trigger] points@[j]),
{
    let mut j: usize = 0;
    while j < points.len()
        invariant
            0 <= j <= points@.len(),
            forall|x: int| 0 <= x < j ==> !within@.contains(#[trigger] points@[x]),
        decreases points@.len() - j,
    {
        if spatial::vec_contains_point(within, points[j]) {
            return true;
        }
        j = j + 1;
    }
    false
}

/// Whether any non-head point of `body` stands in `within` (comparison is by
/// value: a later segment that happens to carry the head's value is a head).
#[verifier::loop_isolation(false)]
fn any_nonhead_in(body: &Vec<Point>, within: &Vec<Point>) -> (r: bool)
    requires
        body@.len() >= 1,
    ensures
        r == exists|j: int| 0 <= j < body@.len()
            && within@.contains(#[trigger] body@[j]) && body@[j] != body@[0],
{
    let head = body[0];
    let mut j: usize = 0;
    while j < body.len()
        invariant
            0 <= j <= body@.len(),
            head == body@[0],
            forall|x: int| 0 <= x < j
                ==> !within@.contains(#[trigger] body@[x]) || body@[x] == head,
        decreases body@.len() - j,
    {
        if !(body[j] == head) && spatial::vec_contains_point(within, body[j]) {
            proof {
                assert(within@.contains(body@[j as int]) && body@[j as int] != body@[0]);
            }
            return true;
        }
        j = j + 1;
    }
    false
}

/// Everything one read-only detection pass over the moved registry `m`
/// finds, as seen through the index `mask`: the ids marked for removal (with
/// exactly the causes of `marked_for_removal`), who ate food at its head
/// cell, and who bit whose tail where.
pub open spec fn detect_findings(
    m: Seq<(usize, SnakeView)>,
    mask: Map<ObjectType, Seq<Point>>,
    vv: Seq<(Point, Seq<Direction>)>,
    cut: bool,
    rem: Seq<usize>,
    eats: Seq<(usize, Point)>,
    bites: Seq<(usize, (usize, Point))>,
) -> bool {
    &&& rem.no_duplicates()
    &&& forall|id: usize| #[trigger] rem.contains(id)
        <==> exists|i: int| 0 <= i < m.len() && (#[trigger] m[i]).0 == id
            && marked_for_removal(m, mask, vv, cut, i)
    &&& ekeys_unique(eats)
    &&& forall|id: usize| #[trigger] ehas(eats, id)
        <==> exists|i: int| 0 <= i < m.len() && (#[trigger] m[i]).0 == id
            && eats_food(mask, m[i].1)
    &&& forall|id: usize| #[trigger] ehas(eats, id)
        ==> eat_point_of(eats, id) == state_of(m, id).body[0]
    &&& bkeys_unique(bites)
    &&& forall|id: usize| #[trigger] bhas(bites, id)
        <==> cut && exists|i: int| 0 <= i < m.len() && (#[trigger] m[i]).0 == id
            && bites_someone(m, mask, i)
    &&& forall|id: usize| #[trigger] bhas(bites, id)
        ==> bite_of(bites, id).1 == state_of(m, id).body[0]
            && bite_victim_ok(m, mask, index_of_id(m, id), bite_of(bites, id).0)
}

/// What one read-only detection pass found: the agents to remove, who ate
/// food at which point, and who bit whose tail at which point.
pub struct SnakesInteractionsDetectResult {
    pub snakes_to_remove: Vec<usize>,
    pub snakes_that_ate_food: Vec<(usize, Point)>,
    pub snakes_that_bit_tail: Vec<(usize, (usize, Point))>,
}

impl<C: SnakeController> World<C> {
    /// One read-only scan over all agents against the already-updated world:
    /// marks head swaps, self-bites, cross-agent overlaps, food under a
    /// non-head segment and border touches for removal, and records food
    /// eaten by heads and tail bites, before anything is mutated.
    #[verifier::loop_isolation(false)]
    pub fn snakes_interactions_detect(
        &self,
        points_move_vectors: &Vec<(Point, Vec<Direction>)>,
    ) -> (r: SnakesInteractionsDetectResult)
        requires
            self.wf_core(),
            vkeys_unique(vectors_view(points_move_vectors@)),
        ensures
            detect_findings(
                self.agents(),
                self.mask(),
                vectors_view(points_move_vectors@),
                self.cut_tails(),
                r.snakes_to_remove@,
                r.snakes_that_ate_food@,
                r.snakes_that_bit_tail@,
            ),
    {
        let ghost agents = self.agents();
        let ghost mask = self.mask();
        let ghost vv = vectors_view(points_move_vectors@);
        let ghost cut_g = self.cut_tails();
        proof {
            assert forall|p: Point| self.border().contains(p) == #[trigger] border_at(mask, p) by {
                if self.border().contains(p) {
                    assert(self.border().len() > 0);
                }
            }
            assert forall|p: Point| self.eat().contains(p) == #[trigger] eat_at(mask, p) by {
                if self.eat().contains(p) {
                    assert(self.eat().len() > 0);
                }
            }
        }
        let mut snakes_to_remove: Vec<usize> = Vec::new();
        let mut snakes_that_ate_food: Vec<(usize, Point)> = Vec::new();
        let mut snakes_that_bit_tail: Vec<(usize, (usize, Point))> = Vec::new();
        let cut = self.config.cut_tails;
        let n = self.snakes_info.len();
        let mut i: usize = 0;
        while i < n
            invariant
                0 <= i <= n,
                n == agents.len(),
                snakes_to_remove@.no_duplicates(),
                forall|id: usize| #[trigger] snakes_to_remove@.contains(id)
                    <==> exists|i2: int| 0 <= i2 < i && (#[trigger] agents[i2]).0 == id
                        && marked_for_removal(agents, mask, vv, cut_g, i2),
                ekeys_unique(snakes_that_ate_food@),
                forall|id: usize| #[trigger] ehas(snakes_that_ate_food@, id)
                    <==> exists|i2: int| 0 <= i2 < i && (#[trigger] agents[i2]).0 == id
                        && eats_food(mask, agents[i2].1),
                forall|id: usize| #[trigger] ehas(snakes_that_ate_food@, id)
                    ==> eat_point_of(snakes_that_ate_food@, id)
                        == state_of(agents, id).body[0],
                bkeys_unique(snakes_that_bit_tail@),
                forall|id: usize| #[trigger] bhas(snakes_that_bit_tail@, id)
                    <==> cut_g && exists|i2: int| 0 <= i2 < i
                        && (#[trigger] agents[i2]).0 == id
                        && bites_someone(agents, mask, i2),
                forall|id: usize| #[trigger] bhas(snakes_that_bit_tail@, id)
                    ==> bite_of(snakes_that_bit_tail@, id).1
                            == state_of(agents, id).body[0]
                        && bite_victim_ok(
                            agents,
                            mask,
                            index_of_id(agents, id),
                            bite_of(snakes_that_bit_tail@, id).0,
                        ),
            decreases n - i,
        {
            let id = self.snakes_info[i].0;
            let body = self.snakes_info[i].1.get_snake().body_parts_points(true);
            proof {
                assert(agents[i as int] == (id, self.snakes_info@[i as int].1@));
                assert(body@ == agents[i as int].1.body);
            }
            let head = body[0];
            let dir = *self.snakes_info[i].1.get_direction();
            let hs = head_swap_check(points_move_vectors, head, dir);
            let sh = body_self_hit(&body);
            let border_hit = any_in(&body, &self.border_points);
            let eat_head = spatial::vec_contains_point(&self.eat_points, head);
            let eat_nonhead = any_nonhead_in(&body, &self.eat_points);
            let mut cross_fatal = false;
            let mut heads_meet = false;
            let mut victim_found = false;
            let mut victim: usize = 0;
            if cut && sh {
                victim_found = true;
                victim = id;
            }
            let mut i2: usize = 0;
            while i2 < n
                invariant
                    0 <= i2 <= n,
                    n == agents.len(),
                    0 <= i < n,
                    id == agents[i as int].0,
                    body@ == agents[i as int].1.body,
                    body@.len() >= 1,
                    head == body@[0],
                    sh == self_hit(agents[i as int].1),
                    !cut_g ==> cross_fatal == exists|i3: int, j: int|
                        0 <= i3 < i2 && i3 != i && 0 <= j < body@.len()
                            && (#[trigger] agents[i3]).1.body.contains(#[trigger] body@[j]),
                    cut_g ==> heads_meet == exists|i3: int| 0 <= i3 < i2 && i3 != i
                        && (#[trigger] agents[i3]).1.body[0] == head,
                    cut == cut_g,
                    victim_found ==> (victim == id && cut && sh)
                        || (exists|i3: int| 0 <= i3 < i2 && i3 != i
                            && (#[trigger] agents[i3]).0 == victim
                            && agents[i3].1.body.contains(head)
                            && agents[i3].1.body[0] != head),
                    cut && !victim_found ==> !sh,
                    cut && !victim_found ==> forall|i3: int|
                        0 <= i3 < i2 && i3 != i
                            ==> !((#[trigger] agents[i3]).1.body.contains(head)
                                && agents[i3].1.body[0] != head),
                decreases n - i2,
            {
                let ghost cf0 = cross_fatal;
                let ghost hm0 = heads_meet;
                let ghost vf0 = victim_found;
                let ghost seen_other = i2 != i;
                let ghost i2g = i2 as int;
                if i2 != i {
                    let id2 = self.snakes_info[i2].0;
                    let body2 = self.snakes_info[i2].1.get_snake().body_parts_points(true);
                    proof {
                        assert(agents[i2 as int] == (id2, self.snakes_info@[i2 as int].1@));
                        assert(body2@ == agents[i2 as int].1.body);
                    }
                    if cut {
                        if body2[0] == head {
                            heads_meet = true;
                            proof {
                                assert(agents[i2g].1.body[0] == head);
                            }
                        } else if spatial::vec_contains_point(&body2, head) {
                            victim_found = true;
                            victim = id2;
                            proof {
                                assert(agents[i2g].1.body.contains(head)
                                    && agents[i2g].1.body[0] != head);
                            }
                        }
                    } else {
                        if any_in(&body, &body2) {
                            cross_fatal = true;
                            proof {
                                let j = choose|j: int|
                                    0 <= j < body@.len()
                                        && body2@.contains(#[trigger] body@[j]);
                                assert(agents[i2g].1.body.contains(body@[j]));
                            }
                        }
                    }
                }
                i2 = i2 + 1;
                proof {
                    if !cut_g {
                        assert(cross_fatal == exists|i3: int, j: int|
                            0 <= i3 < i2 && i3 != i && 0 <= j < body@.len()
                                && (#[trigger] agents[i3]).1.body.contains(
                                    #[trigger] body@[j],
                                )) by {
                            if !cross_fatal {
                                if exists|i3: int, j: int|
                                    0 <= i3 < i2 && i3 != i && 0 <= j < body@.len()
                                        && (#[trigger] agents[i3]).1.body.contains(
                                            #[trigger] body@[j],
                                        ) {
                                    let (i3, j) = choose|i3: int, j: int|
                                        0 <= i3 < i2 && i3 != i && 0 <= j < body@.len()
                                            && (#[trigger] agents[i3]).1.body.contains(
                                                #[trigger] body@[j],
                                            );
                                    assert(i3 < i2g);
                                }
                            }
                        }
                    }
                    if cut_g {
                        assert(heads_meet == exists|i3: int| 0 <= i3 < i2 && i3 != i
                            && (#[trigger] agents[i3]).1.body[0] == head) by {
                            if !heads_meet {
                                if exists|i3: int| 0 <= i3 < i2 && i3 != i
                                    && (#[trigger] agents[i3]).1.body[0] == head {
                                    let i3 = choose|i3: int| 0 <= i3 < i2 && i3 != i
                                        && (#[trigger] agents[i3]).1.body[0] == head;
                                    assert(i3 < i2g);
                                }
                            }
                        }
                        if !victim_found {
                            assert forall|i3: int| 0 <= i3 < i2 && i3 != i
                                implies !((#[trigger] agents[i3]).1.body.contains(head)
                                    && agents[i3].1.body[0] != head) by {
                                if i3 < i2g {
                                } else {
                                    assert(i3 == i2g && seen_other);
                                    assert(!hm0 ==> heads_meet
                                        == (agents[i2g].1.body[0] == head));
                                }
                            }
                        }
                    }
                }
            }
            let mut mark = hs;
            if !cut && sh {
                mark = true;
            }
            if border_hit || eat_nonhead {
                mark = true;
            }
            if !cut && cross_fatal {
                mark = true;
            }
            if cut && heads_meet {
                mark = true;
            }
            proof {
                let ia = i as int;
                assert(hs == head_swap_hit(vv, agents[ia].1));
                assert((!cut_g && cross_fatal) == (!cut_g && exists|o: usize, j: int|
                    0 <= j < agents[ia].1.body.len()
                        && #[trigger] other_snake_at(mask, id, o, agents[ia].1.body[j]))) by {
                    if !cut_g {
                        if cross_fatal {
                            let (i3, j) = choose|i3: int, j: int|
                                0 <= i3 < n && i3 != ia && 0 <= j < body@.len()
                                    && (#[trigger] agents[i3]).1.body.contains(
                                        #[trigger] body@[j],
                                    );
                            let o = agents[i3].0;
                            assert(o != id);
                            assert(has_id(agents, o)) by {
                                assert(agents[i3].0 == o);
                            }
                            assert(mask.dom().contains(ObjectType::Snake(o)));
                            assert(mask[ObjectType::Snake(o)] == agents[i3].1.body);
                            assert(other_snake_at(mask, id, o, agents[ia].1.body[j]));
                        }
                        if exists|o: usize, j: int|
                            0 <= j < agents[ia].1.body.len()
                                && #[trigger] other_snake_at(mask, id, o, agents[ia].1.body[j]) {
                            let (o, j) = choose|o: usize, j: int|
                                0 <= j < agents[ia].1.body.len()
                                    && #[trigger] other_snake_at(
                                        mask,
                                        id,
                                        o,
                                        agents[ia].1.body[j],
                                    );
                            assert(has_id(agents, o));
                            let i3 = choose|i3: int|
                                0 <= i3 < agents.len() && (#[trigger] agents[i3]).0 == o;
                            assert(i3 != ia);
                            assert(mask[ObjectType::Snake(o)] == agents[i3].1.body);
                            assert(agents[i3].1.body.contains(body@[j]));
                        }
                    }
                }
                assert((cut_g && heads_meet) == (cut_g && exists|o: usize|
                    #[trigger] other_snake_at(mask, id, o, agents[ia].1.body[0])
                        && mask[ObjectType::Snake(o)].len() >= 1
                        && mask[ObjectType::Snake(o)][0] == agents[ia].1.body[0])) by {
                    if cut_g {
                        if heads_meet {
                            let i3 = choose|i3: int| 0 <= i3 < n && i3 != ia
                                && (#[trigger] agents[i3]).1.body[0] == head;
                            let o = agents[i3].0;
                            assert(o != id);
                            assert(has_id(agents, o)) by {
                                assert(agents[i3].0 == o);
                            }
                            assert(mask[ObjectType::Snake(o)] == agents[i3].1.body);
                            assert(agents[i3].1.body.contains(head)) by {
                                assert(agents[i3].1.body[0] == head);
                            }
                            assert(other_snake_at(mask, id, o, agents[ia].1.body[0]));
                        }
                        if exists|o: usize|
                            #[trigger] other_snake_at(mask, id, o, agents[ia].1.body[0])
                                && mask[ObjectType::Snake(o)].len() >= 1
                                && mask[ObjectType::Snake(o)][0] == agents[ia].1.body[0] {
                            let o = choose|o: usize|
                                #[trigger] other_snake_at(mask, id, o, agents[ia].1.body[0])
                                    && mask[ObjectType::Snake(o)].len() >= 1
                                    && mask[ObjectType::Snake(o)][0]
                                        == agents[ia].1.body[0];
                            assert(has_id(agents, o));
                            let i3 = choose|i3: int|
                                0 <= i3 < agents.len() && (#[trigger] agents[i3]).0 == o;
                            assert(i3 != ia);
                            assert(agents[i3].1.body[0] == head);
                        }
                    }
                }
                assert(border_hit == (exists|j: int| 0 <= j < agents[ia].1.body.len()
                    && border_at(mask, #[trigger] agents[ia].1.body[j]))) by {
                    if border_hit {
                        let j = choose|j: int|
                            0 <= j < body@.len()
                                && self.border().contains(#[trigger] body@[j]);
                        assert(border_at(mask, agents[ia].1.body[j]));
                    }
                    if exists|j: int| 0 <= j < agents[ia].1.body.len()
                        && border_at(mask, #[trigger] agents[ia].1.body[j]) {
                        let j = choose|j: int| 0 <= j < agents[ia].1.body.len()
                            && border_at(mask, #[trigger] agents[ia].1.body[j]);
                        assert(self.border().contains(body@[j]));
                    }
                }
                assert(eat_nonhead == (exists|j: int| 0 <= j < agents[ia].1.body.len()
                    && eat_at(mask, #[trigger] agents[ia].1.body[j])
                    && agents[ia].1.body[j] != agents[ia].1.body[0])) by {
                    if eat_nonhead {
                        let j = choose|j: int|
                            0 <= j < body@.len()
                                && self.eat().contains(#[trigger] body@[j])
                                && body@[j] != body@[0];
                        assert(eat_at(mask, agents[ia].1.body[j]));
                    }
                    if exists|j: int| 0 <= j < agents[ia].1.body.len()
                        && eat_at(mask, #[trigger] agents[ia].1.body[j])
                        && agents[ia].1.body[j] != agents[ia].1.body[0] {
                        let j = choose|j: int| 0 <= j < agents[ia].1.body.len()
                            && eat_at(mask, #[trigger] agents[ia].1.body[j])
                            && agents[ia].1.body[j] != agents[ia].1.body[0];
                        assert(self.eat().contains(body@[j]));
                    }
                }
                assert(mark == marked_for_removal(agents, mask, vv, cut_g, ia));
                assert(eat_head == eats_food(mask, agents[ia].1));
                if cut_g {
                    assert(victim_found == bites_someone(agents, mask, ia)) by {
                        if victim_found {
                            assert(bite_victim_ok(agents, mask, ia, victim));
                        }
                        if bites_someone(agents, mask, ia) {
                            let v = choose|v: usize|
                                #[trigger] bite_victim_ok(agents, mask, ia, v);
                            if v == id {
                                assert(sh);
                            } else {
                                assert(has_id(agents, v));
                                let i3 = choose|i3: int|
                                    0 <= i3 < agents.len()
                                        && (#[trigger] agents[i3]).0 == v;
                                assert(i3 != ia);
                                assert(mask[ObjectType::Snake(v)] == agents[i3].1.body);
                                assert(agents[i3].1.body.contains(head)
                                    && agents[i3].1.body[0] != head);
                            }
                        }
                    }
                    if victim_found {
                        assert(bite_victim_ok(agents, mask, ia, victim));
                    }
                }
            }
            let ghost rem0 = snakes_to_remove@;
            let ghost ate0 = snakes_that_ate_food@;
            let ghost bit0 = snakes_that_bit_tail@;
            if mark {
                push_unique_id(&mut snakes_to_remove, id);
            }
            if eat_head {
                upsert_eat(&mut snakes_that_ate_food, id, head);
            }
            if cut && victim_found {
                upsert_bite(&mut snakes_that_bit_tail, id, victim, head);
            }
            i = i + 1;
            proof {
                let ia = i - 1;
                assert(index_of_id(agents, id) == ia) by {
                    assert(agents[ia].0 == id);
                    let x = choose|x: int|
                        0 <= x < agents.len() && (#[trigger] agents[x]).0 == id;
                }
                assert(state_of(agents, id) == agents[ia].1);
                assert forall|id2: usize| #[trigger] snakes_to_remove@.contains(id2)
                    <==> exists|i2: int| 0 <= i2 < i && (#[trigger] agents[i2]).0 == id2
                        && marked_for_removal(agents, mask, vv, cut_g, i2) by {
                    if snakes_to_remove@.contains(id2) {
                        if mark && id2 == id {
                            assert(agents[ia].0 == id);
                        } else {
                            assert(rem0.contains(id2));
                        }
                    }
                    if exists|i2: int| 0 <= i2 < i && (#[trigger] agents[i2]).0 == id2
                        && marked_for_removal(agents, mask, vv, cut_g, i2) {
                        let i2 = choose|i2: int|
                            0 <= i2 < i && (#[trigger] agents[i2]).0 == id2
                                && marked_for_removal(agents, mask, vv, cut_g, i2);
                        if i2 == ia {
                            assert(mark);
                        } else {
                            assert(rem0.contains(id2));
                        }
                    }
                }
                assert forall|id2: usize| #[trigger] ehas(snakes_that_ate_food@, id2)
                    <==> exists|i2: int| 0 <= i2 < i && (#[trigger] agents[i2]).0 == id2
                        && eats_food(mask, agents[i2].1) by {
                    if ehas(snakes_that_ate_food@, id2) {
                        if eat_head && id2 == id {
                            assert(agents[ia].0 == id);
                        } else {
                            assert(ehas(ate0, id2));
                        }
                    }
                    if exists|i2: int| 0 <= i2 < i && (#[trigger] agents[i2]).0 == id2
                        && eats_food(mask, agents[i2].1) {
                        let i2 = choose|i2: int|
                            0 <= i2 < i && (#[trigger] agents[i2]).0 == id2
                                && eats_food(mask, agents[i2].1);
                        if i2 == ia {
                            assert(eat_head);
                        } else {
                            assert(ehas(ate0, id2));
                        }
                    }
                }
                assert forall|id2: usize| #[trigger] bhas(snakes_that_bit_tail@, id2)
                    <==> cut_g && exists|i2: int| 0 <= i2 < i
                        && (#[trigger] agents[i2]).0 == id2
                        && bites_someone(agents, mask, i2) by {
                    if bhas(snakes_that_bit_tail@, id2) {
                        if cut && victim_found && id2 == id {
                            assert(agents[ia].0 == id);
                        } else {
                            assert(bhas(bit0, id2));
                        }
                    }
                    if cut_g && exists|i2: int| 0 <= i2 < i
                        && (#[trigger] agents[i2]).0 == id2
                        && bites_someone(agents, mask, i2) {
                        let i2 = choose|i2: int|
                            0 <= i2 < i && (#[trigger] agents[i2]).0 == id2
                                && bites_someone(agents, mask, i2);
                        if i2 == ia {
                            assert(victim_found);
                        } else {
                            assert(bhas(bit0, id2));
                        }
                    }
                }
            }
        }
        SnakesInteractionsDetectResult {
            snakes_to_remove,
            snakes_that_ate_food,
            snakes_that_bit_tail,
        }
    }
}

/// The registry after the listed agents are removed: exactly the unlisted
/// agents remain, each with its state untouched.
pub open spec fn removal_outcome(
    pre: Seq<(usize, SnakeView)>,
    rem: Seq<usize>,
    post: Seq<(usize, SnakeView)>,
) -> bool {
    &&& ids_unique(post)
    &&& forall|id: usize| #[trigger] has_id(post, id)
        <==> has_id(pre, id) && !rem.contains(id)
    &&& forall|id: usize| #[trigger] has_id(post, id)
        ==> state_of(post, id) == state_of(pre, id)
}

/// The registry position of the agent with the given id, if it is live.
#[verifier::loop_isolation(false)]
fn find_snake_index(v: &Vec<(usize, SnakeInfo)>, id: usize) -> (r: Option<usize>)
    ensures
        match r {
            Some(i) => i < v@.len() && agents_of(v@)[i as int].0 == id,
            None => !has_id(agents_of(v@), id),
        },
{
    let mut i: usize = 0;
    while i < v.len()
        invariant
            0 <= i <= v@.len(),
            forall|j: int| 0 <= j < i ==> (#[trigger] agents_of(v@)[j]).0 != id,
        decreases v@.len() - i,
    {
        if v[i].0 == id {
            proof {
                assert(agents_of(v@)[i as int].0 == id);
            }
            return Some(i);
        }
        proof {
            assert(agents_of(v@)[i as int].0 == v@[i as int].0);
        }
        i = i + 1;
    }
    proof {
        if has_id(agents_of(v@), id) {
            let j = choose|j: int|
                0 <= j < agents_of(v@).len() && (#[trigger] agents_of(v@)[j]).0 == id;
            assert(false);
        }
    }
    None
}

impl<C: SnakeController> World<C> {
    /// Removes every listed agent: its death hooks are invoked around the
    /// deletion of its registry entry and its layer.
    #[verifier::loop_isolation(false)]
    pub fn handle_snakes_to_remove(&mut self, snakes_to_remove: &Vec<usize>)
        requires
            old(self).wf_core(),
        ensures
            final(self).wf_core(),
            removal_outcome(old(self).agents(), snakes_to_remove@, final(self).agents()),
            forall|k: ObjectType| !(k is Snake)
                ==> (#[trigger] final(self).mask().dom().contains(k)
                        == old(self).mask().dom().contains(k))
                    && (final(self).mask().dom().contains(k)
                        ==> final(self).mask()[k] == old(self).mask()[k]),
            final(self).border() == old(self).border(),
            final(self).eat() == old(self).eat(),
            final(self).same_session(old(self)),
    {
        let n_rm = snakes_to_remove.len();
        let mut k: usize = 0;
        while k < n_rm
            invariant
                0 <= k <= n_rm,
                n_rm == snakes_to_remove@.len(),
                self.wf_core(),
                forall|id: usize| #[trigger] has_id(self.agents(), id)
                    <==> has_id(old(self).agents(), id)
                        && !snakes_to_remove@.subrange(0, k as int).contains(id),
                forall|id: usize| #[trigger] has_id(self.agents(), id)
                    ==> state_of(self.agents(), id) == state_of(old(self).agents(), id),
                forall|k2: ObjectType| !(k2 is Snake)
                    ==> (#[trigger] self.mask().dom().contains(k2)
                            == old(self).mask().dom().contains(k2))
                        && (self.mask().dom().contains(k2)
                            ==> self.mask()[k2] == old(self).mask()[k2]),
                self.border() == old(self).border(),
                self.eat() == old(self).eat(),
                self.same_session(old(self)),
            decreases n_rm - k,
        {
            let rid = snakes_to_remove[k];
            let ghost agents_pre = self.agents();
            let found = find_snake_index(&self.snakes_info, rid);
            match found {
                Some(idx) => {
                    let info_c = self.snakes_info[idx].1.clone();
                    let view = WorldView::new(self);
                    self.call_will_died(rid, &info_c, &view);
                    let _ = self.snakes_info.remove(idx);
                    self.world_mask.remove_layer(&ObjectType::Snake(rid));
                    proof {
                        let cur = self.agents();
                        assert(cur.len() == agents_pre.len() - 1);
                        assert forall|j: int| 0 <= j < cur.len()
                            implies #[trigger] cur[j] == if j < idx {
                                agents_pre[j]
                            } else {
                                agents_pre[j + 1]
                            } by {
                        }
                        assert(ids_unique(cur)) by {
                            assert forall|a: int, b: int| 0 <= a < b < cur.len()
                                implies (#[trigger] cur[a]).0 != (#[trigger] cur[b]).0 by {
                                let a0: int = if a < idx { a } else { a + 1 };
                                let b0: int = if b < idx { b } else { b + 1 };
                                assert(cur[a] == agents_pre[a0]);
                                assert(cur[b] == agents_pre[b0]);
                            }
                        }
                        assert forall|id: usize| #[trigger] has_id(cur, id)
                            <==> (has_id(agents_pre, id) && id != rid) by {
                            if has_id(cur, id) {
                                let j = choose|j: int|
                                    0 <= j < cur.len() && (#[trigger] cur[j]).0 == id;
                                let j0: int = if j < idx { j } else { j + 1 };
                                assert(agents_pre[j0].0 == id);
                                assert(id != rid);
                            }
                            if has_id(agents_pre, id) && id != rid {
                                let j = choose|j: int|
                                    0 <= j < agents_pre.len()
                                        && (#[trigger] agents_pre[j]).0 == id;
                                assert(j != idx);
                                let j1: int = if j < idx { j } else { j - 1 };
                                assert(cur[j1].0 == id);
                            }
                        }
                        assert forall|id: usize| #[trigger] has_id(cur, id)
                            implies state_of(cur, id) == state_of(agents_pre, id) by {
                            let j = choose|j: int|
                                0 <= j < cur.len() && (#[trigger] cur[j]).0 == id;
                            let j0: int = if j < idx { j } else { j + 1 };
                            assert(agents_pre[j0].0 == id);
                            assert(index_of_id(cur, id) == j) by {
                                let x = choose|x: int|
                                    0 <= x < cur.len() && (#[trigger] cur[x]).0 == id;
                            }
                            assert(index_of_id(agents_pre, id) == j0) by {
                                let x = choose|x: int|
                                    0 <= x < agents_pre.len()
                                        && (#[trigger] agents_pre[x]).0 == id;
                                let x1: int = if x < idx { x } else if x == idx {
                                    x
                                } else {
                                    x - 1
                                };
                                if x != idx {
                                    assert(cur[x1].0 == id);
                                    assert(x1 == j);
                                }
                            }
                        }
                        assert forall|id2: usize|
                            #[trigger] self.mask().dom().contains(ObjectType::Snake(id2))
                            implies has_id(cur, id2) by {
                            assert(id2 != rid);
                            assert(has_id(agents_pre, id2));
                        }
                        assert forall|id2: usize| has_id(cur, id2)
                            implies #[trigger] self.mask().dom().contains(
                                ObjectType::Snake(id2),
                            ) by {
                            assert(has_id(agents_pre, id2) && id2 != rid);
                        }
                        assert forall|j: int| 0 <= j < cur.len()
                            implies self.mask()[ObjectType::Snake((#[trigger] cur[j]).0)]
                                == cur[j].1.body by {
                            let j0: int = if j < idx { j } else { j + 1 };
                            assert(cur[j] == agents_pre[j0]);
                            assert(cur[j].0 != rid);
                        }
                    }
                    let view2 = WorldView::new(self);
                    self.call_did_died(rid, &view2);
                }
                None => {
                    proof {
                        assert(!self.mask().dom().contains(ObjectType::Snake(rid)));
                    }
                    let ghost mask_pre = self.mask();
                    self.world_mask.remove_layer(&ObjectType::Snake(rid));
                    proof {
                        assert(self.mask() =~= mask_pre);
                    }
                    if rid < self.config.snakes_controllers.len() {
                        let view2 = WorldView::new(self);
                        self.call_did_died(rid, &view2);
                    }
                }
            }
            k = k + 1;
            proof {
                assert(snakes_to_remove@.subrange(0, k as int)
                    =~= snakes_to_remove@.subrange(0, k - 1).push(rid));
                assert forall|id: usize| #[trigger] has_id(self.agents(), id)
                    <==> has_id(old(self).agents(), id)
                        && !snakes_to_remove@.subrange(0, k as int).contains(id) by {
                    let pre = snakes_to_remove@.subrange(0, k - 1);
                    let full = snakes_to_remove@.subrange(0, k as int);
                    assert forall|id2: usize| #[trigger] full.contains(id2)
                        <==> pre.contains(id2) || id2 == rid by {
                        if full.contains(id2) {
                            let x = choose|x: int|
                                0 <= x < full.len() && full[x] == id2;
                            if x < pre.len() {
                                assert(pre[x] == id2);
                            }
                        }
                        if pre.contains(id2) {
                            let x = choose|x: int| 0 <= x < pre.len() && pre[x] == id2;
                            assert(full[x] == id2);
                        }
                        if id2 == rid {
                            assert(full[full.len() - 1] == id2);
                        }
                    }
                }
            }
        }
        proof {
            assert(snakes_to_remove@.subrange(0, n_rm as int) =~= snakes_to_remove@);
        }
    }
}

/// The registry with the agent `b`'s growth flag armed, if it is live.
pub open spec fn arm_id(s: Seq<(usize, SnakeView)>, b: usize) -> Seq<(usize, SnakeView)> {
    s.map_values(|e: (usize, SnakeView)| if e.0 == b {
        (e.0, SnakeView { body: e.1.body, stomach: true, dir: e.1.dir })
    } else {
        e
    })
}

/// The registry with the agent `v`'s chain cut at `p`, if it is live.
pub open spec fn cut_id(s: Seq<(usize, SnakeView)>, v: usize, p: Point) -> Seq<(usize, SnakeView)> {
    s.map_values(|e: (usize, SnakeView)| if e.0 == v {
        (e.0, SnakeView { body: tail_cut(e.1.body, p), stomach: e.1.stomach, dir: e.1.dir })
    } else {
        e
    })
}

/// One bite resolved: the biter `b` grows on its next move, the victim `v`
/// loses its chain from the first tail node at `p` onwards.
pub open spec fn apply_bite(
    s: Seq<(usize, SnakeView)>,
    b: usize,
    v: usize,
    p: Point,
) -> Seq<(usize, SnakeView)> {
    cut_id(arm_id(s, b), v, p)
}

/// All recorded bites resolved in order; an absent biter or victim is skipped.
pub open spec fn apply_bites(
    s: Seq<(usize, SnakeView)>,
    bites: Seq<(usize, (usize, Point))>,
) -> Seq<(usize, SnakeView)>
    decreases bites.len(),
{
    if bites.len() == 0 {
        s
    } else {
        apply_bites(apply_bite(s, bites[0].0, bites[0].1.0, bites[0].1.1), bites.skip(1))
    }
}

pub proof fn lemma_apply_bites_push(
    s: Seq<(usize, SnakeView)>,
    bites: Seq<(usize, (usize, Point))>,
    e: (usize, (usize, Point)),
)
    ensures
        apply_bites(s, bites.push(e)) == apply_bite(apply_bites(s, bites), e.0, e.1.0, e.1.1),
    decreases bites.len(),
{
    let b2 = bites.push(e);
    assert(b2.len() == bites.len() + 1);
    if bites.len() == 0 {
        assert(b2[0] == e);
        assert(b2.skip(1).len() == 0);
        assert(apply_bites(s, b2)
            == apply_bites(apply_bite(s, b2[0].0, b2[0].1.0, b2[0].1.1), b2.skip(1)));
        assert(apply_bites(apply_bite(s, e.0, e.1.0, e.1.1), b2.skip(1))
            == apply_bite(s, e.0, e.1.0, e.1.1));
        assert(apply_bites(s, bites) == s);
    } else {
        assert(b2[0] == bites[0]);
        assert(b2.skip(1) =~= bites.skip(1).push(e));
        assert(apply_bites(s, b2)
            == apply_bites(apply_bite(s, bites[0].0, bites[0].1.0, bites[0].1.1), b2.skip(1)));
        lemma_apply_bites_push(
            apply_bite(s, bites[0].0, bites[0].1.0, bites[0].1.1),
            bites.skip(1),
            e,
        );
        assert(apply_bites(s, bites)
            == apply_bites(apply_bite(s, bites[0].0, bites[0].1.0, bites[0].1.1), bites.skip(1)));
    }
}

impl<C: SnakeController> World<C> {
    /// Resolves the recorded tail bites in order: each still-live biter's
    /// growth is armed between its eat hooks, and each still-live victim's
    /// chain is cut at the bitten point and its layer rewritten.
    #[verifier::loop_isolation(false)]
    #[verifier::rlimit(60)]
    pub fn handle_snakes_that_bit_tail(
        &mut self,
        snakes_that_bit_tail: &Vec<(usize, (usize, Point))>,
    )
        requires
            old(self).wf_core(),
        ensures
            final(self).wf_core(),
            final(self).agents() == apply_bites(old(self).agents(), snakes_that_bit_tail@),
            forall|k: ObjectType| !(k is Snake)
                ==> (#[trigger] final(self).mask().dom().contains(k)
                        == old(self).mask().dom().contains(k))
                    && (final(self).mask().dom().contains(k)
                        ==> final(self).mask()[k] == old(self).mask()[k]),
            final(self).border() == old(self).border(),
            final(self).eat() == old(self).eat(),
            final(self).same_session(old(self)),
    {
        let n_bites = snakes_that_bit_tail.len();
        let mut k: usize = 0;
        while k < n_bites
            invariant
                0 <= k <= n_bites,
                n_bites == snakes_that_bit_tail@.len(),
                self.wf_core(),
                self.agents() == apply_bites(
                    old(self).agents(),
                    snakes_that_bit_tail@.subrange(0, k as int),
                ),
                forall|k2: ObjectType| !(k2 is Snake)
                    ==> (#[trigger] self.mask().dom().contains(k2)
                            == old(self).mask().dom().contains(k2))
                        && (self.mask().dom().contains(k2)
                            ==> self.mask()[k2] == old(self).mask()[k2]),
                self.border() == old(self).border(),
                self.eat() == old(self).eat(),
                self.same_session(old(self)),
            decreases n_bites - k,
        {
            let biter = snakes_that_bit_tail[k].0;
            let victim = snakes_that_bit_tail[k].1.0;
            let point = snakes_that_bit_tail[k].1.1;
            let ghost agents0 = self.agents();
            let found_biter = find_snake_index(&self.snakes_info, biter);
            match found_biter {
                Some(bi) => {
                    let info_c = self.snakes_info[bi].1.clone();
                    let view = WorldView::new(self);
                    self.call_will_eat(biter, false, &info_c, &view);
                    let (bid, mut binfo) = self.snakes_info.remove(bi);
                    binfo.snake.fill_stomach_if_empty();
                    self.snakes_info.insert(bi, (bid, binfo));
                    proof {
                        assert(self.agents() =~= arm_id(agents0, biter)) by {
                            assert forall|j: int| 0 <= j < agents0.len()
                                implies self.agents()[j] == arm_id(agents0, biter)[j] by {
                                if j != bi {
                                    assert(agents0[j].0 != biter);
                                }
                            }
                        }
                    }
                }
                None => {
                    proof {
                        assert(self.agents() =~= arm_id(agents0, biter)) by {
                            assert forall|j: int| 0 <= j < agents0.len()
                                implies self.agents()[j] == arm_id(agents0, biter)[j] by {
                                assert(agents0[j].0 != biter);
                            }
                        }
                    }
                }
            }
            proof {
                let cur = self.agents();
                assert forall|j: int| 0 <= j < cur.len()
                    implies (#[trigger] cur[j]).0 == agents0[j].0
                        && cur[j].1.body == agents0[j].1.body by {
                }
                lemma_synced_same_shape(self.mask(), agents0, cur, self.border(), self.eat());
            }
            let ghost agents1 = self.agents();
            let found_victim = find_snake_index(&self.snakes_info, victim);
            match found_victim {
                Some(vi) => {
                    let ghost mask_mid = self.mask();
                    let (vid, mut vinfo) = self.snakes_info.remove(vi);
                    proof {
                        assert(vinfo@ == agents1[vi as int].1);
                        assert(vinfo.snake.points().len() >= 1);
                    }
                    let _ = vinfo.snake.remove_tail(point);
                    proof {
                        crate::snake::lemma_first_tail_index_range(
                            agents1[vi as int].1.body,
                            point,
                            1,
                        );
                        assert(vinfo.snake.points().len() >= 1);
                    }
                    let pts = vinfo.snake.body_parts_points(true);
                    self.snakes_info.insert(vi, (vid, vinfo));
                    proof {
                        assert(self.agents() =~= cut_id(agents1, victim, point)) by {
                            assert forall|j: int| 0 <= j < agents1.len()
                                implies self.agents()[j]
                                    == cut_id(agents1, victim, point)[j] by {
                                if j != vi {
                                    assert(agents1[j].0 != victim);
                                }
                            }
                        }
                        assert(self.agents()[vi as int].1.body.len() >= 1);
                    }
                    self.world_mask.set_layer(ObjectType::Snake(victim), pts);
                    proof {
                        let cur = self.agents();
                        assert forall|id2: usize|
                            #[trigger] self.mask().dom().contains(ObjectType::Snake(id2))
                            implies has_id(cur, id2) by {
                            if id2 == victim {
                                assert(cur[vi as int].0 == victim);
                            } else {
                                assert(mask_mid.dom().contains(ObjectType::Snake(id2)));
                                let j = choose|j: int|
                                    0 <= j < agents1.len()
                                        && (#[trigger] agents1[j]).0 == id2;
                                assert(cur[j].0 == id2);
                            }
                        }
                        assert forall|id2: usize| has_id(cur, id2)
                            implies #[trigger] self.mask().dom().contains(
                                ObjectType::Snake(id2),
                            ) by {
                            if id2 != victim {
                                let j = choose|j: int|
                                    0 <= j < cur.len() && (#[trigger] cur[j]).0 == id2;
                                assert(agents1[j].0 == id2);
                                assert(mask_mid.dom().contains(ObjectType::Snake(id2)));
                            }
                        }
                        assert(ids_unique(cur)) by {
                            assert forall|a: int, b: int| 0 <= a < b < cur.len()
                                implies (#[trigger] cur[a]).0 != (#[trigger] cur[b]).0 by {
                                assert(cur[a].0 == agents1[a].0);
                                assert(cur[b].0 == agents1[b].0);
                            }
                        }
                        assert forall|j: int| 0 <= j < cur.len()
                            implies self.mask()[ObjectType::Snake((#[trigger] cur[j]).0)]
                                == cur[j].1.body by {
                            if j != vi {
                                assert(cur[j].0 == agents1[j].0);
                                assert(cur[j].0 != victim);
                                assert(mask_mid[ObjectType::Snake(agents1[j].0)]
                                    == agents1[j].1.body);
                            }
                        }
                    }
                }
                None => {
                    proof {
                        assert(self.agents() =~= cut_id(agents1, victim, point)) by {
                            assert forall|j: int| 0 <= j < agents1.len()
                                implies self.agents()[j]
                                    == cut_id(agents1, victim, point)[j] by {
                                assert(agents1[j].0 != victim);
                            }
                        }
                    }
                }
            }
            let found_biter2 = find_snake_index(&self.snakes_info, biter);
            match found_biter2 {
                Some(bi2) => {
                    let info_c2 = self.snakes_info[bi2].1.clone();
                    let view2 = WorldView::new(self);
                    self.call_did_eat(biter, false, &info_c2, &view2);
                }
                None => {}
            }
            k = k + 1;
            proof {
                let pre = snakes_that_bit_tail@.subrange(0, k - 1);
                let full = snakes_that_bit_tail@.subrange(0, k as int);
                assert(full =~= pre.push(snakes_that_bit_tail@[k - 1]));
                lemma_apply_bites_push(
                    old(self).agents(),
                    pre,
                    snakes_that_bit_tail@[k - 1],
                );
            }
        }
        proof {
            assert(snakes_that_bit_tail@.subrange(0, n_bites as int)
                =~= snakes_that_bit_tail@);
        }
    }
}

/// The least index at or after `i` where `s` holds `p`, or `s.len()`.
pub open spec fn first_point_index(s: Seq<Point>, p: Point, i: int) -> int
    decreases s.len() - i
        when 0 <= i <= s.len()
{
    if i >= s.len() {
        s.len() as int
    } else if s[i] == p {
        i
    } else {
        first_point_index(s, p, i + 1)
    }
}

/// `s` with its first occurrence of `p` taken out; unchanged when absent.
pub open spec fn remove_first_point(s: Seq<Point>, p: Point) -> Seq<Point> {
    let i = first_point_index(s, p, 0);
    if i < s.len() {
        s.remove(i)
    } else {
        s
    }
}

/// One meal resolved: if the eater is live, its growth is armed and the food
/// point leaves the food set.
pub open spec fn apply_eat(
    s: Seq<(usize, SnakeView)>,
    eat: Seq<Point>,
    id: usize,
    p: Point,
) -> (Seq<(usize, SnakeView)>, Seq<Point>) {
    if has_id(s, id) {
        (arm_id(s, id), remove_first_point(eat, p))
    } else {
        (s, eat)
    }
}

/// All recorded meals resolved in order.
pub open spec fn apply_eats(
    s: Seq<(usize, SnakeView)>,
    eat: Seq<Point>,
    entries: Seq<(usize, Point)>,
) -> (Seq<(usize, SnakeView)>, Seq<Point>)
    decreases entries.len(),
{
    if entries.len() == 0 {
        (s, eat)
    } else {
        let r = apply_eat(s, eat, entries[0].0, entries[0].1);
        apply_eats(r.0, r.1, entries.skip(1))
    }
}

pub proof fn lemma_apply_eats_push(
    s: Seq<(usize, SnakeView)>,
    eat: Seq<Point>,
    entries: Seq<(usize, Point)>,
    e: (usize, Point),
)
    ensures
        apply_eats(s, eat, entries.push(e)) == apply_eat(
            apply_eats(s, eat, entries).0,
            apply_eats(s, eat, entries).1,
            e.0,
            e.1,
        ),
    decreases entries.len(),
{
    let e2 = entries.push(e);
    assert(e2.len() == entries.len() + 1);
    if entries.len() == 0 {
        assert(e2[0] == e);
        assert(e2.skip(1).len() == 0);
        let r = apply_eat(s, eat, e.0, e.1);
        assert(apply_eats(s, eat, e2) == apply_eats(r.0, r.1, e2.skip(1)));
        assert(apply_eats(r.0, r.1, e2.skip(1)) == r);
        assert(apply_eats(s, eat, entries) == (s, eat));
    } else {
        assert(e2[0] == entries[0]);
        assert(e2.skip(1) =~= entries.skip(1).push(e));
        let r = apply_eat(s, eat, entries[0].0, entries[0].1);
        assert(apply_eats(s, eat, e2) == apply_eats(r.0, r.1, e2.skip(1)));
        lemma_apply_eats_push(r.0, r.1, entries.skip(1), e);
        assert(apply_eats(s, eat, entries) == apply_eats(r.0, r.1, entries.skip(1)));
    }
}

impl<C: SnakeController> World<C> {
    /// Resolves the recorded meals in order: each still-live eater's growth is
    /// armed between its eat hooks, its food point leaves the authoritative
    /// food set, and the food layer is rewritten on every removal.
    #[verifier::loop_isolation(false)]
    #[verifier::rlimit(60)]
    pub fn handle_snakes_that_ate_food(&mut self, snakes_that_ate_food: &Vec<(usize, Point)>)
        requires
            old(self).wf_core(),
        ensures
            final(self).wf_core(),
            final(self).agents() == apply_eats(
                old(self).agents(),
                old(self).eat(),
                snakes_that_ate_food@,
            ).0,
            final(self).eat() == apply_eats(
                old(self).agents(),
                old(self).eat(),
                snakes_that_ate_food@,
            ).1,
            forall|k: ObjectType| !(k is Snake) && k != ObjectType::Eat
                ==> (#[trigger] final(self).mask().dom().contains(k)
                        == old(self).mask().dom().contains(k))
                    && (final(self).mask().dom().contains(k)
                        ==> final(self).mask()[k] == old(self).mask()[k]),
            final(self).border() == old(self).border(),
            final(self).same_session(old(self)),
    {
        let n_eats = snakes_that_ate_food.len();
        let mut k: usize = 0;
        while k < n_eats
            invariant
                0 <= k <= n_eats,
                n_eats == snakes_that_ate_food@.len(),
                self.wf_core(),
                self.agents() == apply_eats(
                    old(self).agents(),
                    old(self).eat(),
                    snakes_that_ate_food@.subrange(0, k as int),
                ).0,
                self.eat() == apply_eats(
                    old(self).agents(),
                    old(self).eat(),
                    snakes_that_ate_food@.subrange(0, k as int),
                ).1,
                forall|k2: ObjectType| !(k2 is Snake) && k2 != ObjectType::Eat
                    ==> (#[trigger] self.mask().dom().contains(k2)
                            == old(self).mask().dom().contains(k2))
                        && (self.mask().dom().contains(k2)
                            ==> self.mask()[k2] == old(self).mask()[k2]),
                self.border() == old(self).border(),
                self.same_session(old(self)),
            decreases n_eats - k,
        {
            let id = snakes_that_ate_food[k].0;
            let eat_point = snakes_that_ate_food[k].1;
            let ghost agents0 = self.agents();
            let ghost eat0 = self.eat();
            let found = find_snake_index(&self.snakes_info, id);
            match found {
                Some(idx) => {
                    let info_c = self.snakes_info[idx].1.clone();
                    let view = WorldView::new(self);
                    self.call_will_eat(id, true, &info_c, &view);
                    let (eid, mut einfo) = self.snakes_info.remove(idx);
                    einfo.snake.fill_stomach_if_empty();
                    self.snakes_info.insert(idx, (eid, einfo));
                    proof {
                        assert(self.agents() =~= arm_id(agents0, id)) by {
                            assert forall|j: int| 0 <= j < agents0.len()
                                implies self.agents()[j] == arm_id(agents0, id)[j] by {
                                if j != idx {
                                    assert(agents0[j].0 != id);
                                }
                            }
                        }
                        let cur = self.agents();
                        assert forall|j: int| 0 <= j < cur.len()
                            implies (#[trigger] cur[j]).0 == agents0[j].0
                                && cur[j].1.body == agents0[j].1.body by {
                        }
                        lemma_synced_same_shape(
                            self.mask(),
                            agents0,
                            cur,
                            self.border(),
                            self.eat(),
                        );
                    }
                    let found_pt = find_point_index(&self.eat_points, eat_point);
                    let removed = match found_pt {
                        Some(ei) => {
                            proof {
                                lemma_first_point_index_hits(eat0, eat_point, 0, ei as int);
                            }
                            let _ = self.eat_points.remove(ei);
                            true
                        }
                        None => {
                            proof {
                                lemma_first_point_index_misses(eat0, eat_point, 0);
                                assert(self.eat_points@ =~= remove_first_point(eat0, eat_point));
                            }
                            false
                        }
                    };
                    if removed {
                        let layer = clone_points(&self.eat_points);
                        self.world_mask.set_layer(ObjectType::Eat, layer);
                    }
                    proof {
                        assert(self.eat() == remove_first_point(eat0, eat_point));
                        assert(self.eat().no_duplicates()) by {
                            let fi = first_point_index(eat0, eat_point, 0);
                            if fi < eat0.len() {
                                assert forall|a: int, b: int|
                                    0 <= a < b < self.eat().len()
                                    implies self.eat()[a] != self.eat()[b] by {
                                    let a0: int = if a < fi { a } else { a + 1 };
                                    let b0: int = if b < fi { b } else { b + 1 };
                                    assert(self.eat()[a] == eat0[a0]);
                                    assert(self.eat()[b] == eat0[b0]);
                                }
                            }
                        }
                        assert(self.eat().len() <= eat0.len());
                    }
                    let found2 = find_snake_index(&self.snakes_info, id);
                    match found2 {
                        Some(idx2) => {
                            let info_c2 = self.snakes_info[idx2].1.clone();
                            let view2 = WorldView::new(self);
                            self.call_did_eat(id, true, &info_c2, &view2);
                        }
                        None => {}
                    }
                }
                None => {
                }
            }
            k = k + 1;
            proof {
                let pre = snakes_that_ate_food@.subrange(0, k - 1);
                let full = snakes_that_ate_food@.subrange(0, k as int);
                assert(full =~= pre.push(snakes_that_ate_food@[k - 1]));
                lemma_apply_eats_push(
                    old(self).agents(),
                    old(self).eat(),
                    pre,
                    snakes_that_ate_food@[k - 1],
                );
                if !has_id(agents0, id) {
                    assert(self.agents() == agents0 && self.eat() == eat0);
                }
            }
        }
        proof {
            assert(snakes_that_ate_food@.subrange(0, n_eats as int)
                =~= snakes_that_ate_food@);
        }
    }
}

/// The position of the first occurrence of `p` in `v`, if there is one.
fn find_point_index(v: &Vec<Point>, p: Point) -> (r: Option<usize>)
    ensures
        match r {
            Some(i) => i < v@.len() && v@[i as int] == p
                && forall|x: int| 0 <= x < i ==> v@[x] != p,
            None => forall|x: int| 0 <= x < v@.len() ==> v@[x] != p,
        },
{
    let mut i: usize = 0;
    while i < v.len()
        invariant
            0 <= i <= v@.len(),
            forall|x: int| 0 <= x < i ==> v@[x] != p,
        decreases v@.len() - i,
    {
        if v[i] == p {
            return Some(i);
        }
        i = i + 1;
    }
    None
}

/// The search hits: when `s[j] == p` and nothing before `j` (at or after `i`)
/// equals `p`, the first index from `i` is exactly `j`.
pub proof fn lemma_first_point_index_hits(s: Seq<Point>, p: Point, i: int, j: int)
    requires
        0 <= i <= j < s.len(),
        s[j] == p,
        forall|x: int| i <= x < j ==> s[x] != p,
    ensures
        first_point_index(s, p, i) == j,
    decreases j - i,
{
    if i < j {
        lemma_first_point_index_hits(s, p, i + 1, j);
    }
}

/// The search misses: when nothing at or after `i` equals `p`, the first
/// index from `i` is the length.
pub proof fn lemma_first_point_index_misses(s: Seq<Point>, p: Point, i: int)
    requires
        0 <= i <= s.len(),
        forall|x: int| i <= x < s.len() ==> s[x] != p,
    ensures
        first_point_index(s, p, i) == s.len(),
        !s.skip(i).contains(p),
    decreases s.len() - i,
{
    if i < s.len() {
        lemma_first_point_index_misses(s, p, i + 1);
    }
    if s.skip(i).contains(p) {
        let x = choose|x: int| 0 <= x < s.skip(i).len() && s.skip(i)[x] == p;
        assert(s[i + x] == p);
    }
}

impl<C: SnakeController> World<C> {
    /// Brings the food set back up to the configured count by placing food on
    /// uniformly chosen unoccupied interior cells, then rewrites the food
    /// layer. When fewer free cells remain than the deficit, every free
    /// interior cell is filled.
    #[verifier::loop_isolation(false)]
    #[verifier::rlimit(60)]
    pub fn spawn_eat(&mut self)
        requires
            old(self).wf_core(),
        ensures
            final(self).wf_core(),
            final(self).eat().len() <= final(self).food_target(),
            final(self).eat().len() == final(self).food_target()
                || (forall|p: Point|
                    in_interior(final(self).width(), final(self).height(), p)
                        ==> occupied_in(final(self).mask(), p)),
            forall|p: Point| old(self).eat().contains(p) ==> final(self).eat().contains(p),
            forall|p: Point| #[trigger] final(self).eat().contains(p)
                ==> old(self).eat().contains(p)
                    || (in_interior(old(self).width(), old(self).height(), p)
                        && !occupied_in(old(self).mask(), p)),
            old(self).eat().len() == old(self).food_target()
                ==> final(self).eat() == old(self).eat(),
            final(self).mask() == old(self).mask().insert(
                ObjectType::Eat,
                final(self).eat(),
            ),
            final(self).agents() == old(self).agents(),
            final(self).border() == old(self).border(),
            final(self).same_session(old(self)),
    {
        let w = self.config.world_size.0;
        let h = self.config.world_size.1;
        let ghost mask0 = self.mask();
        let mut candidates: Vec<Point> = Vec::new();
        let mut x: AreaSize = 1;
        while x < w - 1
            invariant
                1 <= x <= w - 1,
                w == self.width() && h == self.height(),
                10 <= w && 10 <= h,
                self.mask() == mask0,
                forall|p: Point| #[trigger] candidates@.contains(p)
                    <==> in_interior(w, h, p) && !occupied_in(mask0, p) && p.x < x,
                candidates@.no_duplicates(),
            decreases w - 1 - x,
        {
            let mut y: AreaSize = 1;
            while y < h - 1
                invariant
                    1 <= y <= h - 1,
                    1 <= x < w - 1,
                    w == self.width() && h == self.height(),
                    10 <= w && 10 <= h,
                    self.mask() == mask0,
                    forall|p: Point| #[trigger] candidates@.contains(p)
                        <==> in_interior(w, h, p) && !occupied_in(mask0, p)
                            && (p.x < x || (p.x == x && p.y < y)),
                    candidates@.no_duplicates(),
                decreases h - 1 - y,
            {
                let np = Point::new(x, y);
                let occ = self.world_mask.point_occurrences(&np);
                let free = occ.len() == 0;
                proof {
                    if occ@.len() > 0 {
                        assert(occ@.contains(occ@[0]));
                        assert(occupied_in(mask0, np));
                    } else {
                        if occupied_in(mask0, np) {
                            let kk = choose|kk: ObjectType|
                                #[trigger] mask0.dom().contains(kk) && mask0[kk].contains(np);
                            assert(occ@.contains(kk));
                        }
                    }
                }
                if free {
                    let ghost c0 = candidates@;
                    candidates.push(np);
                    proof {
                        assert(candidates@[candidates@.len() - 1] == np);
                        assert(!c0.contains(np));
                        assert forall|p: Point| #[trigger] candidates@.contains(p)
                            implies in_interior(w, h, p) && !occupied_in(mask0, p)
                                && (p.x < x || (p.x == x && p.y < y + 1)) by {
                            let q = choose|q: int|
                                0 <= q < candidates@.len() && candidates@[q] == p;
                            if q < c0.len() {
                                assert(c0[q] == p);
                                assert(c0.contains(p));
                            }
                        }
                        assert forall|p: Point|
                            in_interior(w, h, p) && !occupied_in(mask0, p)
                                && (p.x < x || (p.x == x && p.y < y + 1))
                            implies #[trigger] candidates@.contains(p) by {
                            if p.x < x || (p.x == x && p.y < y) {
                                assert(c0.contains(p));
                                let q = choose|q: int| 0 <= q < c0.len() && c0[q] == p;
                                assert(candidates@[q] == p);
                            } else {
                                assert(p == np);
                            }
                        }
                        assert forall|a: int, b: int| 0 <= a < b < candidates@.len()
                            implies candidates@[a] != candidates@[b] by {
                            if b == candidates@.len() - 1 {
                                assert(c0[a] == candidates@[a]);
                                assert(c0.contains(candidates@[a]));
                            } else {
                                assert(c0[a] == candidates@[a] && c0[b] == candidates@[b]);
                            }
                        }
                    }
                } else {
                    proof {
                        assert forall|p: Point|
                            in_interior(w, h, p) && !occupied_in(mask0, p)
                                && (p.x < x || (p.x == x && p.y < y + 1))
                            implies #[trigger] candidates@.contains(p) by {
                            assert(!(p.x == x && p.y == y));
                        }
                    }
                }
                y = y + 1;
            }
            x = x + 1;
            proof {
                assert forall|p: Point|
                    in_interior(w, h, p) && !occupied_in(mask0, p) && p.x < x
                    implies #[trigger] candidates@.contains(p) by {
                    assert(p.x < x - 1 || (p.x == x - 1 && p.y < h - 1));
                }
            }
        }
        let ghost eat0 = self.eat();
        let mut need: usize = self.config.eat_count as usize - self.eat_points.len();
        proof {
            assert forall|p: Point| #[trigger] self.eat().contains(p)
                implies occupied_in(mask0, p) by {
                assert(self.eat().len() > 0);
                assert(mask0.dom().contains(ObjectType::Eat));
            }
        }
        while need > 0 && candidates.len() > 0
            invariant
                w == self.width() && h == self.height(),
                self.mask() == mask0,
                self.mask_wf(),
                self.same_session(old(self)),
                self.agents() == old(self).agents(),
                self.border() == old(self).border(),
                self.eat_points@.len() + need == self.food_target(),
                eat0.len() == self.food_target() ==> self.eat_points@ == eat0,
                self.eat_points@.no_duplicates(),
                forall|p: Point| #[trigger] candidates@.contains(p)
                    ==> in_interior(w, h, p) && !occupied_in(mask0, p)
                        && !self.eat_points@.contains(p),
                candidates@.no_duplicates(),
                forall|p: Point| eat0.contains(p) ==> #[trigger] self.eat_points@.contains(p),
                forall|p: Point| #[trigger] self.eat_points@.contains(p)
                    ==> eat0.contains(p)
                        || (in_interior(w, h, p) && !occupied_in(mask0, p)),
                forall|p: Point| in_interior(w, h, p)
                    ==> occupied_in(mask0, p) || candidates@.contains(p)
                        || self.eat_points@.contains(p),
            decreases need,
        {
            let idx = random_index(candidates.len());
            let ghost c0 = candidates@;
            let ghost eat_prev = self.eat_points@;
            let chosen = candidates.remove(idx);
            self.eat_points.push(chosen);
            need = need - 1;
            proof {
                assert(c0[idx as int] == chosen);
                assert(c0.contains(chosen));
                let cur = candidates@;
                assert forall|p: Point| #[trigger] cur.contains(p)
                    implies c0.contains(p) && p != chosen by {
                    let q = choose|q: int| 0 <= q < cur.len() && cur[q] == p;
                    let q0: int = if q < idx { q } else { q + 1 };
                    assert(c0[q0] == p);
                    if p == chosen {
                        assert(q0 != idx);
                        assert(false);
                    }
                }
                assert forall|p: Point| c0.contains(p) && p != chosen
                    implies #[trigger] cur.contains(p) by {
                    let q0 = choose|q0: int| 0 <= q0 < c0.len() && c0[q0] == p;
                    assert(q0 != idx);
                    let q: int = if q0 < idx { q0 } else { q0 - 1 };
                    assert(cur[q] == p);
                }
                assert forall|a: int, b: int| 0 <= a < b < cur.len()
                    implies cur[a] != cur[b] by {
                    let a0: int = if a < idx { a } else { a + 1 };
                    let b0: int = if b < idx { b } else { b + 1 };
                    assert(cur[a] == c0[a0] && cur[b] == c0[b0]);
                }
                let eat_cur = self.eat_points@;
                assert(eat_cur == eat_prev.push(chosen));
                assert(eat_cur[eat_cur.len() - 1] == chosen);
                assert forall|p: Point| #[trigger] eat_cur.contains(p)
                    implies eat_prev.contains(p) || p == chosen by {
                    let q = choose|q: int| 0 <= q < eat_cur.len() && eat_cur[q] == p;
                    if q < eat_prev.len() {
                        assert(eat_prev[q] == p);
                    }
                }
                assert forall|p: Point| eat_prev.contains(p)
                    implies #[trigger] eat_cur.contains(p) by {
                    let q = choose|q: int| 0 <= q < eat_prev.len() && eat_prev[q] == p;
                    assert(eat_cur[q] == p);
                }
                assert forall|a: int, b: int| 0 <= a < b < eat_cur.len()
                    implies eat_cur[a] != eat_cur[b] by {
                    if b == eat_cur.len() - 1 {
                        assert(eat_prev[a] == eat_cur[a]);
                        assert(eat_prev.contains(eat_cur[a]));
                    } else {
                        assert(eat_prev[a] == eat_cur[a] && eat_prev[b] == eat_cur[b]);
                    }
                }
            }
        }
        let layer = clone_points(&self.eat_points);
        self.world_mask.set_layer(ObjectType::Eat, layer);
        proof {
            assert forall|id2: usize|
                #[trigger] self.mask().dom().contains(ObjectType::Snake(id2))
                implies has_id(self.agents(), id2) by {
                assert(mask0.dom().contains(ObjectType::Snake(id2)));
            }
            assert forall|id2: usize| has_id(self.agents(), id2)
                implies #[trigger] self.mask().dom().contains(ObjectType::Snake(id2)) by {
                assert(mask0.dom().contains(ObjectType::Snake(id2)));
            }
            if self.eat().len() != self.food_target() {
                assert forall|p: Point| in_interior(self.width(), self.height(), p)
                    implies occupied_in(self.mask(), p) by {
                    if occupied_in(mask0, p) {
                        let kk = choose|kk: ObjectType|
                            #[trigger] mask0.dom().contains(kk) && mask0[kk].contains(p);
                        if kk == ObjectType::Eat {
                            assert(eat0.len() > 0);
                            assert(mask0[ObjectType::Eat] == eat0);
                            assert(self.eat().contains(p));
                            assert(self.mask().dom().contains(ObjectType::Eat)
                                && self.mask()[ObjectType::Eat].contains(p));
                        } else {
                            assert(self.mask().dom().contains(kk)
                                && self.mask()[kk].contains(p));
                        }
                    } else {
                        assert(self.eat().contains(p));
                        assert(self.mask().dom().contains(ObjectType::Eat)
                            && self.mask()[ObjectType::Eat].contains(p));
                    }
                }
            }
        }
    }
}

/// One resolved bite keeps every id, never lengthens a body, and leaves each
/// surviving prefix of body points in place.
pub proof fn lemma_apply_bite_prefix(s: Seq<(usize, SnakeView)>, b: usize, v: usize, p: Point)
    requires
        forall|i: int| 0 <= i < s.len() ==> (#[trigger] s[i]).1.body.len() >= 1,
    ensures
        apply_bite(s, b, v, p).len() == s.len(),
        forall|i: int| 0 <= i < s.len()
            ==> (#[trigger] apply_bite(s, b, v, p)[i]).0 == s[i].0
                && apply_bite(s, b, v, p)[i].1.body.len() <= s[i].1.body.len()
                && apply_bite(s, b, v, p)[i].1.body.len() >= 1
                && (forall|j: int| 0 <= j < apply_bite(s, b, v, p)[i].1.body.len()
                    ==> apply_bite(s, b, v, p)[i].1.body[j] == s[i].1.body[j]),
{
    let r = apply_bite(s, b, v, p);
    assert forall|i: int| 0 <= i < s.len()
        implies (#[trigger] r[i]).0 == s[i].0
            && r[i].1.body.len() <= s[i].1.body.len()
            && r[i].1.body.len() >= 1
            && (forall|j: int| 0 <= j < r[i].1.body.len()
                ==> r[i].1.body[j] == s[i].1.body[j]) by {
        let body = s[i].1.body;
        if s[i].0 == v {
            crate::snake::lemma_first_tail_index_range(body, p, 1);
            assert(r[i].1.body == tail_cut(body, p));
        } else {
            assert(r[i].1.body == body);
        }
    }
}

/// Resolving all bites keeps every id, never lengthens a body, and leaves
/// each surviving prefix of body points in place.
pub proof fn lemma_apply_bites_prefix(
    s: Seq<(usize, SnakeView)>,
    bites: Seq<(usize, (usize, Point))>,
)
    requires
        forall|i: int| 0 <= i < s.len() ==> (#[trigger] s[i]).1.body.len() >= 1,
    ensures
        apply_bites(s, bites).len() == s.len(),
        forall|i: int| 0 <= i < s.len()
            ==> (#[trigger] apply_bites(s, bites)[i]).0 == s[i].0
                && apply_bites(s, bites)[i].1.body.len() <= s[i].1.body.len()
                && apply_bites(s, bites)[i].1.body.len() >= 1
                && (forall|j: int| 0 <= j < apply_bites(s, bites)[i].1.body.len()
                    ==> apply_bites(s, bites)[i].1.body[j] == s[i].1.body[j]),
    decreases bites.len(),
{
    if bites.len() > 0 {
        let s1 = apply_bite(s, bites[0].0, bites[0].1.0, bites[0].1.1);
        lemma_apply_bite_prefix(s, bites[0].0, bites[0].1.0, bites[0].1.1);
        lemma_apply_bites_prefix(s1, bites.skip(1));
        assert(apply_bites(s, bites) == apply_bites(s1, bites.skip(1)));
    }
}

/// Resolving meals changes no id and no body: only growth flags and the food
/// set move.
pub proof fn lemma_apply_eats_bodies(
    s: Seq<(usize, SnakeView)>,
    eat: Seq<Point>,
    entries: Seq<(usize, Point)>,
)
    ensures
        apply_eats(s, eat, entries).0.len() == s.len(),
        forall|i: int| 0 <= i < s.len()
            ==> (#[trigger] apply_eats(s, eat, entries).0[i]).0 == s[i].0
                && apply_eats(s, eat, entries).0[i].1.body == s[i].1.body,
    decreases entries.len(),
{
    if entries.len() > 0 {
        let r = apply_eat(s, eat, entries[0].0, entries[0].1);
        assert(r.0.len() == s.len());
        assert forall|i: int| 0 <= i < s.len()
            implies (#[trigger] r.0[i]).0 == s[i].0 && r.0[i].1.body == s[i].1.body by {
        }
        lemma_apply_eats_bodies(r.0, r.1, entries.skip(1));
        assert(apply_eats(s, eat, entries) == apply_eats(r.0, r.1, entries.skip(1)));
    }
}

/// The detection findings over the moved registry `m`, as seen through some
/// spatial index in sync with the moved bodies, the border and the
/// pre-resolution food set.
pub open spec fn detection_over(
    m: Seq<(usize, SnakeView)>,
    border: Seq<Point>,
    eat: Seq<Point>,
    vv: Seq<(Point, Seq<Direction>)>,
    cut: bool,
    rem: Seq<usize>,
    eats: Seq<(usize, Point)>,
    bites: Seq<(usize, (usize, Point))>,
) -> bool {
    exists|mask_mid: Map<ObjectType, Seq<Point>>|
        #[trigger] layers_synced(mask_mid, m, border, eat)
            && detect_findings(m, mask_mid, vv, cut, rem, eats, bites)
}

/// The food respawn's footprint at the tick boundary: the resolved food set
/// survives whole, anything new lies on a cell that was interior and free
/// just before the respawn, and a set already at the target is untouched.
pub open spec fn respawn_outcome(
    eat_res: Seq<Point>,
    agents_post: Seq<(usize, SnakeView)>,
    border: Seq<Point>,
    w: AreaSize,
    h: AreaSize,
    target: AreaSize,
    post_eat: Seq<Point>,
) -> bool {
    &&& forall|p: Point| eat_res.contains(p) ==> post_eat.contains(p)
    &&& exists|mask5: Map<ObjectType, Seq<Point>>|
        #[trigger] layers_synced(mask5, agents_post, border, eat_res)
            && forall|p: Point| #[trigger] post_eat.contains(p)
                ==> eat_res.contains(p) || (in_interior(w, h, p) && !occupied_in(mask5, p))
    &&& eat_res.len() == target ==> post_eat == eat_res
}

/// The whole work of one tick after any reset spawning: one movement pass,
/// one detection pass over the moved state, the fixed-order resolution -
/// removals, then tail bites, then meals - applied to exactly its findings,
/// and the food respawn.
pub open spec fn tick_transition(
    pre: Seq<(usize, SnakeView)>,
    border: Seq<Point>,
    eat_pre: Seq<Point>,
    cut: bool,
    w: AreaSize,
    h: AreaSize,
    target: AreaSize,
    post: Seq<(usize, SnakeView)>,
    post_eat: Seq<Point>,
) -> bool {
    exists|
        m: Seq<(usize, SnakeView)>,
        vv: Seq<(Point, Seq<Direction>)>,
        rem: Seq<usize>,
        eats: Seq<(usize, Point)>,
        bites: Seq<(usize, (usize, Point))>,
        s3: Seq<(usize, SnakeView)>,
    | {
        &&& #[trigger] move_pass(pre, m, vv)
        &&& #[trigger] detection_over(m, border, eat_pre, vv, cut, rem, eats, bites)
        &&& #[trigger] removal_outcome(m, rem, s3)
        &&& post == apply_eats(apply_bites(s3, bites), eat_pre, eats).0
        &&& respawn_outcome(
            apply_eats(apply_bites(s3, bites), eat_pre, eats).1,
            post,
            border,
            w,
            h,
            target,
            post_eat,
        )
    }
}

/// Packs one tick's phase outcomes, witnessed piece by piece, into the
/// tick-transition statement.
proof fn lemma_package_tick_transition(
    pre: Seq<(usize, SnakeView)>,
    border: Seq<Point>,
    eat_pre: Seq<Point>,
    cut: bool,
    w: AreaSize,
    h: AreaSize,
    target: AreaSize,
    m: Seq<(usize, SnakeView)>,
    vv: Seq<(Point, Seq<Direction>)>,
    mask_mid: Map<ObjectType, Seq<Point>>,
    rem: Seq<usize>,
    eats: Seq<(usize, Point)>,
    bites: Seq<(usize, (usize, Point))>,
    s3: Seq<(usize, SnakeView)>,
    mask5: Map<ObjectType, Seq<Point>>,
    post: Seq<(usize, SnakeView)>,
    post_eat: Seq<Point>,
)
    requires
        move_pass(pre, m, vv),
        layers_synced(mask_mid, m, border, eat_pre),
        detect_findings(m, mask_mid, vv, cut, rem, eats, bites),
        removal_outcome(m, rem, s3),
        post == apply_eats(apply_bites(s3, bites), eat_pre, eats).0,
        forall|p: Point| apply_eats(apply_bites(s3, bites), eat_pre, eats).1.contains(p)
            ==> post_eat.contains(p),
        layers_synced(
            mask5,
            post,
            border,
            apply_eats(apply_bites(s3, bites), eat_pre, eats).1,
        ),
        forall|p: Point| #[trigger] post_eat.contains(p)
            ==> apply_eats(apply_bites(s3, bites), eat_pre, eats).1.contains(p)
                || (in_interior(w, h, p) && !occupied_in(mask5, p)),
        apply_eats(apply_bites(s3, bites), eat_pre, eats).1.len() == target
            ==> post_eat == apply_eats(apply_bites(s3, bites), eat_pre, eats).1,
    ensures
        tick_transition(pre, border, eat_pre, cut, w, h, target, post, post_eat),
{
    let eat_res = apply_eats(apply_bites(s3, bites), eat_pre, eats).1;
    assert(detection_over(m, border, eat_pre, vv, cut, rem, eats, bites));
    assert(respawn_outcome(eat_res, post, border, w, h, target, post_eat));
}

impl<C: SnakeController> World<C> {
    /// One simulation step. A reset tick first lays the border ring and spawns
    /// every agent; every tick then runs the movement pass, the read-only
    /// interaction detection, the fixed-order resolution (removals, then tail
    /// bites, then meals) and the food respawn, and returns a snapshot of the
    /// now-consistent state. `reset` is for the first tick of a session only.
    #[verifier::loop_isolation(false)]
    #[verifier::rlimit(100)]
    pub fn tick(&mut self, reset: bool) -> (r: WorldView)
        requires
            old(self).wf(),
            reset ==> old(self).agents().len() == 0,
        ensures
            final(self).wf(),
            final(self).same_session(old(self)),
            final(self).eat().len() <= final(self).food_target(),
            final(self).eat().len() == final(self).food_target()
                || (forall|p: Point|
                    in_interior(final(self).width(), final(self).height(), p)
                        ==> occupied_in(final(self).mask(), p)),
            !reset ==> forall|id: usize| #[trigger] has_id(final(self).agents(), id)
                ==> has_id(old(self).agents(), id),
            !reset ==> tick_transition(
                old(self).agents(),
                old(self).border(),
                old(self).eat(),
                old(self).cut_tails(),
                old(self).width(),
                old(self).height(),
                old(self).food_target(),
                final(self).agents(),
                final(self).eat(),
            ),
            reset ==> exists|spawned: Seq<(usize, SnakeView)>, ring: Seq<Point>|
                #[trigger] spawn_layout(
                    spawned,
                    old(self).n_agents(),
                    old(self).tail_size() as int,
                ) && is_ring(ring, old(self).width(), old(self).height())
                    && #[trigger] tick_transition(
                        spawned,
                        ring,
                        old(self).eat(),
                        old(self).cut_tails(),
                        old(self).width(),
                        old(self).height(),
                        old(self).food_target(),
                        final(self).agents(),
                        final(self).eat(),
                    ),
            reset ==> is_ring(
                final(self).border(),
                old(self).width(),
                old(self).height(),
            ),
            r.mask() == final(self).mask(),
            r.agents() == final(self).agents(),
            r.border() == final(self).border(),
            r.eat() == final(self).eat(),
            r.mask_wf(),
    {
        if reset {
            self.spawn_border();
            self.spawn_snakes();
            proof {
                let w = self.width();
                let h = self.height();
                let tail = self.tail_size() as int;
                assert forall|i: int, j: int|
                    0 <= i < self.agents().len()
                        && 0 <= j < self.agents()[i].1.body.len()
                    implies in_interior(w, h, #[trigger] self.agents()[i].1.body[j]) by {
                    assert(self.agents()[i].1.body == initial_body(tail, i));
                    assert(initial_body(tail, i)[j] == (Point {
                        x: (3 + tail - j) as AreaSize,
                        y: (3 * (i + 1)) as AreaSize,
                    }));
                    assert(3 * (i + 1) <= 3 * self.n_agents());
                    assert(3 * self.n_agents() + 3 < h);
                }
            }
        }
        let ghost w1 = *self;
        proof {
            assert(w1.wf());
            if w1.agents().len() > 0 {
                assert(w1.border_ring());
            }
        }
        let points_move_vectors = self.snakes_move();
        let ghost w2 = *self;
        let det = self.snakes_interactions_detect(&points_move_vectors);
        self.handle_snakes_to_remove(&det.snakes_to_remove);
        let ghost w3 = *self;
        self.handle_snakes_that_bit_tail(&det.snakes_that_bit_tail);
        let ghost w4 = *self;
        self.handle_snakes_that_ate_food(&det.snakes_that_ate_food);
        let ghost w5 = *self;
        self.spawn_eat();
        proof {
            let wv = self.width();
            let hv = self.height();
            lemma_apply_eats_bodies(w4.agents(), w4.eat(), det.snakes_that_ate_food@);
            lemma_apply_bites_prefix(w3.agents(), det.snakes_that_bit_tail@);
            // survivors of the removal pass were not marked, so none of their
            // body points lies on the border ring, and all are in the grid
            assert forall|i: int, j: int|
                0 <= i < self.agents().len()
                    && 0 <= j < self.agents()[i].1.body.len()
                implies in_interior(wv, hv, #[trigger] self.agents()[i].1.body[j]) by {
                assert(self.agents() == w5.agents());
                assert(w5.agents()[i].1.body == w4.agents()[i].1.body);
                assert(w4.agents()[i].0 == w3.agents()[i].0);
                assert(w4.agents()[i].1.body[j] == w3.agents()[i].1.body[j]);
                let id = w3.agents()[i].0;
                assert(has_id(w3.agents(), id)) by {
                    assert(w3.agents()[i].0 == id);
                }
                assert(index_of_id(w3.agents(), id) == i) by {
                    let x = choose|x: int|
                        0 <= x < w3.agents().len() && (#[trigger] w3.agents()[x]).0 == id;
                }
                assert(state_of(w3.agents(), id) == w3.agents()[i].1);
                assert(has_id(w2.agents(), id) && !det.snakes_to_remove@.contains(id));
                let i2 = index_of_id(w2.agents(), id);
                assert(0 <= i2 < w2.agents().len() && w2.agents()[i2].0 == id) by {
                    let x = choose|x: int|
                        0 <= x < w2.agents().len() && (#[trigger] w2.agents()[x]).0 == id;
                }
                assert(w3.agents()[i].1 == w2.agents()[i2].1);
                let body2 = w2.agents()[i2].1.body;
                assert(!marked_for_removal(
                    w2.agents(),
                    w2.mask(),
                    vectors_view(points_move_vectors@),
                    w2.cut_tails(),
                    i2,
                )) by {
                    if marked_for_removal(
                        w2.agents(),
                        w2.mask(),
                        vectors_view(points_move_vectors@),
                        w2.cut_tails(),
                        i2,
                    ) {
                        assert(det.snakes_to_remove@.contains(id));
                    }
                }
                assert(!border_at(w2.mask(), body2[j]));
                assert(w2.agents().len() == w1.agents().len());
                assert(w1.agents().len() > 0);
                assert(w1.border_ring());
                assert(w2.border() == w1.border());
                assert(w1.border().contains(Point { x: 0, y: 0 })) by {
                    assert(is_border_point(wv, hv, Point { x: 0, y: 0 }));
                }
                assert(w2.border().len() > 0);
                assert(w2.mask().dom().contains(ObjectType::Border));
                assert(!w2.border().contains(body2[j]));
                assert(!is_border_point(wv, hv, body2[j]));
                assert(in_grid(wv, hv, body2[j]));
            }
            // an agent alive after the tick was alive before it
            assert forall|id: usize| #[trigger] has_id(self.agents(), id)
                implies has_id(w1.agents(), id) by {
                let i = choose|i: int|
                    0 <= i < self.agents().len() && (#[trigger] self.agents()[i]).0 == id;
                assert(w4.agents()[i].0 == id);
                assert(w3.agents()[i].0 == id);
                assert(has_id(w3.agents(), id));
                assert(has_id(w2.agents(), id));
                let i2 = choose|i2: int|
                    0 <= i2 < w2.agents().len() && (#[trigger] w2.agents()[i2]).0 == id;
                assert(w1.agents()[i2].0 == id);
            }
            // the ring stays in place while any agent lives
            if self.agents().len() > 0 {
                assert(self.border() == w1.border());
                assert(w1.agents().len() > 0) by {
                    assert(self.agents().len() == w3.agents().len());
                    assert(w3.agents().len() > 0);
                    let id0 = w3.agents()[0].0;
                    assert(has_id(w3.agents(), id0)) by {
                        assert(w3.agents()[0].0 == id0);
                    }
                    assert(has_id(w2.agents(), id0));
                    let x = choose|x: int|
                        0 <= x < w2.agents().len()
                            && (#[trigger] w2.agents()[x]).0 == id0;
                    assert(w2.agents().len() > 0);
                    assert(w2.agents().len() == w1.agents().len());
                }
                assert(w1.border_ring());
            }
            // package the phase outcomes into the tick-transition statement
            let vv = vectors_view(points_move_vectors@);
            let pre = w1.agents();
            let bdr = w1.border();
            let eat_pre = w1.eat();
            let m = w2.agents();
            let rem = det.snakes_to_remove@;
            let eats = det.snakes_that_ate_food@;
            let bites = det.snakes_that_bit_tail@;
            let s3 = w3.agents();
            assert(move_pass(pre, m, vv));
            assert(layers_synced(w2.mask(), m, bdr, eat_pre));
            assert(detect_findings(m, w2.mask(), vv, w2.cut_tails(), rem, eats, bites));
            assert(w2.cut_tails() == old(self).cut_tails());
            assert(removal_outcome(m, rem, s3));
            assert(w4.agents() == apply_bites(s3, bites));
            assert(w4.eat() == eat_pre);
            assert(self.agents() == apply_eats(apply_bites(s3, bites), eat_pre, eats).0);
            let eat_res = apply_eats(apply_bites(s3, bites), eat_pre, eats).1;
            assert(w5.eat() == eat_res);
            assert(layers_synced(w5.mask(), self.agents(), bdr, eat_res));
            lemma_package_tick_transition(
                pre,
                bdr,
                eat_pre,
                old(self).cut_tails(),
                old(self).width(),
                old(self).height(),
                old(self).food_target(),
                m,
                vv,
                w2.mask(),
                rem,
                eats,
                bites,
                s3,
                w5.mask(),
                self.agents(),
                self.eat(),
            );
            if reset {
                assert(spawn_layout(
                    pre,
                    old(self).n_agents(),
                    old(self).tail_size() as int,
                ));
                assert(is_ring(bdr, old(self).width(), old(self).height()));
                assert(self.border() == bdr);
            }
        }
        WorldView::new(self)
    }
}

/// A fresh registry vector standing for the same agent states.
fn clone_snakes_info(v: &Vec<(usize, SnakeInfo)>) -> (r: Vec<(usize, SnakeInfo)>)
    ensures
        agents_of(r@) == agents_of(v@),
{
    let mut r: Vec<(usize, SnakeInfo)> = Vec::new();
    let mut i: usize = 0;
    while i < v.len()
        invariant
            0 <= i <= v.len(),
            r@.len() == i,
            forall|j: int| 0 <= j < i
                ==> (#[trigger] r@[j]).0 == v@[j].0 && r@[j].1@ == v@[j].1@,
        decreases v.len() - i,
    {
        let id = v[i].0;
        let info = v[i].1.clone();
        r.push((id, info));
        i = i + 1;
    }
    proof {
        assert(agents_of(r@) =~= agents_of(v@));
    }
    r
}

impl WorldView {
    /// An owned snapshot of the pipeline's current state.
    fn new<C>(world: &World<C>) -> (r: WorldView)
        requires
            world.mask_wf(),
        ensures
            r.mask() == world.mask(),
            r.agents() == world.agents(),
            r.border() == world.border(),
            r.eat() == world.eat(),
            r.mask_wf(),
    {
        WorldView {
            world_mask: world.world_mask.clone(),
            snakes_info: clone_snakes_info(&world.snakes_info),
            border_points: clone_points(&world.border_points),
            eat_points: clone_points(&world.eat_points),
        }
    }
}

} // verus!

