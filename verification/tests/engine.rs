use snake::direction::Direction;
use snake::point::Point;
use snake::spatial::ObjectType;
use snake::world::Config;
use snake::world::CreateError;
use snake::world::SnakeController;
use snake::world::SnakeInfo;
use snake::world::World;
use snake::world::WorldView;

/// Feeds a fixed direction script to the pipeline, repeating the last entry.
struct ScriptController {
    dirs: Vec<Direction>,
    step: usize,
}

impl ScriptController {
    fn new(dirs: Vec<Direction>) -> Self {
        Self { dirs, step: 0 }
    }
}

impl SnakeController for ScriptController {
    fn snake_will_burn(&mut self, _world_view: &WorldView) {}
    fn snake_did_burn(&mut self, _self_info: &SnakeInfo, _world_view: &WorldView) {}
    fn snake_will_move(&mut self, _self_info: &SnakeInfo, _world_view: &WorldView) -> Direction {
        let d = if self.step < self.dirs.len() {
            self.dirs[self.step]
        } else {
            self.dirs[self.dirs.len() - 1]
        };
        self.step += 1;
        d
    }
    fn snake_did_move(&mut self, _self_info: &SnakeInfo, _world_view: &WorldView) {}
    fn snake_will_eat(&mut self, _good_eat: bool, _self_info: &SnakeInfo, _world_view: &WorldView) {}
    fn snake_did_eat(&mut self, _good_eat: bool, _self_info: &SnakeInfo, _world_view: &WorldView) {}
    fn snake_will_died(&mut self, _self_info: &SnakeInfo, _world_view: &WorldView) {}
    fn snake_did_died(&mut self, _world_view: &WorldView) {}
}

fn config(
    w: u16,
    h: u16,
    eat: u16,
    cut_tails: bool,
    tail: usize,
    scripts: Vec<Vec<Direction>>,
) -> Config<ScriptController> {
    Config {
        world_size: (w, h),
        eat_count: eat,
        cut_tails,
        base_snake_tail_size: tail,
        snakes_controllers: scripts.into_iter().map(ScriptController::new).collect(),
    }
}

fn body_of(view: &WorldView, id: usize) -> Vec<Point> {
    for (sid, info) in view.get_snakes_info() {
        if *sid == id {
            return info.get_snake().body_parts_points(true);
        }
    }
    panic!("agent not found");
}

#[test]
fn creation_rejects_each_violated_bound() {
    let r = World::new(config(9, 10, 3, false, 0, vec![vec![Direction::Right]]));
    assert!(matches!(r, Err(CreateError::WorldSmall)));
    let r = World::new(config(10, 9, 3, false, 0, vec![vec![Direction::Right]]));
    assert!(matches!(r, Err(CreateError::WorldSmall)));
    let r = World::new(config(1001, 10, 3, false, 0, vec![vec![Direction::Right]]));
    assert!(matches!(r, Err(CreateError::WorldLarge)));
    let r = World::new(config(50, 50, 0, false, 3, vec![vec![Direction::Right]]));
    assert!(matches!(r, Err(CreateError::FoodLack)));
    let r = World::new(config(50, 50, 101, false, 3, vec![vec![Direction::Right]]));
    assert!(matches!(r, Err(CreateError::FoodExcess)));
    let r = World::new(config(50, 50, 3, false, 3, vec![]));
    assert!(matches!(r, Err(CreateError::TooFewControllers)));
    let r = World::new(config(50, 12, 3, false, 3, vec![
        vec![Direction::Right],
        vec![Direction::Right],
        vec![Direction::Right],
    ]));
    assert!(matches!(r, Err(CreateError::TooManyControllers)));
    let r = World::new(config(20, 20, 3, false, 12, vec![vec![Direction::Right]]));
    assert!(matches!(r, Err(CreateError::TooLargeSnakeTail)));
    let r = World::new(config(20, 20, 3, false, 11, vec![vec![Direction::Right]]));
    assert!(r.is_ok());
}

#[test]
fn reset_places_bodies_inside_and_disjoint() {
    let mut world = World::new(config(
        30,
        30,
        3,
        false,
        4,
        vec![vec![Direction::Right], vec![Direction::Right], vec![Direction::Right]],
    ))
    .unwrap_or_else(|_| panic!("valid config rejected"));
    let view = world.tick(true);
    let infos = view.get_snakes_info();
    assert_eq!(infos.len(), 3);
    let mut all_points: Vec<Point> = Vec::new();
    for (_, info) in infos {
        for p in info.get_snake().body_parts_points(true) {
            assert!(p.x() >= 1 && p.x() <= 28, "body on or past the border ring");
            assert!(p.y() >= 1 && p.y() <= 28, "body on or past the border ring");
            assert!(!all_points.contains(&p), "two bodies share a point");
            all_points.push(p);
        }
    }
}

#[test]
fn head_advances_and_vacated_tail_cell_empties() {
    // a single length-3 snake heading right in the open: each tick the head
    // advances one cell and the vacated tail cell holds nothing at all
    let mut world = World::new(config(20, 20, 1, false, 2, vec![vec![Direction::Right]]))
        .unwrap_or_else(|_| panic!("valid config rejected"));
    let view = world.tick(true);
    assert_eq!(
        body_of(&view, 0),
        vec![Point::new(6, 3), Point::new(5, 3), Point::new(4, 3)]
    );
    let view = world.tick(false);
    assert_eq!(
        body_of(&view, 0),
        vec![Point::new(7, 3), Point::new(6, 3), Point::new(5, 3)]
    );
    let vacated = view.get_world_mask().point_occurrences(&Point::new(4, 3));
    // the cell left the agent's layer entirely; in the rare run where the
    // respawn pass drops fresh food exactly there, only the food layer shows
    if view.get_eat_points().contains(&Point::new(4, 3)) {
        assert_eq!(vacated, vec![ObjectType::Eat]);
    } else {
        assert_eq!(vacated.len(), 0);
    }
}

#[test]
fn reversal_into_own_neck_keeps_committed_direction() {
    // moving right with a tail, a request to go left is ignored
    let mut world = World::new(config(
        30,
        20,
        1,
        false,
        3,
        vec![vec![Direction::Right, Direction::Left, Direction::Left]],
    ))
    .unwrap_or_else(|_| panic!("valid config rejected"));
    let view = world.tick(true);
    assert_eq!(body_of(&view, 0)[0], Point::new(7, 3));
    let view = world.tick(false);
    // the reversal request was rejected: still moving right
    assert_eq!(body_of(&view, 0)[0], Point::new(8, 3));
    let view = world.tick(false);
    assert_eq!(body_of(&view, 0)[0], Point::new(9, 3));
}

#[test]
fn lone_segment_may_reverse_freely() {
    let mut world = World::new(config(
        20,
        20,
        1,
        false,
        0,
        vec![vec![Direction::Right, Direction::Left]],
    ))
    .unwrap_or_else(|_| panic!("valid config rejected"));
    let view = world.tick(true);
    assert_eq!(body_of(&view, 0), vec![Point::new(4, 3)]);
    let view = world.tick(false);
    // a tail-less snake may turn straight around
    assert_eq!(body_of(&view, 0), vec![Point::new(3, 3)]);
}

#[test]
fn head_swap_removes_both_crossing_snakes() {
    // two length-one snakes close head-on: they would pass through each
    // other without ever sharing a cell, and both must die on that tick
    let mut world = World::new(config(
        20,
        20,
        1,
        false,
        0,
        vec![vec![Direction::Down], vec![Direction::Up]],
    ))
    .unwrap_or_else(|_| panic!("valid config rejected"));
    let view = world.tick(true);
    // now adjacent at (3,4) and (3,5), both alive
    assert_eq!(view.get_snakes_info().len(), 2);
    assert_eq!(body_of(&view, 0), vec![Point::new(3, 4)]);
    assert_eq!(body_of(&view, 1), vec![Point::new(3, 5)]);
    let view = world.tick(false);
    assert_eq!(view.get_snakes_info().len(), 0);
}

#[test]
fn border_touch_is_fatal() {
    let mut world = World::new(config(12, 20, 1, false, 1, vec![vec![Direction::Right]]))
        .unwrap_or_else(|_| panic!("valid config rejected"));
    // the head stands at x = 5 after the reset tick; the ring is at x = 11
    let view = world.tick(true);
    assert_eq!(body_of(&view, 0)[0], Point::new(5, 3));
    let mut survived = 0;
    for _ in 0..7 {
        let view = world.tick(false);
        if view.get_snakes_info().len() == 1 {
            survived += 1;
        }
    }
    // x reaches the ring on the sixth common tick and the snake dies then
    assert_eq!(survived, 5);
}

#[test]
fn food_count_is_restored_every_tick() {
    let mut world = World::new(config(20, 20, 5, false, 1, vec![vec![Direction::Right]]))
        .unwrap_or_else(|_| panic!("valid config rejected"));
    let view = world.tick(true);
    assert_eq!(view.get_eat_points().len(), 5);
    for _ in 0..5 {
        let view = world.tick(false);
        assert_eq!(view.get_eat_points().len(), 5);
        for p in view.get_eat_points() {
            assert!(p.x() >= 1 && p.x() <= 18 && p.y() >= 1 && p.y() <= 18);
            let occ = view.get_world_mask().point_occurrences(p);
            assert_eq!(occ, vec![ObjectType::Eat], "food overlaps something");
        }
    }
}

#[test]
fn cross_overlap_without_cut_tails_kills_the_arriving_snake() {
    // agent 0 dives into agent 1's trailing body while tails are not cut
    let mut world = World::new(config(
        50,
        50,
        1,
        false,
        3,
        vec![vec![Direction::Down], vec![Direction::Right]],
    ))
    .unwrap_or_else(|_| panic!("valid config rejected"));
    let _ = world.tick(true);
    let view = world.tick(false);
    assert_eq!(view.get_snakes_info().len(), 2);
    let view = world.tick(false);
    // agent 0's head lands on (6,6), still covered by agent 1's tail. The
    // overlap is fatal, and it cuts both ways: the shared cell is also a
    // body point of agent 1 occupied by agent 0's layer, so both die
    assert_eq!(view.get_snakes_info().len(), 0);
}

#[test]
fn bite_truncates_victim_and_grows_biter() {
    // the same dive with cut_tails on: the victim is truncated at the bitten
    // point, the biter grows on its next move, and the layers reflect it
    let mut world = World::new(config(
        50,
        50,
        1,
        true,
        3,
        vec![vec![Direction::Down], vec![Direction::Right]],
    ))
    .unwrap_or_else(|_| panic!("valid config rejected"));
    let _ = world.tick(true);
    let _ = world.tick(false);
    let view = world.tick(false);
    let infos = view.get_snakes_info();
    assert_eq!(infos.len(), 2);
    // victim: the head-first prefix before the bitten cell remains
    let victim = body_of(&view, 1);
    assert_eq!(victim.len(), 3);
    assert!(!victim.contains(&Point::new(6, 6)));
    // the bitten cell now belongs to the biter alone
    let occ = view.get_world_mask().point_occurrences(&Point::new(6, 6));
    assert_eq!(occ, vec![ObjectType::Snake(0)]);
    let biter_len_now = body_of(&view, 0).len();
    let view = world.tick(false);
    // the armed stomach is consumed by exactly one extra segment
    assert_eq!(body_of(&view, 0).len(), biter_len_now + 1);
}

#[test]
fn food_fills_every_free_cell_when_target_exceeds_space() {
    // an 8-by-8 interior holds 64 cells and the snake covers 2 of them, so a
    // target of 100 food can only ever fill the 62 free cells; the count
    // settles there and stays, tick after tick
    let mut world = World::new(config(10, 10, 100, false, 1, vec![vec![Direction::Right]]))
        .unwrap_or_else(|_| panic!("valid config rejected"));
    let view = world.tick(true);
    assert_eq!(view.get_eat_points().len(), 62);
    let view = world.tick(false);
    assert_eq!(view.get_eat_points().len(), 62);
}

#[test]
fn mutual_head_on_meeting_with_cut_tails_kills_both() {
    // agents 0 and 2 steer onto the same cell in the same tick while agent 1
    // wanders off; the mutual head-on meeting kills exactly the two of them
    let mut world = World::new(config(
        20,
        20,
        1,
        true,
        0,
        vec![vec![Direction::Down], vec![Direction::Right], vec![Direction::Up]],
    ))
    .unwrap_or_else(|_| panic!("valid config rejected"));
    let view = world.tick(true);
    assert_eq!(view.get_snakes_info().len(), 3);
    let view = world.tick(false);
    assert_eq!(view.get_snakes_info().len(), 3);
    assert_eq!(body_of(&view, 0)[0], Point::new(3, 5));
    assert_eq!(body_of(&view, 2)[0], Point::new(3, 7));
    let view = world.tick(false);
    // both heads land on (3,6)
    let infos = view.get_snakes_info();
    assert_eq!(infos.len(), 1);
    assert_eq!(infos[0].0, 1);
}
