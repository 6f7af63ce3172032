use snake::direction::Direction;
use snake::node::Node;
use snake::point::Point;
use snake::snake::Snake;
use snake::spatial::ObjectType;
use snake::spatial::World as SpatialWorld;

#[test]
fn direction_reverse_maps_each_axis() {
    assert_eq!(Direction::Right.reverse(), Direction::Left);
    assert_eq!(Direction::Left.reverse(), Direction::Right);
    assert_eq!(Direction::Down.reverse(), Direction::Up);
    assert_eq!(Direction::Up.reverse(), Direction::Down);
}

#[test]
fn point_accessors_return_coordinates() {
    let p = Point::new(7, 11);
    assert_eq!(p.x(), 7);
    assert_eq!(p.y(), 11);
    assert_eq!(p, Point::new(7, 11));
    assert_ne!(p, Point::new(11, 7));
}

#[test]
fn node_chain_collects_values_in_order() {
    let mut head = Node::new(Point::new(1, 1));
    let mut second = Node::new(Point::new(2, 1));
    second.set_next_node(Some(Box::new(Node::new(Point::new(3, 1)))));
    head.set_next_node(Some(Box::new(second)));
    let values = head.all_nodes_values();
    assert_eq!(values, vec![Point::new(1, 1), Point::new(2, 1), Point::new(3, 1)]);
    assert_eq!(head.get_value(), Point::new(1, 1));
    head.set_value(Point::new(9, 9));
    assert_eq!(head.get_value(), Point::new(9, 9));
    assert!(head.get_next_node().is_some());
}

#[test]
fn node_chain_mutates_through_next_handle() {
    let mut head = Node::new(Point::new(1, 1));
    head.set_next_node(Some(Box::new(Node::new(Point::new(2, 1)))));
    match head.get_next_node_mut() {
        Some(next) => next.set_value(Point::new(5, 5)),
        None => panic!("chain lost its tail"),
    }
    assert_eq!(head.all_nodes_values(), vec![Point::new(1, 1), Point::new(5, 5)]);
    let mut lone = Node::new(Point::new(0, 0));
    assert!(lone.get_next_node_mut().is_none());
}

#[test]
fn node_chain_walks_by_index() {
    let mut head = Node::new(Point::new(1, 1));
    let mut second = Node::new(Point::new(2, 1));
    second.set_next_node(Some(Box::new(Node::new(Point::new(3, 1)))));
    head.set_next_node(Some(Box::new(second)));
    assert_eq!(head.value_at(0), Point::new(1, 1));
    assert_eq!(head.value_at(1), Point::new(2, 1));
    assert_eq!(head.value_at(2), Point::new(3, 1));
    // visit and rewrite every node through the index-based walk
    for i in 0..3u16 {
        let p = head.value_at(i as usize);
        head.set_value_at(i as usize, Point::new(p.x() + 10, p.y()));
    }
    assert_eq!(
        head.all_nodes_values(),
        vec![Point::new(11, 1), Point::new(12, 1), Point::new(13, 1)]
    );
}

#[test]
fn snake_starts_as_single_segment() {
    let s = Snake::new(Point::new(4, 4));
    assert_eq!(s.head_point(), Point::new(4, 4));
    assert_eq!(s.body_parts_points(true), vec![Point::new(4, 4)]);
    assert_eq!(s.body_parts_points(false), Vec::<Point>::new());
    let m = Snake::make_on(Point::new(2, 2));
    assert_eq!(m.head_point(), Point::new(2, 2));
}

#[test]
fn next_head_point_translates_one_cell() {
    let s = Snake::new(Point::new(5, 5));
    assert_eq!(s.next_head_point(Direction::Right), Point::new(6, 5));
    assert_eq!(s.next_head_point(Direction::Left), Point::new(4, 5));
    assert_eq!(s.next_head_point(Direction::Down), Point::new(5, 6));
    assert_eq!(s.next_head_point(Direction::Up), Point::new(5, 4));
}

#[test]
fn move_keeps_length_without_growth() {
    let mut s = Snake::new(Point::new(5, 5));
    s.fill_stomach_if_empty();
    s.move_to(Direction::Right);
    s.fill_stomach_if_empty();
    s.move_to(Direction::Right);
    assert_eq!(s.body_parts_points(true).len(), 3);
    s.move_to(Direction::Down);
    let body = s.body_parts_points(true);
    assert_eq!(body.len(), 3);
    assert_eq!(body, vec![Point::new(7, 6), Point::new(7, 5), Point::new(6, 5)]);
}

#[test]
fn move_grows_by_one_when_stomach_armed() {
    let mut s = Snake::new(Point::new(5, 5));
    s.fill_stomach_if_empty();
    s.move_to(Direction::Right);
    let body = s.body_parts_points(true);
    assert_eq!(body.len(), 2);
    assert_eq!(body, vec![Point::new(6, 5), Point::new(5, 5)]);
    // the flag is consumed: the next move does not grow again
    s.move_to(Direction::Right);
    assert_eq!(s.body_parts_points(true).len(), 2);
}

#[test]
fn remove_tail_cuts_before_first_match() {
    let mut s = Snake::new(Point::new(3, 3));
    for _ in 0..4 {
        s.fill_stomach_if_empty();
        s.move_to(Direction::Right);
    }
    // body: (7,3) (6,3) (5,3) (4,3) (3,3)
    assert_eq!(s.body_parts_points(true).len(), 5);
    let cut = s.remove_tail(Point::new(5, 3));
    assert!(cut);
    let body = s.body_parts_points(true);
    // the matching node and everything after it are gone; the new tail is
    // the node just before the cut
    assert_eq!(body, vec![Point::new(7, 3), Point::new(6, 3)]);
    assert_eq!(body.len(), 2);
}

#[test]
fn remove_tail_ignores_head_and_misses() {
    let mut s = Snake::new(Point::new(3, 3));
    s.fill_stomach_if_empty();
    s.move_to(Direction::Right);
    // body: (4,3) (3,3); the head's own value is never a cut point
    let cut_head = s.remove_tail(Point::new(4, 3));
    assert!(!cut_head);
    assert_eq!(s.body_parts_points(true).len(), 2);
    let cut_miss = s.remove_tail(Point::new(9, 9));
    assert!(!cut_miss);
    assert_eq!(s.body_parts_points(true).len(), 2);
    let mut r = Snake::new(Point::new(3, 3));
    r.recursive_remove_tail(Point::new(3, 3));
    assert_eq!(r.body_parts_points(true).len(), 1);
}

#[test]
fn spatial_index_answers_occurrences() {
    let mut w = SpatialWorld::new();
    w.set_layer(ObjectType::Border, vec![Point::new(0, 0), Point::new(1, 0)]);
    w.set_layer(ObjectType::Snake(0), vec![Point::new(1, 0), Point::new(1, 1)]);
    w.set_layer(ObjectType::Eat, vec![Point::new(5, 5)]);
    let occ = w.point_occurrences(&Point::new(1, 0));
    assert_eq!(occ.len(), 2);
    assert!(occ.contains(&ObjectType::Border));
    assert!(occ.contains(&ObjectType::Snake(0)));
    assert_eq!(w.point_occurrences(&Point::new(9, 9)).len(), 0);
    let eat_occ = w.point_occurrences(&Point::new(5, 5));
    assert_eq!(eat_occ, vec![ObjectType::Eat]);
}

#[test]
fn spatial_index_replaces_and_removes_layers() {
    let mut w = SpatialWorld::new();
    w.set_layer(ObjectType::Snake(1), vec![Point::new(2, 2)]);
    w.set_layer(ObjectType::Snake(1), vec![Point::new(3, 3)]);
    assert_eq!(w.point_occurrences(&Point::new(2, 2)).len(), 0);
    assert_eq!(w.point_occurrences(&Point::new(3, 3)), vec![ObjectType::Snake(1)]);
    w.remove_layer(&ObjectType::Snake(1));
    assert_eq!(w.point_occurrences(&Point::new(3, 3)).len(), 0);
    // removing an absent layer is a no-op
    w.remove_layer(&ObjectType::Eat);
    w.set_layer(ObjectType::Eat, vec![Point::new(4, 4)]);
    w.remove_all_layers();
    assert_eq!(w.point_occurrences(&Point::new(4, 4)).len(), 0);
}

#[test]
fn generate_map_covers_every_occupied_point_once() {
    let mut w = SpatialWorld::new();
    w.set_layer(ObjectType::Border, vec![Point::new(0, 0), Point::new(1, 0)]);
    w.set_layer(ObjectType::Eat, vec![Point::new(1, 0), Point::new(2, 2)]);
    let map = w.generate_map();
    assert_eq!(map.len(), 3);
    let mut points: Vec<Point> = map.iter().map(|e| e.0).collect();
    points.sort_by_key(|p| (p.x(), p.y()));
    assert_eq!(points, vec![Point::new(0, 0), Point::new(1, 0), Point::new(2, 2)]);
    for (p, k) in &map {
        if *p == Point::new(2, 2) {
            assert_eq!(*k, ObjectType::Eat);
        }
        if *p == Point::new(0, 0) {
            assert_eq!(*k, ObjectType::Border);
        }
    }
}
