use snake::direction::Direction;
use snake::point::Point;
use snake::protocol::ClientPacket;
use snake::protocol::world_packet_bytes;
use snake::spatial::ObjectType;
use snake::terminal::Terminal;
use snake::terminal::TerminalPixel;

#[test]
fn direction_packet_decodes_each_code() {
    assert_eq!(ClientPacket::from_bytes(&vec![]), None);
    assert_eq!(ClientPacket::from_bytes(&vec![7, 1]), None);
    assert_eq!(
        ClientPacket::from_bytes(&vec![199, 1]),
        Some(ClientPacket::Direction(Some(Direction::Right)))
    );
    assert_eq!(
        ClientPacket::from_bytes(&vec![199, 2]),
        Some(ClientPacket::Direction(Some(Direction::Left)))
    );
    assert_eq!(
        ClientPacket::from_bytes(&vec![199, 3]),
        Some(ClientPacket::Direction(Some(Direction::Down)))
    );
    assert_eq!(
        ClientPacket::from_bytes(&vec![199, 4]),
        Some(ClientPacket::Direction(Some(Direction::Up)))
    );
    assert_eq!(
        ClientPacket::from_bytes(&vec![199, 9]),
        Some(ClientPacket::Direction(None))
    );
    assert_eq!(
        ClientPacket::from_bytes(&vec![199]),
        Some(ClientPacket::Direction(None))
    );
}

#[test]
fn world_packet_lays_out_cells_as_triples() {
    let map = vec![
        (Point::new(0, 0), ObjectType::Border),
        (Point::new(3, 4), ObjectType::Snake(1)),
        (Point::new(7, 2), ObjectType::Eat),
    ];
    let bytes = world_packet_bytes(&map);
    assert_eq!(bytes, vec![200, 0, 0, 0, 3, 4, 1, 7, 2, 2]);
}

#[test]
fn world_packet_truncates_wide_coordinates() {
    let map = vec![(Point::new(258, 5), ObjectType::Eat)];
    let bytes = world_packet_bytes(&map);
    assert_eq!(bytes, vec![200, 2, 5, 2]);
}

#[test]
fn render_paints_fresh_frame_and_diffs_the_next() {
    let mut screen = Terminal::new();
    let frame1 = vec![(Point::new(1, 1), '#'), (Point::new(2, 1), 'o')];
    let writes = screen.render(&frame1);
    assert_eq!(writes, frame1);
    let frame2 = vec![(Point::new(1, 1), '#'), (Point::new(3, 1), 'x')];
    let writes = screen.render(&frame2);
    // the unchanged cell is skipped, the new cell painted, the stale blanked
    assert_eq!(writes, vec![(Point::new(3, 1), 'x'), (Point::new(2, 1), ' ')]);
}

#[test]
fn render_blanks_cells_the_frame_no_longer_covers() {
    let mut screen = Terminal::new();
    let _ = screen.render(&vec![(Point::new(5, 5), '@')]);
    let writes = screen.render(&vec![]);
    assert_eq!(writes, vec![(Point::new(5, 5), ' ')]);
    // and a cleared screen forgets everything: nothing left to blank
    let _ = screen.render(&vec![(Point::new(5, 5), '@')]);
    screen.clear();
    let writes = screen.render(&vec![]);
    assert_eq!(writes, vec![]);
}

struct Glyph(char);

impl TerminalPixel for Glyph {
    fn char(&self) -> char {
        self.0
    }
}

#[test]
fn pixels_translate_to_chars() {
    let cells = vec![(Point::new(0, 0), Glyph('#')), (Point::new(1, 0), Glyph('@'))];
    let chars: Vec<(Point, char)> = cells.iter().map(|(p, g)| (*p, g.char())).collect();
    let mut screen = Terminal::new();
    let writes = screen.render(&chars);
    assert_eq!(writes, vec![(Point::new(0, 0), '#'), (Point::new(1, 0), '@')]);
}
