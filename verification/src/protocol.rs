//! The byte protocol a network front-end speaks: direction requests from
//! players and flattened world frames to them.

use vstd::prelude::*;

use crate::direction::Direction;
use crate::point::Point;
use crate::spatial::ObjectType;

verus! {

/// The packet id under which a network player sends a direction request.
pub const DIRECTION_PACKET_ID: u8 = 199;

/// The packet id under which the server sends the flattened world state.
pub const WORLD_PACKET_ID: u8 = 200;

/// A decoded message from a network player.
#[derive(Debug, Clone, Copy, PartialEq, Eq, Structural)]
pub enum ClientPacket {
    Direction(Option<Direction>),
}

/// The direction a direction-request payload byte stands for.
pub open spec fn spec_direction_code(b: u8) -> Option<Direction> {
    if b == 1 {
        Some(Direction::Right)
    } else if b == 2 {
        Some(Direction::Left)
    } else if b == 3 {
        Some(Direction::Down)
    } else if b == 4 {
        Some(Direction::Up)
    } else {
        None
    }
}

impl ClientPacket {
    /// Decodes one client frame: the first byte is the packet id, the rest is
    /// the payload. Only direction requests are understood; an empty frame or
    /// an unknown id decodes to nothing.
    pub fn from_bytes(bytes: &Vec<u8>) -> (r: Option<ClientPacket>)
        ensures
            r == if bytes@.len() == 0 || bytes@[0] != DIRECTION_PACKET_ID {
                Option::<ClientPacket>::None
            } else if bytes@.len() >= 2 {
                Some(ClientPacket::Direction(spec_direction_code(bytes@[1])))
            } else {
                Some(ClientPacket::Direction(Option::<Direction>::None))
            },
    {
        if bytes.len() == 0 {
            return None;
        }
        if bytes[0] != DIRECTION_PACKET_ID {
            return None;
        }
        if bytes.len() >= 2 {
            let code = bytes[1];
            let d: Option<Direction> = if code == 1 {
                Some(Direction::Right)
            } else if code == 2 {
                Some(Direction::Left)
            } else if code == 3 {
                Some(Direction::Down)
            } else if code == 4 {
                Some(Direction::Up)
            } else {
                None
            };
            Some(ClientPacket::Direction(d))
        } else {
            Some(ClientPacket::Direction(None))
        }
    }
}

/// The wire code of one occupying object: border, any snake, food.
pub open spec fn spec_object_code(o: ObjectType) -> u8 {
    match o {
        ObjectType::Border => 0,
        ObjectType::Snake(_) => 1,
        ObjectType::Eat => 2,
    }
}

/// Encodes a flattened world listing as the server's world frame: the packet
/// id, then one three-byte cell per entry - x, y (each truncated to a byte;
/// sessions meant for the wire keep the grid within a byte) and the object
/// code.
#[verifier::loop_isolation(false)]
pub fn world_packet_bytes(map: &Vec<(Point, ObjectType)>) -> (r: Vec<u8>)
    ensures
        r@.len() == 1 + 3 * map@.len(),
        r@[0] == WORLD_PACKET_ID,
        forall|i: int| 0 <= i < map@.len() ==> {
            &&& r@[1 + 3 * i] == (#[trigger] map@[i]).0.x as u8
            &&& r@[2 + 3 * i] == map@[i].0.y as u8
            &&& r@[3 + 3 * i] == spec_object_code(map@[i].1)
        },
{
    let mut r: Vec<u8> = Vec::new();
    r.push(WORLD_PACKET_ID);
    let mut i: usize = 0;
    while i < map.len()
        invariant
            0 <= i <= map@.len(),
            r@.len() == 1 + 3 * i,
            r@[0] == WORLD_PACKET_ID,
            forall|j: int| 0 <= j < i ==> {
                &&& r@[1 + 3 * j] == (#[trigger] map@[j]).0.x as u8
                &&& r@[2 + 3 * j] == map@[j].0.y as u8
                &&& r@[3 + 3 * j] == spec_object_code(map@[j].1)
            },
        decreases map@.len() - i,
    {
        let p = map[i].0;
        #[verifier::truncate]
        let xb = p.x() as u8;
        #[verifier::truncate]
        let yb = p.y() as u8;
        r.push(xb);
        r.push(yb);
        let code: u8 = match map[i].1 {
            ObjectType::Border => 0,
            ObjectType::Snake(_) => 1,
            ObjectType::Eat => 2,
        };
        r.push(code);
        i = i + 1;
    }
    r
}

} // verus!
