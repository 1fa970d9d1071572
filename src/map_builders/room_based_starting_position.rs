//! Starting position: the centre of the first room.

use crate::components::Position;
use crate::map_builders::rect::half;
use crate::map_builders::{BuildError, MapBuilder};
use vstd::prelude::*;

verus! {

pub struct RoomBasedStartingPosition;

impl RoomBasedStartingPosition {
    /// Sets the starting position to the centre of the first room. Fails, changing nothing,
    /// when there are no rooms.
    pub fn build_map(&self, build_data: &mut MapBuilder) -> (r: Result<(), BuildError>)
        requires
            old(build_data).wf(),
        ensures
            final(build_data).wf(),
            final(build_data).map == old(build_data).map,
            final(build_data).rooms == old(build_data).rooms,
            final(build_data).spawn_list == old(build_data).spawn_list,
            match old(build_data).rooms {
                Some(rs) if rs@.len() > 0 => r.is_ok() && final(build_data).starting_position == Some(
                    Position {
                        x: half(rs@[0].x1 + rs@[0].x2) as u32,
                        y: half(rs@[0].y1 + rs@[0].y2) as u32,
                    },
                ),
                _ => r == Err::<(), BuildError>(BuildError::MissingRooms)
                    && final(build_data).starting_position == old(build_data).starting_position,
            },
    {
        let (x, y) = match &build_data.rooms {
            Some(rooms) => {
                if rooms.len() == 0 {
                    return Err(BuildError::MissingRooms);
                }
                assert(crate::map_builders::room_fits(rooms@[0], build_data.map.width as int, build_data.map.height as int));
                rooms[0].center()
            },
            None => {
                return Err(BuildError::MissingRooms);
            },
        };
        build_data.starting_position = Some(Position { x: x as u32, y: y as u32 });
        Ok(())
    }
}

} // verus!
