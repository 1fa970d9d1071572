//! Spawning monsters and items in every room but the first.

use crate::components::Position;
use crate::map_builders::common::in_room;
use crate::map_builders::rect::Rect;
use crate::map_builders::spawner::{known_name, raws_ready, spawn_room};
use crate::map_builders::{room_fits, BuildError, MapBuilder};
use crate::raws::RawManager;
use vstd::prelude::*;

verus! {

/// Most monsters spawned in one room.
pub const MAX_MONSTERS: u32 = 3;

/// Most items spawned in one room.
pub const MAX_ITEMS: u32 = 4;

pub struct RoomBasedSpawner;

/// Each entry from index `from` on lies inside one of the rooms `1..k`.
pub open spec fn inside_rooms(from: int, entries: Seq<(Position, String)>, rooms: Seq<Rect>, k: int) -> bool {
    forall|j: int|
        #![trigger entries[j]]
        from <= j < entries.len() ==> exists|r: int|
            1 <= r < k && in_room(#[trigger] rooms[r], entries[j].0.x as int, entries[j].0.y as int)
}

/// The entries from index `from` on number at least two per room but the first, and each lies
/// inside a room other than the first.
pub open spec fn spawned_in_rooms(from: int, entries: Seq<(Position, String)>, rooms: Seq<Rect>) -> bool {
    &&& rooms.len() >= 1 ==> entries.len() >= from + 2 * (rooms.len() - 1)
    &&& inside_rooms(from, entries, rooms, rooms.len() as int)
}

impl RoomBasedSpawner {
    /// Fills every room but the first with monsters and items (see `spawn_room`). Fails,
    /// changing nothing, when there are no rooms.
    pub fn build_map(&self, build_data: &mut MapBuilder, raws: &RawManager) -> (r: Result<(), BuildError>)
        requires
            old(build_data).wf(),
            raws_ready(raws),
        ensures
            final(build_data).wf(),
            final(build_data).map == old(build_data).map,
            final(build_data).rooms == old(build_data).rooms,
            final(build_data).starting_position == old(build_data).starting_position,
            old(build_data).rooms.is_none() ==> r == Err::<(), BuildError>(BuildError::MissingRooms)
                && final(build_data).spawn_list == old(build_data).spawn_list,
            old(build_data).rooms.is_some() ==> r.is_ok(),
            final(build_data).spawn_list@.subrange(0, old(build_data).spawn_list@.len() as int)
                == old(build_data).spawn_list@,
            forall|k: int|
                old(build_data).spawn_list@.len() <= k < final(build_data).spawn_list@.len()
                    ==> known_name(raws, (#[trigger] final(build_data).spawn_list@[k]).1@),
            old(build_data).rooms.is_some() ==> spawned_in_rooms(
                old(build_data).spawn_list@.len() as int,
                final(build_data).spawn_list@,
                old(build_data).rooms.unwrap()@,
            ),
    {
        let rooms = match &build_data.rooms {
            Some(rooms) => rooms,
            None => {
                return Err(BuildError::MissingRooms);
            },
        };
        if rooms.len() == 0 {
            return Ok(());
        }
        let ghost start = build_data.spawn_list@;
        let w = build_data.map.width;
        let h = build_data.map.height;
        let mut k: usize = 1;
        while k < rooms.len()
            invariant
                1 <= k,
                build_data.map == old(build_data).map,
                build_data.rooms == old(build_data).rooms,
                build_data.starting_position == old(build_data).starting_position,
                build_data.rooms == Some(*rooms),
                old(build_data).wf(),
                w == build_data.map.width,
                h == build_data.map.height,
                raws_ready(raws),
                start == old(build_data).spawn_list@,
                build_data.spawn_list@.len() >= start.len(),
                build_data.spawn_list@.subrange(0, start.len() as int) == start,
                forall|j: int|
                    0 <= j < build_data.spawn_list@.len() ==> build_data.map.in_bounds(
                        (#[trigger] build_data.spawn_list@[j]).0.x as int,
                        build_data.spawn_list@[j].0.y as int,
                    ),
                forall|j: int|
                    start.len() <= j < build_data.spawn_list@.len() ==> known_name(
                        raws,
                        (#[trigger] build_data.spawn_list@[j]).1@,
                    ),
                k <= rooms@.len(),
                build_data.spawn_list@.len() >= start.len() + 2 * (k - 1),
                inside_rooms(start.len() as int, build_data.spawn_list@, rooms@, k as int),
            decreases rooms@.len() - k,
        {
            let room = &rooms[k];
            assert(old(build_data).rooms.unwrap()@[k as int] == rooms@[k as int]);
            assert(room_fits(old(build_data).rooms.unwrap()@[k as int], w as int, h as int));
            let ghost before = build_data.spawn_list@;
            spawn_room(&mut build_data.spawn_list, room, MAX_MONSTERS, MAX_ITEMS, raws);
            proof {
                let after = build_data.spawn_list@;
                let fresh = after.subrange(before.len() as int, after.len() as int);
                assert forall|j: int| 0 <= j < after.len() implies build_data.map.in_bounds(
                    (#[trigger] after[j]).0.x as int,
                    after[j].0.y as int,
                ) && (start.len() <= j ==> known_name(raws, after[j].1@)) by {
                    if j < before.len() {
                        assert(after.subrange(0, before.len() as int)[j] == after[j]);
                    } else {
                        assert(fresh[j - before.len()] == after[j]);
                        assert(in_room(*room, after[j].0.x as int, after[j].0.y as int));
                    }
                }
                assert forall|j: int|
                    #![trigger after[j]]
                    start.len() <= j < after.len() implies exists|r: int|
                        1 <= r < k + 1 && in_room(#[trigger] rooms@[r], after[j].0.x as int, after[j].0.y as int) by {
                    if j < before.len() {
                        assert(after.subrange(0, before.len() as int)[j] == after[j]);
                        let r = choose|r: int| 1 <= r < k && in_room(#[trigger] rooms@[r], before[j].0.x as int, before[j].0.y as int);
                        assert(in_room(rooms@[r], after[j].0.x as int, after[j].0.y as int));
                    } else {
                        assert(fresh[j - before.len()] == after[j]);
                        assert(in_room(rooms@[k as int], after[j].0.x as int, after[j].0.y as int));
                    }
                }
                assert(after.subrange(0, start.len() as int) =~= after.subrange(0, before.len() as int).subrange(0, start.len() as int));
            }
            k = k + 1;
        }
        proof {
            let rs = old(build_data).rooms.unwrap()@;
            assert(rooms@ == rs);
            if rooms@.len() >= 1 {
                assert(k == rooms@.len());
                assert(inside_rooms(start.len() as int, build_data.spawn_list@, rs, rs.len() as int));

            }
        }
        Ok(())
    }
}

} // verus!
