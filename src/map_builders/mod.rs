//! Level generation: an initial builder lays the map out, then meta builders refine it.

pub mod area_starting_position;
pub mod bsp_dungeon;
pub mod cellular_automata;
pub mod common;
pub mod cull_unreachable;
pub mod drunkard;
pub mod rect;
pub mod room_based_spawner;
pub mod room_based_starting_position;
pub mod simple_map;
pub mod spawner;

use crate::components::Position;
use crate::map::GameMap;
use vstd::prelude::*;

pub use self::area_starting_position::{AreaStartingPosition, XStart, YStart};
pub use self::bsp_dungeon::BspDungeon;
pub use self::cellular_automata::CellularAutomata;
pub use self::cull_unreachable::CullUnreachable;
pub use self::drunkard::{DrunkardSpawnMode, DrunkardsWalk};
pub use self::rect::Rect;
pub use self::room_based_spawner::RoomBasedSpawner;
pub use self::room_based_starting_position::RoomBasedStartingPosition;
pub use self::simple_map::SimpleMap;

verus! {

/// A room fits the map when it has an interior and its edges lie within the map.
pub open spec fn room_fits(r: Rect, width: int, height: int) -> bool {
    &&& 0 <= r.x1
    &&& r.x1 + 2 <= r.x2 <= width
    &&& 0 <= r.y1
    &&& r.y1 + 2 <= r.y2 <= height
}

/// A chain of builders that is assembled wrongly: a builder needs what no earlier one provided.
#[derive(Debug, Clone, Copy, PartialEq, Eq, Structural)]
pub enum BuildError {
    /// A builder needs rooms, and none were laid out.
    MissingRooms,
    /// A builder needs a starting position, and none was set.
    MissingStartingPosition,
}

/// The state that the builders of a chain work on in turn.
pub struct MapBuilder {
    pub map: GameMap,
    pub starting_position: Option<Position>,
    pub rooms: Option<Vec<Rect>>,
    /// Entities to create once the map is done: where, and the name of their definition.
    pub spawn_list: Vec<(Position, String)>,
}

impl MapBuilder {
    /// The map is well formed, and every position and room lies on it.
    pub open spec fn wf(&self) -> bool {
        &&& self.map.wf()
        &&& match self.starting_position {
            Some(p) => self.map.in_bounds(p.x as int, p.y as int),
            None => true,
        }
        &&& match self.rooms {
            Some(rs) => forall|k: int|
                0 <= k < rs@.len() ==> room_fits(
                    #[trigger] rs@[k],
                    self.map.width as int,
                    self.map.height as int,
                ),
            None => true,
        }
        &&& forall|k: int|
            0 <= k < self.spawn_list@.len() ==> self.map.in_bounds(
                (#[trigger] self.spawn_list@[k]).0.x as int,
                self.spawn_list@[k].0.y as int,
            )
    }

    /// A fresh state: an all-wall map, and nothing else yet.
    pub fn new(width: u32, height: u32, depth: i32) -> (r: MapBuilder)
        requires
            width as int * height as int <= usize::MAX,
        ensures
            r.wf(),
            r.map.width == width,
            r.map.height == height,
            r.map.depth == depth,
            r.starting_position.is_none(),
            r.rooms.is_none(),
            r.spawn_list@.len() == 0,
    {
        MapBuilder {
            map: GameMap::new(width, height, depth),
            starting_position: None,
            rooms: None,
            spawn_list: Vec::new(),
        }
    }
}


/// The builder that lays out the first version of a map.
pub enum InitialBuilder {
    Simple(SimpleMap),
    Bsp(BspDungeon),
    Cellular(CellularAutomata),
    Drunkard(DrunkardsWalk),
}

/// A builder that refines the state left by the builders before it.
pub enum MetaBuilder {
    AreaStartingPosition(AreaStartingPosition),
    CullUnreachable(CullUnreachable),
    RoomBasedStartingPosition(RoomBasedStartingPosition),
    RoomBasedSpawner(RoomBasedSpawner),
}

impl InitialBuilder {
    /// Whether the builder can work on a map of this size.
    pub open spec fn ready(&self, width: int, height: int) -> bool {
        match self {
            InitialBuilder::Simple(_) => width <= i32::MAX && height <= i32::MAX,
            InitialBuilder::Bsp(_) => width <= bsp_dungeon::COORD_LIMIT && height <= bsp_dungeon::COORD_LIMIT,
            InitialBuilder::Cellular(_) => true,
            InitialBuilder::Drunkard(d) => d.floor_percent <= 100 && (d.spawn_mode == DrunkardSpawnMode::Random
                ==> width >= 4 && height >= 4),
        }
    }
}

impl MetaBuilder {
    /// Whether the builder can work with this registry of definitions.
    pub open spec fn ready(&self, raws: &crate::raws::RawManager) -> bool {
        match self {
            MetaBuilder::RoomBasedSpawner(_) => spawner::raws_ready(raws),
            _ => true,
        }
    }
}

/// A chain of builders: one initial builder, then meta builders in order, all working on the
/// same state.
pub struct MapBuilderChain {
    pub starter: InitialBuilder,
    pub builders: Vec<MetaBuilder>,
    pub build_data: MapBuilder,
}

impl MapBuilderChain {
    /// A chain for a map of the given size and depth with only its initial builder.
    pub fn new(width: u32, height: u32, depth: i32, starter: InitialBuilder) -> (r: MapBuilderChain)
        requires
            width as int * height as int <= usize::MAX,
        ensures
            r.starter == starter,
            r.builders@.len() == 0,
            r.build_data.wf(),
            r.build_data.map.width == width,
            r.build_data.map.height == height,
            r.build_data.map.depth == depth,
            r.build_data.starting_position.is_none(),
            r.build_data.rooms.is_none(),
            r.build_data.spawn_list@.len() == 0,
    {
        MapBuilderChain { starter, builders: Vec::new(), build_data: MapBuilder::new(width, height, depth) }
    }

    /// The chain with `builder` appended.
    pub fn with(self, builder: MetaBuilder) -> (r: MapBuilderChain)
        ensures
            r.starter == self.starter,
            r.builders@ == self.builders@.push(builder),
            r.build_data == self.build_data,
    {
        let mut s = self;
        s.builders.push(builder);
        s
    }

    /// Whether the chain holds a meta builder that needs rooms.
    pub open spec fn needs_rooms(&self) -> bool {
        exists|k: int|
            0 <= k < self.builders@.len() && (#[trigger] self.builders@[k] is RoomBasedStartingPosition
                || self.builders@[k] is RoomBasedSpawner)
    }

    /// Whether the chain holds a meta builder that needs a starting position.
    pub open spec fn needs_start(&self) -> bool {
        exists|k: int| 0 <= k < self.builders@.len() && #[trigger] self.builders@[k] is CullUnreachable
    }

    /// Runs the initial builder, then each meta builder in order, all on `build_data`, whose map
    /// is the finished map. Fails with the first meta builder that needs rooms or a starting
    /// position that no earlier step provided; a chain without meta builders always succeeds.
    pub fn build_map(&mut self, raws: &crate::raws::RawManager) -> (r: Result<(), BuildError>)
        requires
            old(self).build_data.wf(),
            old(self).starter.ready(old(self).build_data.map.width as int, old(self).build_data.map.height as int),
            forall|k: int| 0 <= k < old(self).builders@.len() ==> (#[trigger] old(self).builders@[k]).ready(raws),
        ensures
            final(self).build_data.wf(),
            final(self).build_data.map.width == old(self).build_data.map.width,
            final(self).build_data.map.height == old(self).build_data.map.height,
            final(self).build_data.map.depth == old(self).build_data.map.depth,
            final(self).builders == old(self).builders,
            old(self).builders@.len() == 0 ==> r.is_ok(),
            r == Err::<(), BuildError>(BuildError::MissingRooms) ==> old(self).needs_rooms(),
            r == Err::<(), BuildError>(BuildError::MissingStartingPosition) ==> old(self).needs_start(),
    {
        let w = self.build_data.map.width;
        let h = self.build_data.map.height;
        let depth = self.build_data.map.depth;
        match &mut self.starter {
            InitialBuilder::Simple(b) => b.new_map_rooms_and_corridors(&mut self.build_data),
            InitialBuilder::Bsp(b) => b.build_map(&mut self.build_data),
            InitialBuilder::Cellular(b) => b.build_map(&mut self.build_data),
            InitialBuilder::Drunkard(b) => {
                b.build_map(&mut self.build_data);
            },
        }
        let mut k: usize = 0;
        while k < self.builders.len()
            invariant
                self.build_data.wf(),
                self.build_data.map.width == w,
                self.build_data.map.height == h,
                self.build_data.map.depth == depth,
                w == old(self).build_data.map.width,
                h == old(self).build_data.map.height,
                depth == old(self).build_data.map.depth,
                self.builders == old(self).builders,
                forall|j: int| 0 <= j < self.builders@.len() ==> (#[trigger] self.builders@[j]).ready(raws),
            decreases self.builders@.len() - k,
        {
            let ghost kk = k as int;
            let step = match &self.builders[k] {
                MetaBuilder::AreaStartingPosition(b) => {
                    b.build_map(&mut self.build_data);
                    Ok(())
                },
                MetaBuilder::CullUnreachable(b) => {
                    if self.build_data.starting_position.is_none() {
                        assert(self.builders@[kk] is CullUnreachable);
                        return Err(BuildError::MissingStartingPosition);
                    }
                    b.build_map(&mut self.build_data);
                    Ok(())
                },
                MetaBuilder::RoomBasedStartingPosition(b) => {
                    let r = b.build_map(&mut self.build_data);
                    if r.is_err() {
                        assert(self.builders@[kk] is RoomBasedStartingPosition);
                    }
                    r
                },
                MetaBuilder::RoomBasedSpawner(b) => {
                    assert(self.builders@[k as int].ready(raws));
                    let r = b.build_map(&mut self.build_data, raws);
                    if r.is_err() {
                        assert(self.builders@[kk] is RoomBasedSpawner);
                    }
                    r
                },
            };
            if let Err(e) = step {
                return Err(e);
            }
            k = k + 1;
        }
        Ok(())
    }

    /// The starting position that the builders chose.
    pub fn starting_position(&self) -> (r: Position)
        requires
            self.build_data.starting_position.is_some(),
        ensures
            Some(r) == self.build_data.starting_position,
    {
        self.build_data.starting_position.unwrap()
    }

    /// Creates, in order, the entities of the spawn list.
    pub fn spawn_entities(&self, world: &mut crate::world::World, raws: &crate::raws::RawManager)
        requires
            old(world)@.len() + self.build_data.spawn_list@.len() < crate::world::MAX_ENTITIES,
            forall|k: int|
                0 <= k < self.build_data.spawn_list@.len() ==> spawner::known_name(
                    raws,
                    (#[trigger] self.build_data.spawn_list@[k]).1@,
                ),
        ensures
            final(world)@.len() == old(world)@.len() + self.build_data.spawn_list@.len(),
            final(world)@.subrange(0, old(world)@.len() as int) == old(world)@,
            forall|k: int|
                0 <= k < self.build_data.spawn_list@.len() ==> crate::raws::spawned_as(
                    #[trigger] final(world)@[old(world)@.len() + k],
                    raws,
                    self.build_data.spawn_list@[k].1@,
                    self.build_data.spawn_list@[k].0,
                ),
    {
        let mut k: usize = 0;
        let ghost w0 = world@;
        while k < self.build_data.spawn_list.len()
            invariant
                k <= self.build_data.spawn_list@.len(),
                world@.len() == w0.len() + k,
                w0 == old(world)@,
                w0.len() + self.build_data.spawn_list@.len() < crate::world::MAX_ENTITIES,
                world@.subrange(0, w0.len() as int) == w0,
                forall|j: int|
                    0 <= j < self.build_data.spawn_list@.len() ==> spawner::known_name(
                        raws,
                        (#[trigger] self.build_data.spawn_list@[j]).1@,
                    ),
                forall|j: int|
                    0 <= j < k ==> crate::raws::spawned_as(
                        #[trigger] world@[w0.len() + j],
                        raws,
                        self.build_data.spawn_list@[j].1@,
                        self.build_data.spawn_list@[j].0,
                    ),
            decreases self.build_data.spawn_list@.len() - k,
        {
            let entry = &self.build_data.spawn_list[k];
            let ghost before = world@;
            crate::raws::spawn_named_entity(world, raws, &entry.1, crate::raws::SpawnType::AtPosition(entry.0));
            proof {
                assert(world@.drop_last() == before);
                assert forall|j: int| 0 <= j < k + 1 implies crate::raws::spawned_as(
                    #[trigger] world@[w0.len() + j],
                    raws,
                    self.build_data.spawn_list@[j].1@,
                    self.build_data.spawn_list@[j].0,
                ) by {
                    if j < k {
                        assert(world@[w0.len() + j] == before[w0.len() + j]);
                    }
                }
                assert(world@.subrange(0, w0.len() as int) =~= before.subrange(0, w0.len() as int));
            }
            k = k + 1;
        }
    }
}

} // verus!
