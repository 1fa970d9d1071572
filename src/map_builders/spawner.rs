//! Filling rooms with monsters and items.

use crate::components::Position;
use crate::map_builders::common::in_room;
use crate::map_builders::rect::Rect;
use crate::raws::{last_named, RawManager};
use crate::rng::random_range;
use vstd::prelude::*;

verus! {

/// Whether the registry defines at least one monster and one item.
pub open spec fn raws_ready(raws: &RawManager) -> bool {
    raws.raws.mobs@.len() > 0 && raws.raws.items@.len() > 0
}

/// Whether `name` names a monster or an item of the registry.
pub open spec fn known_name(raws: &RawManager, name: Seq<char>) -> bool {
    raws.has_mob(name) || raws.has_item(name)
}

/// Every spawn entry lies inside `room` and names a known definition.
pub open spec fn entries_in_room(entries: Seq<(Position, String)>, room: Rect, raws: &RawManager) -> bool {
    forall|k: int|
        0 <= k < entries.len() ==> in_room(room, (#[trigger] entries[k]).0.x as int, entries[k].0.y as int)
            && known_name(raws, entries[k].1@)
}

/// No two entries of `s` are equal.
pub open spec fn distinct(s: Seq<Position>) -> bool {
    forall|a: int, b: int| #![trigger s[a], s[b]] 0 <= a < b < s.len() ==> s[a] != s[b]
}

/// No two entries of the spawn list share a cell.
pub open spec fn distinct_cells(entries: Seq<(Position, String)>) -> bool {
    forall|a: int, b: int| #![trigger entries[a], entries[b]] 0 <= a < b < entries.len() ==> entries[a].0 != entries[b].0
}

proof fn lemma_named_found(names: Seq<Seq<char>>, k: int)
    requires
        0 <= k < names.len(),
    ensures
        last_named(names, names[k]).is_some(),
    decreases names.len(),
{
    if names.last() != names[k] {
        assert(names.drop_last()[k] == names[k]);
        lemma_named_found(names.drop_last(), k);
    }
}

/// The cells inside `room`, row by row.
fn room_cells(room: &Rect) -> (r: Vec<Position>)
    requires
        0 <= room.x1,
        0 <= room.y1,
    ensures
        forall|k: int| 0 <= k < r@.len() ==> in_room(*room, (#[trigger] r@[k]).x as int, r@[k].y as int),
        room.x1 + 2 <= room.x2 && room.y1 + 2 <= room.y2 ==> r@.len() > 0,
        distinct(r@),
{
    let mut cells: Vec<Position> = Vec::new();
    let mut y = room.y1 as i64 + 1;
    while y < room.y2 as i64
        invariant
            room.y1 + 1 <= y,
            y <= room.y2 || y == room.y1 + 1,
            0 <= room.x1 && 0 <= room.y1,
            forall|k: int| 0 <= k < cells@.len() ==> in_room(*room, (#[trigger] cells@[k]).x as int, cells@[k].y as int),
            room.x1 + 2 <= room.x2 && y > room.y1 + 1 ==> cells@.len() > 0,
            distinct(cells@),
            forall|k: int| 0 <= k < cells@.len() ==> (#[trigger] cells@[k]).y < y,
        decreases room.y2 - y,
    {
        let mut x = room.x1 as i64 + 1;
        let ghost before = cells@.len();
        while x < room.x2 as i64
            invariant
                room.x1 + 1 <= x,
                x <= room.x2 || x == room.x1 + 1,
                room.y1 < y < room.y2,
                0 <= room.x1 && 0 <= room.y1,
                forall|k: int| 0 <= k < cells@.len() ==> in_room(*room, (#[trigger] cells@[k]).x as int, cells@[k].y as int),
                cells@.len() >= before,
                x > room.x1 + 1 ==> cells@.len() > 0,
                room.x1 + 2 <= room.x2 && y > room.y1 + 1 && before > 0 ==> cells@.len() > 0,
                distinct(cells@),
                forall|k: int|
                    0 <= k < cells@.len() ==> (#[trigger] cells@[k]).y < y || (cells@[k].y == y
                        && cells@[k].x < x),
            decreases room.x2 - x,
        {
            let ghost old_cells = cells@;
            cells.push(Position { x: x as u32, y: y as u32 });
            proof {
                assert forall|a: int, b: int| #![trigger cells@[a], cells@[b]] 0 <= a < b < cells@.len() implies cells@[a] != cells@[b] by {
                    if b == cells@.len() - 1 {
                        assert(cells@[a] == old_cells[a]);
                    } else {
                        assert(cells@[a] == old_cells[a] && cells@[b] == old_cells[b]);
                    }
                }
            }
            x = x + 1;
        }
        y = y + 1;
    }
    cells
}

/// A random index below `len`, each equally likely.
fn random_index(len: usize) -> (r: usize)
    requires
        len > 0,
    ensures
        r < len,
{
    let bound: i64 = if len as u64 > i64::MAX as u64 {
        i64::MAX
    } else {
        len as i64
    };
    random_range(0, bound) as usize
}

/// Takes up to `count` cells out of `pool` at random, each equally likely among those left.
fn pick_cells(pool: &mut Vec<Position>, count: i64, Ghost(room): Ghost<Rect>) -> (r: Vec<Position>)
    requires
        forall|k: int| 0 <= k < old(pool)@.len() ==> in_room(room, (#[trigger] old(pool)@[k]).x as int, old(pool)@[k].y as int),
        distinct(old(pool)@),
    ensures
        distinct(r@),
        forall|k: int| 0 <= k < r@.len() ==> in_room(room, (#[trigger] r@[k]).x as int, r@[k].y as int),
        count >= 1 && old(pool)@.len() > 0 ==> r@.len() >= 1,
        r@.len() <= if count < 0 { 0 } else { count },
{
    let mut picked: Vec<Position> = Vec::new();
    let mut i: i64 = 0;
    while i < count && pool.len() > 0
        invariant
            0 <= i,
            count >= 0 ==> i <= count,
            count < 0 ==> i == 0,
            picked@.len() == i,
            forall|k: int| 0 <= k < pool@.len() ==> in_room(room, (#[trigger] pool@[k]).x as int, pool@[k].y as int),
            forall|k: int| 0 <= k < picked@.len() ==> in_room(room, (#[trigger] picked@[k]).x as int, picked@[k].y as int),
            i == 0 ==> pool@.len() == old(pool)@.len(),
            distinct(pool@),
            distinct(picked@),
            forall|a: int, b: int| #![trigger picked@[a], pool@[b]] 0 <= a < picked@.len() && 0 <= b < pool@.len() ==> picked@[a] != pool@[b],
        decreases count - i,
    {
        let k = random_index(pool.len());
        let ghost old_pool = pool@;
        let ghost old_picked = picked@;
        let p = pool.swap_remove(k);
        picked.push(p);
        proof {
            let last = old_pool.len() - 1;
            assert forall|j: int| 0 <= j < pool@.len() implies (#[trigger] pool@[j] == old_pool[j] && j != k) || (pool@[j] == old_pool[last] && j == k && k != last) by {
            }
            assert forall|a: int, b: int| #![trigger pool@[a], pool@[b]] 0 <= a < b < pool@.len() implies pool@[a] != pool@[b] by {
                if a == k {
                    assert(pool@[a] == old_pool[last] && pool@[b] == old_pool[b]);
                } else if b == k {
                    assert(pool@[b] == old_pool[last] && pool@[a] == old_pool[a]);
                } else {
                    assert(pool@[a] == old_pool[a] && pool@[b] == old_pool[b]);
                }
            }
            assert forall|a: int, b: int| #![trigger picked@[a], picked@[b]] 0 <= a < b < picked@.len() implies picked@[a] != picked@[b] by {
                if b == picked@.len() - 1 {
                    assert(picked@[a] == old_picked[a]);
                    assert(old_picked[a] != old_pool[k as int]);
                } else {
                    assert(picked@[a] == old_picked[a] && picked@[b] == old_picked[b]);
                }
            }
            assert forall|a: int, b: int| #![trigger picked@[a], pool@[b]] 0 <= a < picked@.len() && 0 <= b < pool@.len() implies picked@[a] != pool@[b] by {
                let ob = if b == k { last } else { b };
                assert(pool@[b] == old_pool[ob]);
                if a == picked@.len() - 1 {
                    assert(picked@[a] == old_pool[k as int]);
                    assert(ob != k);
                } else {
                    assert(picked@[a] == old_picked[a]);
                }
            }
        }
        i = i + 1;
    }
    picked
}

/// A random monster name of the registry.
fn random_mob_name(raws: &RawManager) -> (r: String)
    requires
        raws.raws.mobs@.len() > 0,
    ensures
        raws.has_mob(r@),
{
    let k = random_index(raws.raws.mobs.len());
    proof {
        lemma_named_found(raws.mob_names(), k as int);
    }
    raws.raws.mobs[k].name.clone()
}

/// A random item name of the registry.
fn random_item_name(raws: &RawManager) -> (r: String)
    requires
        raws.raws.items@.len() > 0,
    ensures
        raws.has_item(r@),
{
    let k = random_index(raws.raws.items.len());
    proof {
        lemma_named_found(raws.item_names(), k as int);
    }
    raws.raws.items[k].name.clone()
}

/// Fills `room`: between one and `max_monsters` monsters on distinct cells inside it, and
/// between one and `max_items` items on distinct cells inside it, each of a random kind of the
/// registry. The entries are appended to `spawn_list`.
pub fn spawn_room(
    spawn_list: &mut Vec<(Position, String)>,
    room: &Rect,
    max_monsters: u32,
    max_items: u32,
    raws: &RawManager,
)
    requires
        0 <= room.x1,
        0 <= room.y1,
        room.x1 + 2 <= room.x2,
        room.y1 + 2 <= room.y2,
        max_monsters >= 1,
        max_items >= 1,
        raws_ready(raws),
    ensures
        final(spawn_list)@.len() >= old(spawn_list)@.len() + 2,
        final(spawn_list)@.len() <= old(spawn_list)@.len() + max_monsters + max_items,
        final(spawn_list)@.subrange(0, old(spawn_list)@.len() as int) == old(spawn_list)@,
        entries_in_room(
            final(spawn_list)@.subrange(old(spawn_list)@.len() as int, final(spawn_list)@.len() as int),
            *room,
            raws,
        ),
        exists|m: int|
            #![trigger final(spawn_list)@[m]]
            old(spawn_list)@.len() + 1 <= m <= old(spawn_list)@.len() + max_monsters && m < final(spawn_list)@.len()
                && final(spawn_list)@.len() - m <= max_items
                && distinct_cells(final(spawn_list)@.subrange(old(spawn_list)@.len() as int, m))
                && distinct_cells(final(spawn_list)@.subrange(m, final(spawn_list)@.len() as int))
                && (forall|k: int| old(spawn_list)@.len() <= k < m ==> raws.has_mob((#[trigger] final(spawn_list)@[k]).1@))
                && (forall|k: int| m <= k < final(spawn_list)@.len() ==> raws.has_item((#[trigger] final(spawn_list)@[k]).1@)),
{
    let ghost start = spawn_list@;
    let num_monsters = random_range(1, max_monsters as i64 + 1);
    let num_items = random_range(1, max_items as i64 + 1);
    let mut pool = room_cells(room);
    let monsters = pick_cells(&mut pool, num_monsters, Ghost(*room));
    let mut pool = room_cells(room);
    let items = pick_cells(&mut pool, num_items, Ghost(*room));
    let mut k: usize = 0;
    while k < monsters.len()
        invariant
            k <= monsters@.len(),
            raws_ready(raws),
            spawn_list@.len() == start.len() + k,
            spawn_list@.subrange(0, start.len() as int) == start,
            forall|j: int| 0 <= j < monsters@.len() ==> in_room(*room, (#[trigger] monsters@[j]).x as int, monsters@[j].y as int),
            entries_in_room(spawn_list@.subrange(start.len() as int, spawn_list@.len() as int), *room, raws),
            forall|j: int|
                0 <= j < k ==> (#[trigger] spawn_list@[start.len() + j]).0 == monsters@[j] && raws.has_mob(
                    spawn_list@[start.len() + j].1@,
                ),
        decreases monsters@.len() - k,
    {
        let name = random_mob_name(raws);
        let ghost before = spawn_list@;
        spawn_list.push((monsters[k], name));
        proof {
            assert forall|j: int| 0 <= j < k + 1 implies (#[trigger] spawn_list@[start.len() + j]).0 == monsters@[j]
                && raws.has_mob(spawn_list@[start.len() + j].1@) by {
                if j < k {
                    assert(spawn_list@[start.len() + j] == before[start.len() + j]);
                }
            }
            assert(spawn_list@.subrange(0, start.len() as int) =~= before.subrange(0, start.len() as int));
            let fresh = spawn_list@.subrange(start.len() as int, spawn_list@.len() as int);
            let old_fresh = before.subrange(start.len() as int, before.len() as int);
            assert forall|j: int| 0 <= j < fresh.len() implies in_room(*room, (#[trigger] fresh[j]).0.x as int, fresh[j].0.y as int)
                && known_name(raws, fresh[j].1@) by {
                if j < old_fresh.len() {
                    assert(fresh[j] == old_fresh[j]);
                }
            }
        }
        k = k + 1;
    }
    let mut k: usize = 0;
    let ghost mid = spawn_list@.len();
    while k < items.len()
        invariant
            k <= items@.len(),
            raws_ready(raws),
            spawn_list@.len() == mid + k,
            mid >= start.len(),
            spawn_list@.subrange(0, start.len() as int) == start,
            forall|j: int| 0 <= j < items@.len() ==> in_room(*room, (#[trigger] items@[j]).x as int, items@[j].y as int),
            entries_in_room(spawn_list@.subrange(start.len() as int, spawn_list@.len() as int), *room, raws),
            mid == start.len() + monsters@.len(),
            forall|j: int|
                0 <= j < monsters@.len() ==> (#[trigger] spawn_list@[start.len() + j]).0 == monsters@[j] && raws.has_mob(
                    spawn_list@[start.len() + j].1@,
                ),
            forall|j: int|
                0 <= j < k ==> (#[trigger] spawn_list@[mid + j]).0 == items@[j] && raws.has_item(
                    spawn_list@[mid + j].1@,
                ),
        decreases items@.len() - k,
    {
        let name = random_item_name(raws);
        let ghost before = spawn_list@;
        spawn_list.push((items[k], name));
        proof {
            assert forall|j: int| 0 <= j < k + 1 implies (#[trigger] spawn_list@[mid + j]).0 == items@[j]
                && raws.has_item(spawn_list@[mid + j].1@) by {
                if j < k {
                    assert(spawn_list@[mid + j] == before[mid + j]);
                }
            }
            assert forall|j: int| 0 <= j < monsters@.len() implies (#[trigger] spawn_list@[start.len() + j]).0 == monsters@[j]
                && raws.has_mob(spawn_list@[start.len() + j].1@) by {
                assert(spawn_list@[start.len() + j] == before[start.len() + j]);
            }
            assert(spawn_list@.subrange(0, start.len() as int) =~= before.subrange(0, start.len() as int));
            let fresh = spawn_list@.subrange(start.len() as int, spawn_list@.len() as int);
            let old_fresh = before.subrange(start.len() as int, before.len() as int);
            assert forall|j: int| 0 <= j < fresh.len() implies in_room(*room, (#[trigger] fresh[j]).0.x as int, fresh[j].0.y as int)
                && known_name(raws, fresh[j].1@) by {
                if j < old_fresh.len() {
                    assert(fresh[j] == old_fresh[j]);
                }
            }
        }
        k = k + 1;
    }
    proof {
        let fin = spawn_list@;
        let a = fin.subrange(start.len() as int, mid as int);
        let b = fin.subrange(mid as int, fin.len() as int);
        assert forall|x: int, y: int| #![trigger a[x], a[y]] 0 <= x < y < a.len() implies a[x].0 != a[y].0 by {
            assert(a[x] == fin[start.len() + x] && a[y] == fin[start.len() + y]);
            assert(monsters@[x] != monsters@[y]);
        }
        assert forall|x: int, y: int| #![trigger b[x], b[y]] 0 <= x < y < b.len() implies b[x].0 != b[y].0 by {
            assert(b[x] == fin[mid + x] && b[y] == fin[mid + y]);
            assert(items@[x] != items@[y]);
        }
        assert forall|k: int| start.len() <= k < mid implies raws.has_mob((#[trigger] fin[k]).1@) by {
            assert(fin[start.len() + (k - start.len())] == fin[k]);
        }
        assert forall|k: int| mid <= k < fin.len() implies raws.has_item((#[trigger] fin[k]).1@) by {
            assert(fin[mid + (k - mid)] == fin[k]);
        }
        assert(fin[mid as int] == fin[mid as int]);
    }
}

} // verus!
