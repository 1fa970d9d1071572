//! Resolving melee intents into pending damage.

use crate::gamelog::{GameLog, LogEntry};
use crate::map::EntityId;
use crate::world::{Entity, World, MAX_ENTITIES};
use vstd::prelude::*;

verus! {

/// Whether `e` is an item worn by `who` that carries bonuses.
pub open spec fn worn_by(e: Entity, who: EntityId) -> bool {
    e.equipped.is_some() && e.equipped.unwrap().by == who && e.item_stats.is_some()
}

/// Sum of the power bonuses of the items among the first `n` entities worn by `who`.
pub open spec fn power_bonus(w: Seq<Entity>, who: EntityId, n: int) -> int
    decreases n,
{
    if n <= 0 {
        0
    } else {
        power_bonus(w, who, n - 1) + if worn_by(w[n - 1], who) {
            w[n - 1].item_stats.unwrap().power as int
        } else {
            0
        }
    }
}

/// Sum of the defense bonuses of the items among the first `n` entities worn by `who`.
pub open spec fn defense_bonus(w: Seq<Entity>, who: EntityId, n: int) -> int
    decreases n,
{
    if n <= 0 {
        0
    } else {
        defense_bonus(w, who, n - 1) + if worn_by(w[n - 1], who) {
            w[n - 1].item_stats.unwrap().defense as int
        } else {
            0
        }
    }
}

/// Whether entity `a` attacks this turn: it carries a melee intent.
pub open spec fn attacks(w: Seq<Entity>, a: int) -> bool {
    w[a].wants_to_melee.is_some()
}

/// Whether the attack of `a` lands on something: the attacker has a name and combat stats, and
/// its target can be hit.
pub open spec fn resolves(w: Seq<Entity>, a: int) -> bool {
    attacks(w, a) && w[a].name.is_some() && w[a].stats.is_some() && valid_target(
        w,
        w[a].wants_to_melee.unwrap().target,
    )
}

/// The attacker's name, when it has one.
pub open spec fn name_of(e: Entity) -> Option<String> {
    match e.name {
        Some(n) => Some(n.name),
        None => None,
    }
}

/// Whether `t` can be hit: it exists, with combat stats, a name and a damage queue.
pub open spec fn valid_target(w: Seq<Entity>, t: EntityId) -> bool {
    t < w.len() && w[t as int].stats.is_some() && w[t as int].name.is_some()
        && w[t as int].can_suffer_damage.is_some()
}

/// The damage `a` deals to `t`: power plus worn power bonuses, minus defense plus worn defense
/// bonuses, never below zero (and capped at the largest `i32`).
pub open spec fn melee_damage(w: Seq<Entity>, a: EntityId, t: EntityId) -> int {
    let power = w[a as int].stats.unwrap().power + power_bonus(w, a, w.len() as int);
    let defense = w[t as int].stats.unwrap().defense + defense_bonus(w, t, w.len() as int);
    let d = power - defense;
    if d < 0 {
        0
    } else if d > i32::MAX {
        i32::MAX as int
    } else {
        d
    }
}

/// The damage queued on `e` by the attackers among the first `n` entities, in id order.
pub open spec fn incoming(w: Seq<Entity>, e: EntityId, n: int) -> Seq<i32>
    decreases n,
{
    if n <= 0 {
        seq![]
    } else {
        let prev = incoming(w, e, n - 1);
        let a = n - 1;
        if resolves(w, a) && w[a].wants_to_melee.unwrap().target == e
            && melee_damage(w, a as EntityId, e) > 0 {
            prev.push(melee_damage(w, a as EntityId, e) as i32)
        } else {
            prev
        }
    }
}

/// The message for attacker `a`.
pub open spec fn melee_message(w: Seq<Entity>, a: int) -> LogEntry {
    let t = w[a].wants_to_melee.unwrap().target;
    if resolves(w, a) {
        let attacker = w[a].name.unwrap().name;
        let d = melee_damage(w, a as EntityId, t);
        if d == 0 {
            LogEntry::UnableToHurt { attacker, target: w[t as int].name.unwrap().name }
        } else {
            LogEntry::Hit { attacker, target: w[t as int].name.unwrap().name, damage: d as i32 }
        }
    } else {
        LogEntry::HackedAtAir { attacker: name_of(w[a]) }
    }
}

/// The messages for the attackers among the first `n` entities.
pub open spec fn melee_messages(w: Seq<Entity>, n: int) -> Seq<LogEntry>
    decreases n,
{
    if n <= 0 {
        seq![]
    } else if attacks(w, n - 1) {
        melee_messages(w, n - 1).push(melee_message(w, n - 1))
    } else {
        melee_messages(w, n - 1)
    }
}

/// `b` is `a` with at most its melee intent and its damage queue changed.
pub open spec fn same_but_melee(a: Entity, b: Entity) -> bool {
    b == Entity { wants_to_melee: b.wants_to_melee, can_suffer_damage: b.can_suffer_damage, ..a }
}

fn bonuses(world: &World, who: EntityId) -> (r: (i128, i128))
    requires
        world.wf(),
    ensures
        r.0 == power_bonus(world@, who, world@.len() as int),
        r.1 == defense_bonus(world@, who, world@.len() as int),
        -0x8000_0000_0000_0000 <= r.0 <= 0x8000_0000_0000_0000,
        -0x8000_0000_0000_0000 <= r.1 <= 0x8000_0000_0000_0000,
{
    let mut p: i128 = 0;
    let mut d: i128 = 0;
    let mut j: usize = 0;
    while j < world.entities.len()
        invariant
            j <= world@.len(),
            world@.len() <= MAX_ENTITIES,
            p == power_bonus(world@, who, j as int),
            d == defense_bonus(world@, who, j as int),
            -(j as int) * 0x8000_0000 <= p <= (j as int) * 0x8000_0000,
            -(j as int) * 0x8000_0000 <= d <= (j as int) * 0x8000_0000,
        decreases world@.len() - j,
    {
        let e = &world.entities[j];
        if let Some(eq) = e.equipped {
            if eq.by == who {
                if let Some(s) = e.item_stats {
                    p = p + s.power as i128;
                    d = d + s.defense as i128;
                }
            }
        }
        j = j + 1;
    }
    assert((j as int) * 0x8000_0000 <= 0x8000_0000_0000_0000);
    (p, d)
}

/// The damage that `a` deals to `t`; never negative.
pub fn melee_damage_of(world: &World, a: EntityId, t: EntityId) -> (r: i32)
    requires
        world.wf(),
        a < world@.len(),
        t < world@.len(),
        world@[a as int].stats.is_some(),
        world@[t as int].stats.is_some(),
    ensures
        r == melee_damage(world@, a, t),
        r >= 0,
{
    let (power_b, _) = bonuses(world, a);
    let (_, defense_b) = bonuses(world, t);
    let power = world.entities[a].stats.unwrap().power as i128 + power_b;
    let defense = world.entities[t].stats.unwrap().defense as i128 + defense_b;
    let d = power - defense;
    if d < 0 {
        0
    } else if d > i32::MAX as i128 {
        i32::MAX
    } else {
        d as i32
    }
}

/// Damage non-negativity: whatever the powers, defenses and bonuses, melee damage is at least
/// zero.
pub proof fn lemma_damage_non_negative(w: Seq<Entity>, a: EntityId, t: EntityId)
    ensures
        melee_damage(w, a, t) >= 0,
{
}

/// Resolves every melee intent, attackers in id order: the damage is queued on the target when
/// positive, a message is logged, and the intent is removed whatever the outcome. An attack
/// that cannot land (the target no longer exists, or the attacker has no name or no combat
/// stats) is reported as a swing at the air.
pub fn melee_combat_system(world: &mut World, log: &mut GameLog)
    requires
        old(world).wf(),
    ensures
        final(world)@.len() == old(world)@.len(),
        forall|e: int|
            0 <= e < old(world)@.len() ==> same_but_melee(old(world)@[e], #[trigger] final(world)@[e]),
        forall|e: int|
            0 <= e < old(world)@.len() ==> (#[trigger] final(world)@[e]).wants_to_melee == if attacks(
                old(world)@,
                e,
            ) {
                None
            } else {
                old(world)@[e].wants_to_melee
            },
        forall|e: int|
            0 <= e < old(world)@.len() ==> (#[trigger] final(world)@[e]).can_suffer_damage.is_some()
                == old(world)@[e].can_suffer_damage.is_some(),
        forall|e: int|
            0 <= e < old(world)@.len() && old(world)@[e].can_suffer_damage.is_some() ==> (
            #[trigger] final(world)@[e]).can_suffer_damage.unwrap().amount@ == old(world)@[e].can_suffer_damage.unwrap().amount@
                + incoming(old(world)@, e as EntityId, old(world)@.len() as int),
        final(log)@ == old(log)@ + melee_messages(old(world)@, old(world)@.len() as int),
        forall|e: int| 0 <= e < final(world)@.len() ==> (#[trigger] final(world)@[e]).wants_to_melee.is_none(),
{
    let n = world.entities.len();
    let ghost w0 = world@;
    let mut i: usize = 0;
    while i < n
        invariant
            i <= n,
            n == w0.len(),
            w0 == old(world)@,
            old(world).wf(),
            world@.len() == n,
            forall|e: int| 0 <= e < n ==> same_but_melee(w0[e], #[trigger] world@[e]),
            forall|e: int|
                0 <= e < n ==> (#[trigger] world@[e]).wants_to_melee == if e < i && attacks(w0, e) {
                    None
                } else {
                    w0[e].wants_to_melee
                },
            forall|e: int|
                0 <= e < n ==> (#[trigger] world@[e]).can_suffer_damage.is_some()
                    == w0[e].can_suffer_damage.is_some(),
            forall|e: int|
                0 <= e < n && w0[e].can_suffer_damage.is_some() ==> (
                #[trigger] world@[e]).can_suffer_damage.unwrap().amount@ == w0[e].can_suffer_damage.unwrap().amount@
                    + incoming(w0, e as EntityId, i as int),
            log@ == old(log)@ + melee_messages(w0, i as int),
        decreases n - i,
    {
        melee_one(world, log, i, Ghost(w0));
        i = i + 1;
    }
    assert forall|e: int| 0 <= e < world@.len() implies (#[trigger] world@[e]).wants_to_melee.is_none() by {
        assert(same_but_melee(w0[e], world@[e]));
    }
}

/// Intent idempotence for melee: in a world where no entity attacks (as after a melee pass),
/// a melee pass queues no damage and logs nothing, so it changes nothing.
pub proof fn lemma_melee_idempotent(w: Seq<Entity>, n: int)
    requires
        0 <= n <= w.len(),
        forall|e: int| 0 <= e < w.len() ==> !#[trigger] attacks(w, e),
    ensures
        forall|t: EntityId| #[trigger] incoming(w, t, n) == Seq::<i32>::empty(),
        melee_messages(w, n) == Seq::<LogEntry>::empty(),
    decreases n,
{
    if n > 0 {
        lemma_melee_idempotent(w, n - 1);
        assert(!attacks(w, n - 1));
        assert forall|t: EntityId| #[trigger] incoming(w, t, n) == Seq::<i32>::empty() by {
            assert(incoming(w, t, n) == incoming(w, t, n - 1));
        }
    }
}

fn melee_one(world: &mut World, log: &mut GameLog, i: usize, Ghost(w0): Ghost<Seq<Entity>>)
    requires
        i < w0.len(),
        w0.len() <= MAX_ENTITIES,
        old(world)@.len() == w0.len(),
        forall|e: int| 0 <= e < w0.len() ==> same_but_melee(w0[e], #[trigger] old(world)@[e]),
        forall|e: int|
            0 <= e < w0.len() ==> (#[trigger] old(world)@[e]).wants_to_melee == if e < i && attacks(
                w0,
                e,
            ) {
                None
            } else {
                w0[e].wants_to_melee
            },
        forall|e: int|
            0 <= e < w0.len() ==> (#[trigger] old(world)@[e]).can_suffer_damage.is_some()
                == w0[e].can_suffer_damage.is_some(),
        forall|e: int|
            0 <= e < w0.len() && w0[e].can_suffer_damage.is_some() ==> (
            #[trigger] old(world)@[e]).can_suffer_damage.unwrap().amount@ == w0[e].can_suffer_damage.unwrap().amount@
                + incoming(w0, e as EntityId, i as int),
    ensures
        final(world)@.len() == w0.len(),
        forall|e: int| 0 <= e < w0.len() ==> same_but_melee(w0[e], #[trigger] final(world)@[e]),
        forall|e: int|
            0 <= e < w0.len() ==> (#[trigger] final(world)@[e]).wants_to_melee == if e < i + 1
                && attacks(w0, e) {
                None
            } else {
                w0[e].wants_to_melee
            },
        forall|e: int|
            0 <= e < w0.len() ==> (#[trigger] final(world)@[e]).can_suffer_damage.is_some()
                == w0[e].can_suffer_damage.is_some(),
        forall|e: int|
            0 <= e < w0.len() && w0[e].can_suffer_damage.is_some() ==> (
            #[trigger] final(world)@[e]).can_suffer_damage.unwrap().amount@ == w0[e].can_suffer_damage.unwrap().amount@
                + incoming(w0, e as EntityId, i + 1),
        final(log)@ == old(log)@ + if attacks(w0, i as int) {
            seq![melee_message(w0, i as int)]
        } else {
            seq![]
        },
{
    let ghost ii = i as int;
    let n = world.entities.len();
    assert(same_but_melee(w0[ii], world@[ii]));
    let processed = world.entities[i].wants_to_melee.is_some();
    if !processed {
        assert forall|e: int|
            0 <= e < w0.len() && w0[e].can_suffer_damage.is_some() implies (
            #[trigger] world@[e]).can_suffer_damage.unwrap().amount@ == w0[e].can_suffer_damage.unwrap().amount@
                + incoming(w0, e as EntityId, i + 1) by {
            assert(incoming(w0, e as EntityId, i + 1) == incoming(w0, e as EntityId, i as int));
        }
        assert(log@ =~= old(log)@ + seq![]);
        return;
    }
    let t = world.entities[i].wants_to_melee.unwrap().target;
    let attacker_name: Option<String> = match &world.entities[i].name {
        Some(n) => Some(n.name.clone()),
        None => None,
    };
    proof {
        assert forall|e: int| 0 <= e < w0.len() implies
            (#[trigger] world@[e]).stats == w0[e].stats && world@[e].name == w0[e].name
                && world@[e].equipped == w0[e].equipped && world@[e].item_stats == w0[e].item_stats by {
            assert(same_but_melee(w0[e], world@[e]));
        }
        lemma_bonus_frame(w0, world@, i as EntityId, n as int);
    }
    let valid = attacker_name.is_some() && world.entities[i].stats.is_some() && t < n
        && world.entities[t].stats.is_some() && world.entities[t].name.is_some()
        && world.entities[t].can_suffer_damage.is_some();
    let ghost before = world@;
    if valid {
        proof {
            lemma_bonus_frame(w0, world@, t, n as int);
        }
        let damage = melee_damage_of(world, i, t);
        assert(damage == melee_damage(w0, i as EntityId, t));
        let target_name = world.entities[t].name.as_ref().unwrap().name.clone();
        if damage == 0 {
            log.add_entry(LogEntry::UnableToHurt { attacker: attacker_name.unwrap(), target: target_name });
        } else {
            log.add_entry(LogEntry::Hit { attacker: attacker_name.unwrap(), target: target_name, damage });
            match &mut world.entities[t].can_suffer_damage {
                Some(c) => {
                    c.amount.push(damage);
                },
                None => {},
            }
        }
    } else {
        log.add_entry(LogEntry::HackedAtAir { attacker: attacker_name });
    }
    world.entities[i].wants_to_melee = None;
    assert(log@ =~= old(log)@ + seq![melee_message(w0, i as int)]);
    assert forall|e: int|
        0 <= e < w0.len() && w0[e].can_suffer_damage.is_some() implies (
        #[trigger] world@[e]).can_suffer_damage.unwrap().amount@ == w0[e].can_suffer_damage.unwrap().amount@
            + incoming(w0, e as EntityId, i + 1) by {
        assert(same_but_melee(w0[e], old(world)@[e]));
        if e as EntityId == t && resolves(w0, i as int) && melee_damage(w0, i as EntityId, t) > 0 {
            assert(incoming(w0, e as EntityId, i + 1) == incoming(w0, e as EntityId, i as int).push(
                melee_damage(w0, i as EntityId, t) as i32));
        } else {
            assert(incoming(w0, e as EntityId, i + 1) == incoming(w0, e as EntityId, i as int));
        }
    }
    assert forall|e: int| 0 <= e < w0.len() implies same_but_melee(w0[e], #[trigger] world@[e]) by {
        assert(same_but_melee(w0[e], old(world)@[e]));
    }
}

proof fn lemma_bonus_frame(w0: Seq<Entity>, w: Seq<Entity>, who: EntityId, n: int)
    requires
        0 <= n <= w0.len(),
        w.len() == w0.len(),
        forall|e: int|
            0 <= e < w0.len() ==> (#[trigger] w[e]).equipped == w0[e].equipped && w[e].item_stats
                == w0[e].item_stats,
    ensures
        power_bonus(w, who, n) == power_bonus(w0, who, n),
        defense_bonus(w, who, n) == defense_bonus(w0, who, n),
    decreases n,
{
    if n > 0 {
        assert(w[n - 1].equipped == w0[n - 1].equipped);
        lemma_bonus_frame(w0, w, who, n - 1);
    }
}

} // verus!
