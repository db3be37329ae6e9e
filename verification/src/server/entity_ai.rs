use rand::seq::SliceRandom;
use rand::thread_rng;
use vstd::prelude::*;

use super::clients::{entities_wf, Client};
use super::entities::{Entity, EntityProperties, EntityPropertiesView};
use super::position_extensions::DirectionFlags;
use super::rooms::WorldMap;
use super::{claims_hold, SoaprunServer};
use crate::soaprun::position::{saturate, saturating, Position};
use crate::soaprun::map_attributes::REMOVE_CORPSE_TILES;
use crate::soaprun::rooms::{
    lemma_affected_rooms_hold_position, MAX_X_COORD, MAX_Y_COORD, MIN_X_COORD, MIN_Y_COORD,
};
use crate::soaprun::soaprunners::SoaprunnerItems;
use crate::soaprun::units::{UnitStates, UnitTypes};

verus! {

/// A player as the entities see it: where it is and what it holds.
#[derive(PartialEq, Eq, Structural, Clone, Copy, Debug)]
pub struct Sighting {
    pub position: Position,
    pub items: SoaprunnerItems,
}

/// The players that the entities see: those who stand or walk, in the
/// order of their numbers.
pub open spec fn sightings(players: Seq<Option<Client>>) -> Seq<Sighting>
    decreases players.len(),
{
    if players.len() == 0 {
        Seq::empty()
    } else {
        let rest = sightings(players.drop_last());
        match players.last() {
            Some(c) => if c.soaprunner.sprite.spec_is_alive() {
                rest.push(Sighting { position: c.spec_position(), items: c.soaprunner.items })
            } else {
                rest
            },
            None => rest,
        }
    }
}

/// Whether `p` lies in the square around `pos` that reaches `radius` tiles
/// to each side, as far as the coordinates go.
pub open spec fn in_square(pos: Position, radius: int, p: Position) -> bool {
    &&& saturate(pos.x - radius) <= p.x <= saturate(pos.x + radius)
    &&& saturate(pos.y - radius) <= p.y <= saturate(pos.y + radius)
}

/// The directions from `pos` in which one of the players lies that `counts`.
pub open spec fn directions_toward(
    pos: Position,
    seen: Seq<Sighting>,
    counts: spec_fn(Sighting) -> bool,
) -> DirectionFlags {
    DirectionFlags {
        has_north: exists|i: int|
            0 <= i < seen.len() && counts(#[trigger] seen[i]) && seen[i].position.y < pos.y,
        has_south: exists|i: int|
            0 <= i < seen.len() && counts(#[trigger] seen[i]) && pos.y < seen[i].position.y,
        has_west: exists|i: int|
            0 <= i < seen.len() && counts(#[trigger] seen[i]) && seen[i].position.x < pos.x,
        has_east: exists|i: int|
            0 <= i < seen.len() && counts(#[trigger] seen[i]) && pos.x < seen[i].position.x,
    }
}

/// The directions from `pos` in which one of the players does not lie that
/// `counts`.
pub open spec fn directions_away(
    pos: Position,
    seen: Seq<Sighting>,
    counts: spec_fn(Sighting) -> bool,
) -> DirectionFlags {
    DirectionFlags {
        has_north: exists|i: int|
            0 <= i < seen.len() && counts(#[trigger] seen[i]) && !(seen[i].position.y < pos.y),
        has_south: exists|i: int|
            0 <= i < seen.len() && counts(#[trigger] seen[i]) && !(pos.y < seen[i].position.y),
        has_west: exists|i: int|
            0 <= i < seen.len() && counts(#[trigger] seen[i]) && !(seen[i].position.x < pos.x),
        has_east: exists|i: int|
            0 <= i < seen.len() && counts(#[trigger] seen[i]) && !(pos.x < seen[i].position.x),
    }
}

/// Whether one of the players `counts`.
pub open spec fn any_counts(seen: Seq<Sighting>, counts: spec_fn(Sighting) -> bool) -> bool {
    exists|i: int| 0 <= i < seen.len() && counts(#[trigger] seen[i])
}

/// The directions from `pos` in which an entity stands right beside it.
pub open spec fn entity_directions(pos: Position, entities: Seq<Entity>) -> DirectionFlags {
    DirectionFlags {
        has_north: exists|i: int|
            0 <= i < entities.len() && pos.spec_adjacent_exclusive(
                (#[trigger] entities[i]).spec_position(),
            ) && entities[i].spec_position().y < pos.y,
        has_south: exists|i: int|
            0 <= i < entities.len() && pos.spec_adjacent_exclusive(
                (#[trigger] entities[i]).spec_position(),
            ) && pos.y < entities[i].spec_position().y,
        has_west: exists|i: int|
            0 <= i < entities.len() && pos.spec_adjacent_exclusive(
                (#[trigger] entities[i]).spec_position(),
            ) && entities[i].spec_position().x < pos.x,
        has_east: exists|i: int|
            0 <= i < entities.len() && pos.spec_adjacent_exclusive(
                (#[trigger] entities[i]).spec_position(),
            ) && pos.x < entities[i].spec_position().x,
    }
}

impl WorldMap {
    /// Whether an entity cannot step on `p`: the position lies outside the
    /// world, or one of the rooms that hold it has a tile there on which
    /// entities do not walk.
    pub open spec fn entity_blocked(&self, p: Position) -> bool {
        ||| !p.in_world()
        ||| exists|i: int|
            0 <= i < p.affected_rooms().len() && !Entity::spec_can_move_on_tile_type(
                self.spec_tile_type(p, #[trigger] p.affected_rooms()[i]),
            )
    }

    /// The directions in which an entity at `pos` cannot step because of
    /// the tiles.
    pub open spec fn invalid_tile_movements(&self, pos: Position) -> DirectionFlags {
        DirectionFlags {
            has_north: self.entity_blocked(pos.spec_north(1)),
            has_south: self.entity_blocked(pos.spec_south(1)),
            has_west: self.entity_blocked(pos.spec_west(1)),
            has_east: self.entity_blocked(pos.spec_east(1)),
        }
    }

    fn is_entity_blocked(&self, p: &Position) -> (r: bool)
        requires
            self.map_attributes.covers_tiles(),
        ensures
            r == self.entity_blocked(*p),
    {
        if p.x < MIN_X_COORD || MAX_X_COORD < p.x
            || p.y < MIN_Y_COORD || MAX_Y_COORD
            < p.y {
            return true;
        }
        let rooms = p.get_affected_rooms();
        let mut i: usize = 0;
        while i < rooms.len()
            invariant
                i <= rooms.len(),
                rooms@ == p.affected_rooms(),
                p.in_world(),
                self.map_attributes.covers_tiles(),
                forall|j: int|
                    0 <= j < i ==> Entity::spec_can_move_on_tile_type(
                        self.spec_tile_type(*p, #[trigger] p.affected_rooms()[j]),
                    ),
            decreases rooms.len() - i,
        {
            proof {
                lemma_affected_rooms_hold_position(*p, i as int);
            }
            match self.get_tile_type(p, &rooms[i]) {
                Ok(tile_type) => {
                    if !Entity::can_move_on_tile_type(tile_type) {
                        return true;
                    }
                },
                Err(_) => {},
            }
            i = i + 1;
        }
        false
    }

    /// The directions in which an entity at `pos` cannot step because of
    /// the tiles.
    pub fn get_invalid_tile_movements(&self, pos: Position) -> (r: DirectionFlags)
        requires
            self.map_attributes.covers_tiles(),
        ensures
            r == self.invalid_tile_movements(pos),
    {
        DirectionFlags {
            has_north: self.is_entity_blocked(&pos.north(1)),
            has_south: self.is_entity_blocked(&pos.south(1)),
            has_west: self.is_entity_blocked(&pos.west(1)),
            has_east: self.is_entity_blocked(&pos.east(1)),
        }
    }
}

/// The directions from `pos` in which an entity stands right beside it.
pub fn get_invalid_entity_movements(entities: &Vec<Entity>, pos: Position) -> (r: DirectionFlags)
    requires
        entities_wf(entities@),
    ensures
        r == entity_directions(pos, entities@),
{
    let mut dir = DirectionFlags::empty();
    let mut i: usize = 0;
    while i < entities.len()
        invariant
            i <= entities.len(),
            entities_wf(entities@),
            dir == entity_directions(pos, entities@.take(i as int)),
        decreases entities.len() - i,
    {
        let ep = entities[i].position();
        let ghost seen = entities@.take(i as int);
        let ghost next = entities@.take(i + 1);
        let ghost before = dir;
        if pos.adjacent_exclusive(&ep) {
            dir = dir.union(pos.relative_direction(&ep));
        }
        proof {
            assert(next[i as int] == entities@[i as int]);
            assert(forall|j: int| 0 <= j < i ==> next[j] == seen[j]);
            let after = entity_directions(pos, next);
            let near = pos.spec_adjacent_exclusive(ep);
            assert(after.has_north == (before.has_north || (near && ep.y < pos.y))) by {
                if before.has_north {
                    let j = choose|j: int|
                        0 <= j < seen.len() && pos.spec_adjacent_exclusive(
                            (#[trigger] seen[j]).spec_position(),
                        ) && seen[j].spec_position().y < pos.y;
                    assert(next[j] == seen[j]);
                }
            }
            assert(after.has_south == (before.has_south || (near && pos.y < ep.y))) by {
                if before.has_south {
                    let j = choose|j: int|
                        0 <= j < seen.len() && pos.spec_adjacent_exclusive(
                            (#[trigger] seen[j]).spec_position(),
                        ) && pos.y < seen[j].spec_position().y;
                    assert(next[j] == seen[j]);
                }
            }
            assert(after.has_west == (before.has_west || (near && ep.x < pos.x))) by {
                if before.has_west {
                    let j = choose|j: int|
                        0 <= j < seen.len() && pos.spec_adjacent_exclusive(
                            (#[trigger] seen[j]).spec_position(),
                        ) && seen[j].spec_position().x < pos.x;
                    assert(next[j] == seen[j]);
                }
            }
            assert(after.has_east == (before.has_east || (near && pos.x < ep.x))) by {
                if before.has_east {
                    let j = choose|j: int|
                        0 <= j < seen.len() && pos.spec_adjacent_exclusive(
                            (#[trigger] seen[j]).spec_position(),
                        ) && pos.x < seen[j].spec_position().x;
                    assert(next[j] == seen[j]);
                }
            }
        }
        i = i + 1;
    }
    assert(entities@.take(entities@.len() as int) =~= entities@);
    dir
}

impl SoaprunServer {
    /// The players that the entities see.
    pub fn get_sightings(&self) -> (r: Vec<Sighting>)
        requires
            self.wf(),
        ensures
            r@ == sightings(self.players@),
    {
        let mut seen: Vec<Sighting> = Vec::new();
        let mut n: usize = 0;
        assert(self.players@.take(0) =~= Seq::<Option<Client>>::empty());
        while n < self.players.len()
            invariant
                n <= self.players.len(),
                self.wf(),
                seen@ == sightings(self.players@.take(n as int)),
            decreases self.players.len() - n,
        {
            proof {
                assert(self.players@.take(n + 1).drop_last() =~= self.players@.take(n as int));
                assert(self.players@.take(n + 1).last() == self.players@[n as int]);
            }
            match &self.players[n] {
                Some(c) => {
                    if c.soaprunner.sprite.is_alive() {
                        seen.push(Sighting { position: c.position(), items: c.soaprunner.items });
                    }
                },
                None => {},
            }
            n = n + 1;
        }
        assert(self.players@.take(self.players@.len() as int) =~= self.players@);
        seen
    }

    /// The ticks that pass in `wait_time` milliseconds.
    pub fn get_entity_delay(&self, wait_time: usize) -> (r: usize)
        requires
            self.entity_update_rate > 0,
        ensures
            r == wait_time / self.entity_update_rate,
    {
        wait_time / self.entity_update_rate
    }
}


/// One more player adds the direction in which it lies, where it counts.
proof fn lemma_toward_push(
    pos: Position,
    seen: Seq<Sighting>,
    s: Sighting,
    counts: spec_fn(Sighting) -> bool,
)
    ensures
        directions_toward(pos, seen.push(s), counts) == directions_toward(pos, seen, counts).spec_union(
            if counts(s) {
                pos.spec_relative_direction(s.position)
            } else {
                DirectionFlags::spec_empty()
            },
        ),
{
    let next = seen.push(s);
    let before = directions_toward(pos, seen, counts);
    let after = directions_toward(pos, next, counts);
    assert(next[seen.len() as int] == s);
    assert(forall|j: int| 0 <= j < seen.len() ==> next[j] == seen[j]);
    assert(after.has_north == (before.has_north || (counts(s) && s.position.y < pos.y))) by {
        if before.has_north {
            let j = choose|j: int|
                0 <= j < seen.len() && counts(#[trigger] seen[j]) && seen[j].position.y < pos.y;
            assert(next[j] == seen[j]);
        }
    }
    assert(after.has_south == (before.has_south || (counts(s) && pos.y < s.position.y))) by {
        if before.has_south {
            let j = choose|j: int|
                0 <= j < seen.len() && counts(#[trigger] seen[j]) && pos.y < seen[j].position.y;
            assert(next[j] == seen[j]);
        }
    }
    assert(after.has_west == (before.has_west || (counts(s) && s.position.x < pos.x))) by {
        if before.has_west {
            let j = choose|j: int|
                0 <= j < seen.len() && counts(#[trigger] seen[j]) && seen[j].position.x < pos.x;
            assert(next[j] == seen[j]);
        }
    }
    assert(after.has_east == (before.has_east || (counts(s) && pos.x < s.position.x))) by {
        if before.has_east {
            let j = choose|j: int|
                0 <= j < seen.len() && counts(#[trigger] seen[j]) && pos.x < seen[j].position.x;
            assert(next[j] == seen[j]);
        }
    }
}

/// One more player adds the directions in which it does not lie, where it
/// counts.
proof fn lemma_away_push(
    pos: Position,
    seen: Seq<Sighting>,
    s: Sighting,
    counts: spec_fn(Sighting) -> bool,
)
    ensures
        directions_away(pos, seen.push(s), counts) == directions_away(pos, seen, counts).spec_union(
            if counts(s) {
                pos.spec_relative_direction(s.position).spec_complement()
            } else {
                DirectionFlags::spec_empty()
            },
        ),
{
    let next = seen.push(s);
    let before = directions_away(pos, seen, counts);
    let after = directions_away(pos, next, counts);
    assert(next[seen.len() as int] == s);
    assert(forall|j: int| 0 <= j < seen.len() ==> next[j] == seen[j]);
    assert(after.has_north == (before.has_north || (counts(s) && !(s.position.y < pos.y)))) by {
        if before.has_north {
            let j = choose|j: int|
                0 <= j < seen.len() && counts(#[trigger] seen[j]) && !(seen[j].position.y < pos.y);
            assert(next[j] == seen[j]);
        }
    }
    assert(after.has_south == (before.has_south || (counts(s) && !(pos.y < s.position.y)))) by {
        if before.has_south {
            let j = choose|j: int|
                0 <= j < seen.len() && counts(#[trigger] seen[j]) && !(pos.y < seen[j].position.y);
            assert(next[j] == seen[j]);
        }
    }
    assert(after.has_west == (before.has_west || (counts(s) && !(s.position.x < pos.x)))) by {
        if before.has_west {
            let j = choose|j: int|
                0 <= j < seen.len() && counts(#[trigger] seen[j]) && !(seen[j].position.x < pos.x);
            assert(next[j] == seen[j]);
        }
    }
    assert(after.has_east == (before.has_east || (counts(s) && !(pos.x < s.position.x)))) by {
        if before.has_east {
            let j = choose|j: int|
                0 <= j < seen.len() && counts(#[trigger] seen[j]) && !(pos.x < seen[j].position.x);
            assert(next[j] == seen[j]);
        }
    }
}

/// One of the players counts once one more is seen where one counted
/// before or the new one counts.
proof fn lemma_any_push(seen: Seq<Sighting>, s: Sighting, counts: spec_fn(Sighting) -> bool)
    ensures
        any_counts(seen.push(s), counts) == (any_counts(seen, counts) || counts(s)),
{
    let next = seen.push(s);
    assert(next[seen.len() as int] == s);
    assert(forall|j: int| 0 <= j < seen.len() ==> next[j] == seen[j]);
    if any_counts(seen, counts) {
        let j = choose|j: int| 0 <= j < seen.len() && counts(#[trigger] seen[j]);
        assert(next[j] == seen[j]);
    }
}

/// How far a Closer or a Wuss sees.
pub const CLOSER_RADIUS: i16 = 3;

/// Whether a Closer flees from the player: a scared one flees from every
/// player, another one from those with a sword or a crown.
pub open spec fn spec_is_predator(scared: bool, s: Sighting) -> bool {
    scared || s.items.sword || s.items.crown
}

/// Where a Closer or a Wuss at `pos` may step, if it is to move at all:
/// toward the players near it that it hunts, but not toward a player right
/// beside it from whom it flees; away from those from whom it flees, where
/// it hunts none; toward its spawn position where no player is near, or
/// anywhere where that way is barred; and nowhere where it is at home and
/// alone. It steps in none of the directions `invalid`.
pub open spec fn closer_options(
    pos: Position,
    spawn: Position,
    scared: bool,
    invalid: DirectionFlags,
    seen: Seq<Sighting>,
) -> Option<Seq<Position>> {
    let prey = |s: Sighting| in_square(pos, 3, s.position) && !spec_is_predator(scared, s);
    let predator = |s: Sighting| in_square(pos, 3, s.position) && spec_is_predator(scared, s);
    let beside = |s: Sighting|
        in_square(pos, 3, s.position) && spec_is_predator(scared, s)
            && pos.spec_adjacent_exclusive(s.position);
    let valid = invalid.spec_complement();
    if any_counts(seen, prey) {
        Some(
            directions_toward(pos, seen, prey).spec_intersection(
                directions_toward(pos, seen, beside).spec_complement(),
            ).spec_intersection(valid).spec_to_positions(pos),
        )
    } else if any_counts(seen, predator) {
        Some(directions_away(pos, seen, predator).spec_intersection(valid).spec_to_positions(pos))
    } else if pos != spawn {
        let home = pos.spec_relative_direction(spawn).spec_intersection(valid);
        Some(
            (if home.spec_is_empty() {
                valid
            } else {
                home
            }).spec_to_positions(pos),
        )
    } else {
        None
    }
}

/// Where a Chase at `pos` may step: toward the players with a shield, in
/// none of the directions `invalid`.
pub open spec fn chase_options(pos: Position, invalid: DirectionFlags, seen: Seq<Sighting>) -> Seq<
    Position,
> {
    directions_toward(pos, seen, |s: Sighting| s.items.shield).spec_intersection(
        invalid.spec_complement(),
    ).spec_to_positions(pos)
}

/// Where a Snail at `pos` may step that sees `radius` tiles far: toward the
/// players that it sees, in none of the directions `invalid`; nothing where
/// no such step is left.
pub open spec fn snail_options(
    pos: Position,
    radius: int,
    invalid: DirectionFlags,
    seen: Seq<Sighting>,
) -> Option<Seq<Position>> {
    let dirs = directions_toward(
        pos,
        seen,
        |s: Sighting| in_square(pos, radius, s.position),
    ).spec_intersection(invalid.spec_complement());
    if dirs.spec_is_empty() {
        None
    } else {
        Some(dirs.spec_to_positions(pos))
    }
}

/// Where a Crawl at `pos` may strike: at the players right beside it, in
/// none of the directions `invalid`.
pub open spec fn crawl_attack_locations(
    pos: Position,
    invalid: DirectionFlags,
    seen: Seq<Sighting>,
) -> Seq<Position> {
    directions_toward(
        pos,
        seen,
        |s: Sighting| pos.spec_taxicab_distance(s.position) == 1,
    ).spec_intersection(invalid.spec_complement()).spec_to_positions(pos)
}

/// Whether one of the players stands on one of the switches.
pub open spec fn switch_pressed(switches: Seq<Position>, seen: Seq<Sighting>) -> bool {
    exists|i: int, j: int|
        0 <= i < seen.len() && 0 <= j < switches.len() && (#[trigger] seen[i]).position
            == #[trigger] switches[j]
}

fn is_in_square(pos: &Position, radius: i16, p: &Position) -> (r: bool)
    requires
        radius >= 0,
    ensures
        r == in_square(*pos, radius as int, *p),
{
    let w = saturating(pos.x as i32 - radius as i32);
    let n = saturating(pos.y as i32 - radius as i32);
    let e = saturating(pos.x as i32 + radius as i32);
    let s = saturating(pos.y as i32 + radius as i32);
    n <= p.y && p.y <= s && w <= p.x && p.x <= e
}

/// Where a Closer or a Wuss at `pos` may step, if it is to move at all.
#[verifier::loop_isolation(false)]
#[verifier::rlimit(40)]
pub fn get_closer_options(
    pos: Position,
    spawn: Position,
    scared: bool,
    invalid: DirectionFlags,
    seen: &Vec<Sighting>,
) -> (r: Option<Vec<Position>>)
    ensures
        match r {
            Some(options) => closer_options(pos, spawn, scared, invalid, seen@) == Some(options@),
            None => closer_options(pos, spawn, scared, invalid, seen@) is None,
        },
{
    let ghost prey = |s: Sighting| in_square(pos, 3, s.position) && !spec_is_predator(scared, s);
    let ghost predator = |s: Sighting|
        in_square(pos, 3, s.position) && spec_is_predator(scared, s);
    let ghost beside = |s: Sighting|
        in_square(pos, 3, s.position) && spec_is_predator(scared, s)
            && pos.spec_adjacent_exclusive(s.position);
    let mut prey_dirs = DirectionFlags::empty();
    let mut run_dirs = DirectionFlags::empty();
    let mut beside_dirs = DirectionFlags::empty();
    let mut any_prey = false;
    let mut any_predator = false;
    let mut i: usize = 0;
    assert(seen@.take(0) =~= Seq::<Sighting>::empty());
    while i < seen.len()
        invariant
            i <= seen.len(),
            prey_dirs == directions_toward(pos, seen@.take(i as int), prey),
            run_dirs == directions_away(pos, seen@.take(i as int), predator),
            beside_dirs == directions_toward(pos, seen@.take(i as int), beside),
            any_prey == any_counts(seen@.take(i as int), prey),
            any_predator == any_counts(seen@.take(i as int), predator),
        decreases seen.len() - i,
    {
        let s = seen[i];
        proof {
            assert(seen@.take(i + 1) =~= seen@.take(i as int).push(s));
            lemma_toward_push(pos, seen@.take(i as int), s, prey);
            lemma_away_push(pos, seen@.take(i as int), s, predator);
            lemma_toward_push(pos, seen@.take(i as int), s, beside);
            lemma_any_push(seen@.take(i as int), s, prey);
            lemma_any_push(seen@.take(i as int), s, predator);
        }
        if is_in_square(&pos, CLOSER_RADIUS, &s.position) {
            if scared || s.items.sword || s.items.crown {
                any_predator = true;
                run_dirs = run_dirs.union(pos.relative_direction(&s.position).complement());
                if pos.adjacent_exclusive(&s.position) {
                    beside_dirs = beside_dirs.union(pos.relative_direction(&s.position));
                }
            } else {
                any_prey = true;
                prey_dirs = prey_dirs.union(pos.relative_direction(&s.position));
            }
        }
        i = i + 1;
    }
    assert(seen@.take(seen@.len() as int) =~= seen@);
    let valid = invalid.complement();
    if any_prey {
        Some(prey_dirs.intersection(beside_dirs.complement()).intersection(valid).to_positions(&pos))
    } else if any_predator {
        Some(run_dirs.intersection(valid).to_positions(&pos))
    } else if pos != spawn {
        let home = pos.relative_direction(&spawn).intersection(valid);
        if home.is_empty() {
            Some(valid.to_positions(&pos))
        } else {
            Some(home.to_positions(&pos))
        }
    } else {
        None
    }
}

/// Where a Chase at `pos` may step.
#[verifier::loop_isolation(false)]
pub fn get_chase_options(pos: Position, invalid: DirectionFlags, seen: &Vec<Sighting>) -> (r: Vec<
    Position,
>)
    ensures
        r@ == chase_options(pos, invalid, seen@),
{
    let ghost armed = |s: Sighting| s.items.shield;
    let mut dirs = DirectionFlags::empty();
    let mut i: usize = 0;
    assert(seen@.take(0) =~= Seq::<Sighting>::empty());
    while i < seen.len()
        invariant
            i <= seen.len(),
            dirs == directions_toward(pos, seen@.take(i as int), armed),
        decreases seen.len() - i,
    {
        let s = seen[i];
        proof {
            assert(seen@.take(i + 1) =~= seen@.take(i as int).push(s));
            lemma_toward_push(pos, seen@.take(i as int), s, armed);
        }
        if s.items.shield {
            dirs = dirs.union(pos.relative_direction(&s.position));
        }
        i = i + 1;
    }
    assert(seen@.take(seen@.len() as int) =~= seen@);
    dirs.intersection(invalid.complement()).to_positions(&pos)
}

/// Where a Snail at `pos` may step that sees `radius` tiles far.
#[verifier::loop_isolation(false)]
pub fn get_snail_options(
    pos: Position,
    radius: i16,
    invalid: DirectionFlags,
    seen: &Vec<Sighting>,
) -> (r: Option<Vec<Position>>)
    requires
        radius >= 0,
    ensures
        match r {
            Some(options) => snail_options(pos, radius as int, invalid, seen@) == Some(options@)
                && options@.len() > 0,
            None => snail_options(pos, radius as int, invalid, seen@) is None,
        },
{
    let ghost near = |s: Sighting| in_square(pos, radius as int, s.position);
    let mut dirs = DirectionFlags::empty();
    let mut i: usize = 0;
    assert(seen@.take(0) =~= Seq::<Sighting>::empty());
    while i < seen.len()
        invariant
            i <= seen.len(),
            dirs == directions_toward(pos, seen@.take(i as int), near),
        decreases seen.len() - i,
    {
        let s = seen[i];
        proof {
            assert(seen@.take(i + 1) =~= seen@.take(i as int).push(s));
            lemma_toward_push(pos, seen@.take(i as int), s, near);
        }
        if is_in_square(&pos, radius, &s.position) {
            dirs = dirs.union(pos.relative_direction(&s.position));
        }
        i = i + 1;
    }
    assert(seen@.take(seen@.len() as int) =~= seen@);
    let valid = dirs.intersection(invalid.complement());
    if valid.is_empty() {
        None
    } else {
        Some(valid.to_positions(&pos))
    }
}

/// Where a Crawl at `pos` may strike.
#[verifier::loop_isolation(false)]
pub fn get_crawl_locations(pos: Position, invalid: DirectionFlags, seen: &Vec<Sighting>) -> (r: Vec<
    Position,
>)
    ensures
        r@ == crawl_attack_locations(pos, invalid, seen@),
{
    let ghost beside = |s: Sighting| pos.spec_taxicab_distance(s.position) == 1;
    let mut dirs = DirectionFlags::empty();
    let mut i: usize = 0;
    assert(seen@.take(0) =~= Seq::<Sighting>::empty());
    while i < seen.len()
        invariant
            i <= seen.len(),
            dirs == directions_toward(pos, seen@.take(i as int), beside),
        decreases seen.len() - i,
    {
        let s = seen[i];
        proof {
            assert(seen@.take(i + 1) =~= seen@.take(i as int).push(s));
            lemma_toward_push(pos, seen@.take(i as int), s, beside);
        }
        if pos.taxicab_distance(&s.position) == 1 {
            dirs = dirs.union(pos.relative_direction(&s.position));
        }
        i = i + 1;
    }
    assert(seen@.take(seen@.len() as int) =~= seen@);
    dirs.intersection(invalid.complement()).to_positions(&pos)
}

/// Whether one of the players stands on one of the switches.
#[verifier::loop_isolation(false)]
pub fn is_switch_pressed(switches: &Vec<Position>, seen: &Vec<Sighting>) -> (r: bool)
    ensures
        r == switch_pressed(switches@, seen@),
{
    let mut i: usize = 0;
    while i < seen.len()
        invariant
            i <= seen.len(),
            forall|a: int, b: int|
                0 <= a < i && 0 <= b < switches@.len() ==> (#[trigger] seen@[a]).position
                    != #[trigger] switches@[b],
        decreases seen.len() - i,
    {
        let mut j: usize = 0;
        while j < switches.len()
            invariant
                j <= switches.len(),
                i < seen.len(),
                forall|b: int| 0 <= b < j ==> seen@[i as int].position != #[trigger] switches@[b],
            decreases switches.len() - j,
        {
            if seen[i].position == switches[j] {
                return true;
            }
            j = j + 1;
        }
        i = i + 1;
    }
    false
}


/// One of `options`, drawn at random, or nothing where there is none.
/// Wraps `SliceRandom::choose` of rand with the generator of the thread,
/// which gives an item of the slice unless the slice is empty.
#[verifier::external_body]
fn choose_position(options: &Vec<Position>) -> (r: Option<Position>)
    ensures
        is_choice_from(options@, r),
{
    options.choose(&mut thread_rng()).copied()
}

/// Whether `choice` can be what was chosen from `options`: one of them, or
/// nothing where there is none.
pub open spec fn is_choice_from(options: Seq<Position>, choice: Option<Position>) -> bool {
    match choice {
        Some(p) => options.contains(p),
        None => options.len() == 0,
    }
}

/// Whether `choice` can be what an entity chose that had the options
/// `options`, if it had any.
pub open spec fn is_choice(options: Option<Seq<Position>>, choice: Option<Position>) -> bool {
    match options {
        Some(list) => is_choice_from(list, choice),
        None => choice is None,
    }
}

/// How far a sleeping Snail sees.
pub const SNAIL_SLEEPING_RADIUS: i16 = 1;

/// How far a Snail sees that is awake.
pub const SNAIL_ACTIVE_RADIUS: i16 = 2;

impl SoaprunServer {
    /// Whether this world is `before` but for the entity `index`.
    pub open spec fn same_but_entity(&self, before: &SoaprunServer, index: usize) -> bool {
        &&& self.map == before.map
        &&& self.players_with_shield == before.players_with_shield
        &&& self.entity_update_rate == before.entity_update_rate
        &&& self.connection_timeout == before.connection_timeout
        &&& self.idle_timeout == before.idle_timeout
        &&& self.limits == before.limits
        &&& self.players@ == before.players@
        &&& self.entities@.len() == before.entities@.len()
        &&& forall|j: int|
            0 <= j < before.entities@.len() && j != index ==> #[trigger] self.entities@[j]
                == before.entities@[j]
    }

    /// The directions in which the entity at `pos` cannot step, because of
    /// the tiles or because an entity stands there.
    pub open spec fn invalid_movements(&self, pos: Position) -> DirectionFlags {
        self.map.invalid_tile_movements(pos).spec_union(entity_directions(pos, self.entities@))
    }

    /// The positions among which the entity `index` chooses its step, if
    /// its kind and its state give it a choice.
    pub open spec fn movement_options(&self, index: usize) -> Option<Seq<Position>> {
        let e = self.entities@[index as int]@;
        let pos = e.position();
        let seen = sightings(self.players@);
        match e.unit.unit_type {
            UnitTypes::Closer | UnitTypes::Wuss => closer_options(
                pos,
                e.spawn_position,
                e.unit.unit_type == UnitTypes::Wuss,
                self.invalid_movements(pos),
                seen,
            ),
            UnitTypes::Crawl => Some(
                crawl_attack_locations(pos, self.map.invalid_tile_movements(pos), seen),
            ),
            UnitTypes::Chase => Some(chase_options(pos, self.invalid_movements(pos), seen)),
            UnitTypes::Snail => snail_options(
                pos,
                if e.unit.unit_state == UnitStates::Active {
                    SNAIL_ACTIVE_RADIUS as int
                } else {
                    SNAIL_SLEEPING_RADIUS as int
                },
                self.map.invalid_tile_movements(pos),
                seen,
            ),
            _ => None,
        }
    }

    /// Whether a player stands on a switch of the entity `index`.
    pub open spec fn gate_pressed(&self, index: usize) -> bool {
        match self.entities@[index as int]@.properties {
            EntityPropertiesView::SwitchedDirection { off_dir, on_dir, switches } => switch_pressed(
                switches,
                sightings(self.players@),
            ),
            _ => false,
        }
    }

    /// Whether the entity `index` looks at the world with this tick: its
    /// rest is over, or it is a Chase that hunts.
    pub open spec fn looks(&self, index: usize) -> bool {
        let e = self.entities@[index as int]@;
        e.due() || (e.unit.unit_type == UnitTypes::Chase && e.unit.unit_state
            == UnitStates::Active)
    }

    /// Where a Closer or a Wuss, the entity `index`, may step.
    pub fn get_closer_movement_options(&self, index: usize) -> (r: Option<Vec<Position>>)
        requires
            self.wf(),
            index < self.entities@.len(),
        ensures
            match r {
                Some(options) => Some(options@),
                None => None,
            } == closer_options(
                self.entities@[index as int].spec_position(),
                self.entities@[index as int].spawn_position,
                self.entities@[index as int].unit.unit_type == UnitTypes::Wuss,
                self.invalid_movements(self.entities@[index as int].spec_position()),
                sightings(self.players@),
            ),
    {
        let pos = self.entities[index].position();
        let spawn = self.entities[index].spawn_position;
        let scared = match self.entities[index].unit.unit_type {
            UnitTypes::Wuss => true,
            _ => false,
        };
        let invalid = self.map.get_invalid_tile_movements(pos).union(
            get_invalid_entity_movements(&self.entities, pos),
        );
        let seen = self.get_sightings();
        get_closer_options(pos, spawn, scared, invalid, &seen)
    }

    /// Where a Crawl at `pos` may strike.
    pub fn get_crawl_attack_locations(&self, pos: Position) -> (r: Vec<Position>)
        requires
            self.wf(),
        ensures
            r@ == crawl_attack_locations(
                pos,
                self.map.invalid_tile_movements(pos),
                sightings(self.players@),
            ),
    {
        let invalid = self.map.get_invalid_tile_movements(pos);
        let seen = self.get_sightings();
        get_crawl_locations(pos, invalid, &seen)
    }

    /// Where a Chase at `pos` may step.
    pub fn get_chase_movement_options(&self, pos: Position) -> (r: Vec<Position>)
        requires
            self.wf(),
        ensures
            r@ == chase_options(pos, self.invalid_movements(pos), sightings(self.players@)),
    {
        let invalid = self.map.get_invalid_tile_movements(pos).union(
            get_invalid_entity_movements(&self.entities, pos),
        );
        let seen = self.get_sightings();
        get_chase_options(pos, invalid, &seen)
    }

    /// Where a Snail at `pos` may step that sees `radius` tiles far.
    pub fn get_snail_movement_options(&self, pos: Position, radius: i16) -> (r: Option<
        Vec<Position>,
    >)
        requires
            self.wf(),
            radius >= 0,
        ensures
            match r {
                Some(options) => Some(options@),
                None => None,
            } == snail_options(
                pos,
                radius as int,
                self.map.invalid_tile_movements(pos),
                sightings(self.players@),
            ),
    {
        let invalid = self.map.get_invalid_tile_movements(pos);
        let seen = self.get_sightings();
        get_snail_options(pos, radius, invalid, &seen)
    }

    /// The positions among which the entity `index` chooses its step, if
    /// its kind and its state give it a choice.
    pub fn get_movement_options(&self, index: usize) -> (r: Option<Vec<Position>>)
        requires
            self.wf(),
            index < self.entities@.len(),
        ensures
            match r {
                Some(options) => Some(options@),
                None => None,
            } == self.movement_options(index),
    {
        let pos = self.entities[index].position();
        match self.entities[index].unit.unit_type {
            UnitTypes::Closer | UnitTypes::Wuss => self.get_closer_movement_options(index),
            UnitTypes::Crawl => Some(self.get_crawl_attack_locations(pos)),
            UnitTypes::Chase => Some(self.get_chase_movement_options(pos)),
            UnitTypes::Snail => {
                let radius = match self.entities[index].unit.unit_state {
                    UnitStates::Active => SNAIL_ACTIVE_RADIUS,
                    _ => SNAIL_SLEEPING_RADIUS,
                };
                self.get_snail_movement_options(pos, radius)
            },
            _ => None,
        }
    }

    /// Whether a player stands on a switch of the entity `index`.
    pub fn is_gate_pressed(&self, index: usize) -> (r: bool)
        requires
            self.wf(),
            index < self.entities@.len(),
        ensures
            r == self.gate_pressed(index),
    {
        match &self.entities[index].properties {
            EntityProperties::SwitchedDirection(sd) => {
                let seen = self.get_sightings();
                is_switch_pressed(&sd.switches, &seen)
            },
            _ => false,
        }
    }

    /// Whether this world is `before` after the entity `index` let a tick
    /// pass and chose `choice`, which it did among positions if
    /// `has_options` says so.
    pub open spec fn advanced(
        &self,
        before: &SoaprunServer,
        index: usize,
        has_options: bool,
        choice: Option<Position>,
    ) -> bool {
        &&& self.same_but_entity(before, index)
        &&& self.entities@[index as int]@ == before.entities@[index as int]@.ticked(
            before.entity_update_rate,
            before.players_with_shield > 0,
            before.gate_pressed(index),
            has_options,
            choice,
        )
    }

    /// Lets a tick pass for the entity `index`, which has chosen `choice`,
    /// among positions if `has_options` says so.
    #[verifier::rlimit(40)]
    pub fn advance_entity(&mut self, index: usize, has_options: bool, choice: Option<Position>)
        requires
            old(self).wf(),
            index < old(self).entities@.len(),
        ensures
            final(self).wf(),
            final(self).advanced(old(self), index, has_options, choice),
    {
        let pressed = match self.entities[index].unit.unit_type {
            UnitTypes::Gate => self.is_gate_pressed(index),
            _ => false,
        };
        let shields = self.players_with_shield > 0;
        let rate = self.entity_update_rate;
        assert(old(self).entities@[index as int].wf());
        Entity::tick(&mut self.entities[index], rate, shields, pressed, has_options, choice);
        proof {
            let e = old(self).entities@[index as int]@;
            assert(e.ticked(rate, shields, pressed, has_options, choice) == e.ticked(
                rate,
                shields,
                old(self).gate_pressed(index),
                has_options,
                choice,
            ));
            assert(forall|j: int|
                0 <= j < old(self).entities@.len() && j != index ==> self.entities@[j] == old(
                    self,
                ).entities@[j]);
            assert(entities_wf(self.entities@)) by {
                assert forall|n: int| 0 <= n < self.entities@.len() implies (
                #[trigger] self.entities@[n]).wf() by {
                    assert(old(self).entities@[n].wf());
                }
            }
            assert forall|n: int| 0 <= n < self.players@.len() implies (
            #[trigger] self.players@[n] matches Some(c) ==> {
                &&& c.wf()
                &&& c.number == n
                &&& claims_hold(c@, self.entities@)
            }) by {
                match self.players@[n] {
                    Some(c) => {
                        assert(claims_hold(c@, old(self).entities@));
                    },
                    None => {},
                }
            }
        }
    }

    /// Whether this world is `before` after the Snail that the entity
    /// `index` is, if it is one and not dead, has wiped the corpse from the
    /// tile on which it sits.
    pub open spec fn cleaned(&self, before: &SoaprunServer, index: usize) -> bool {
        let e = before.entities@[index as int]@;
        if e.unit.unit_type == UnitTypes::Snail && (e.unit.unit_state == UnitStates::Sleeping
            || e.unit.unit_state == UnitStates::Active) {
            exists|count: usize| #[trigger] self.corpse_wiped(before, e.position(), count)
        } else {
            *self == *before
        }
    }

    /// Lets the Snail that the entity `index` is, if it is one and not
    /// dead, wipe the corpse from the tile on which it sits.
    pub fn clean_under_snail(&mut self, index: usize)
        requires
            old(self).wf(),
            index < old(self).entities@.len(),
        ensures
            final(self).wf(),
            final(self).cleaned(old(self), index),
    {
        let is_snail = match self.entities[index].unit.unit_type {
            UnitTypes::Snail => true,
            _ => false,
        };
        let moves = match self.entities[index].unit.unit_state {
            UnitStates::Sleeping | UnitStates::Active => true,
            _ => false,
        };
        if is_snail && moves {
            let pos = self.entities[index].position();
            assert(forall|t: u8|
                REMOVE_CORPSE_TILES@.contains(t) ==> t >= 16);
            let wipe = |t: u8| -> (n: u8)
                requires
                    t >= 16,
                ensures
                    n == t - 16,
                { t - 16 };
            let count = self.try_update_tile(
                &pos,
                REMOVE_CORPSE_TILES.as_slice(),
                wipe,
            );
            assert(self.corpse_wiped(old(self), pos, count));
        }
    }

    /// Whether this world is `before` after a tick of the entity `index`:
    /// a Snail has wiped the tile under it, and the entity has let the tick
    /// pass with a step chosen among the positions that it had to choose
    /// from.
    pub open spec fn entity_ticked(&self, before: &SoaprunServer, index: usize) -> bool {
        exists|mid: SoaprunServer, choice: Option<Position>|
            {
                &&& mid.wf()
                &&& #[trigger] mid.cleaned(before, index)
                &&& is_choice(mid.movement_options(index), choice)
                &&& #[trigger] self.advanced(
                    &mid,
                    index,
                    mid.movement_options(index) is Some,
                    choice,
                )
            }
    }

    /// Lets a tick pass for the entity `index`, which chooses its step at
    /// random.
    #[verifier::rlimit(40)]
    pub fn tick_entity(&mut self, index: usize)
        requires
            old(self).wf(),
            index < old(self).entities@.len(),
        ensures
            final(self).wf(),
            final(self).entities@.len() == old(self).entities@.len(),
            final(self).entity_ticked(old(self), index),
    {
        self.clean_under_snail(index);
        let ghost mid = *self;
        assert(mid.entities@.len() == old(self).entities@.len()) by {
            assert(mid.cleaned(old(self), index));
        }
        let options = if self.is_looking(index) {
            self.get_movement_options(index)
        } else {
            None
        };
        let (has_options, choice) = match &options {
            Some(list) => (true, choose_position(list)),
            None => (false, None),
        };
        self.advance_entity(index, has_options, choice);
        proof {
            let any = Self::some_choice(mid.movement_options(index));
            let found = if mid.looks(index) {
                choice
            } else {
                any
            };
            let e = mid.entities@[index as int]@;
            assert(e.ticked(
                mid.entity_update_rate,
                mid.players_with_shield > 0,
                mid.gate_pressed(index),
                has_options,
                choice,
            ) == e.ticked(
                mid.entity_update_rate,
                mid.players_with_shield > 0,
                mid.gate_pressed(index),
                mid.movement_options(index) is Some,
                found,
            ));
            assert(is_choice(mid.movement_options(index), found)) by {
                if !mid.looks(index) {
                    match mid.movement_options(index) {
                        Some(list) => {
                            if list.len() > 0 {
                                assert(list.contains(list[0]));
                            }
                        },
                        None => {},
                    }
                }
            }
            assert(self.advanced(&mid, index, mid.movement_options(index) is Some, found));
        }
    }

    /// One of the positions that an entity can choose that has the options
    /// `options`.
    pub open spec fn some_choice(options: Option<Seq<Position>>) -> Option<Position> {
        match options {
            Some(list) => if list.len() > 0 {
                Some(list[0])
            } else {
                None
            },
            None => None,
        }
    }

    /// Whether the entity `index` looks at the world with this tick.
    pub fn is_looking(&self, index: usize) -> (r: bool)
        requires
            index < self.entities@.len(),
        ensures
            r == self.looks(index),
    {
        let e = &self.entities[index];
        e.counter <= 1 || (match e.unit.unit_type {
            UnitTypes::Chase => match e.unit.unit_state {
                UnitStates::Active => true,
                _ => false,
            },
            _ => false,
        })
    }

    /// Whether this world is `before` after a tick of each of the first
    /// `count` entities, one after the other.
    pub open spec fn entities_ticked(&self, before: &SoaprunServer, count: nat) -> bool
        decreases count,
    {
        if count == 0 {
            *self == *before
        } else {
            exists|mid: SoaprunServer, last: nat|
                {
                    &&& last + 1 == count
                    &&& mid.wf()
                    &&& mid.entities_ticked(before, last)
                    &&& #[trigger] self.entity_ticked(&mid, last as usize)
                }
        }
    }

    /// Lets a tick pass for every entity, one after the other.
    #[verifier::rlimit(40)]
    pub fn entity_handler(&mut self)
        requires
            old(self).wf(),
        ensures
            final(self).wf(),
            final(self).entities@.len() == old(self).entities@.len(),
            final(self).entities_ticked(old(self), old(self).entities@.len()),
    {
        let mut index: usize = 0;
        while index < self.entities.len()
            invariant
                index <= self.entities.len(),
                self.wf(),
                self.entities@.len() == old(self).entities@.len(),
                self.entities_ticked(old(self), index as nat),
            decreases self.entities.len() - index,
        {
            let ghost mid = *self;
            self.tick_entity(index);
            proof {
                let next = (index + 1) as nat;
                let last = index as nat;
                assert(mid.entities_ticked(old(self), last));
                assert(self.entity_ticked(&mid, last as usize));
                assert(self.entities_ticked(old(self), next));
            }
            index = index + 1;
        }
    }
}

} // verus!
