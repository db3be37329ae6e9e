use vstd::prelude::*;

use super::clients::entities_wf;
use super::entities::{
    Entity, EntityProperties, EntityPropertiesView, EntityView, KillCounter, SwitchedDirection,
    initial_state,
};
use super::rooms::{RoomVerificationBounds, RoomVerificationModes};
use crate::soaprun::position::{copy_positions, Position};
use crate::soaprun::units::{UnitTypes, UnitView};

verus! {

/// How the server is set up.
pub struct ServerConfig {
    pub room_directory: String,
    pub room_verification_bounds: RoomVerificationBounds,
    pub room_verification_mode: RoomVerificationModes,
    pub entity_path: String,
    pub attributes_path: String,
    /// The seconds after which a connection that does not answer is closed;
    /// zero for never.
    pub connection_timeout: u64,
    /// The seconds after which a player who does nothing is sent away; zero
    /// for never.
    pub idle_timeout: u64,
    pub max_players: u32,
    /// Zero for no bound.
    pub max_player_movement_nodes_per_packet: u32,
    /// Zero for no bound.
    pub max_player_distance_per_movement_node: u32,
    /// Zero for no bound.
    pub max_player_distance_per_packet: u32,
    pub address: String,
}

/// Where an entity is set up.
pub struct PositionInit {
    pub x: i16,
    pub y: i16,
}

/// Where a flame is set up, and in which direction.
pub struct FlameInit {
    pub x: i16,
    pub y: i16,
    pub direction: u8,
}

/// Where a gate is set up, in which direction it opens, and what opens it.
pub struct GateInit {
    pub x: i16,
    pub y: i16,
    pub open_direction: u8,
    pub switches: Vec<Position>,
}

/// The entities that a world can be set up with.
pub enum EntityInitInfo {
    Goal(PositionInit),
    Closer(PositionInit),
    Sword(PositionInit),
    Crawl(PositionInit),
    Hummer(FlameInit),
    Rounder(FlameInit),
    Wuss(PositionInit),
    Chase(PositionInit),
    Gate(GateInit),
    Shield(PositionInit),
    Cross(FlameInit),
    Snail(PositionInit),
}

/// The direction of a gate that is shut.
pub const GATE_SHUT_DIRECTION: u8 = 1;

/// The direction of a flame of which none is given.
pub fn default_flame_direction() -> (r: u8)
    ensures
        r == 0,
{
    0
}

/// The direction in which a gate opens of which none is given.
pub fn default_gate_direction() -> (r: u8)
    ensures
        r == 2,
{
    2
}

/// An entity as it is when the world begins.
pub open spec fn starting(
    pos: Position,
    unit_type: UnitTypes,
    direction: u8,
    properties: EntityPropertiesView,
) -> EntityView {
    EntityView {
        spawn_position: pos,
        counter: 0,
        properties,
        unit: UnitView {
            teleport_trigger: 0,
            unit_state: initial_state(unit_type),
            unit_type,
            direction,
            movements: seq![pos],
        },
    }
}

impl EntityInitInfo {
    /// The entity that is set up: of the kind that is named, at its place;
    /// a flame in its direction, a gate shut, a Closer or a Wuss without a
    /// kill.
    pub open spec fn entity(self) -> EntityView {
        let plain = EntityPropertiesView::Plain;
        let counting = EntityPropertiesView::KillCounter { kills: 0 };
        match self {
            EntityInitInfo::Goal(p) => starting(Position { x: p.x, y: p.y }, UnitTypes::Goal, 0, plain),
            EntityInitInfo::Closer(p) => starting(
                Position { x: p.x, y: p.y },
                UnitTypes::Closer,
                0,
                counting,
            ),
            EntityInitInfo::Sword(p) => starting(
                Position { x: p.x, y: p.y },
                UnitTypes::Sword,
                0,
                plain,
            ),
            EntityInitInfo::Crawl(p) => starting(
                Position { x: p.x, y: p.y },
                UnitTypes::Crawl,
                0,
                plain,
            ),
            EntityInitInfo::Hummer(f) => starting(
                Position { x: f.x, y: f.y },
                UnitTypes::Hummer,
                f.direction,
                plain,
            ),
            EntityInitInfo::Rounder(f) => starting(
                Position { x: f.x, y: f.y },
                UnitTypes::Rounder,
                f.direction,
                plain,
            ),
            EntityInitInfo::Wuss(p) => starting(
                Position { x: p.x, y: p.y },
                UnitTypes::Wuss,
                0,
                counting,
            ),
            EntityInitInfo::Chase(p) => starting(
                Position { x: p.x, y: p.y },
                UnitTypes::Chase,
                0,
                plain,
            ),
            EntityInitInfo::Gate(g) => starting(
                Position { x: g.x, y: g.y },
                UnitTypes::Gate,
                GATE_SHUT_DIRECTION,
                EntityPropertiesView::SwitchedDirection {
                    off_dir: GATE_SHUT_DIRECTION,
                    on_dir: g.open_direction,
                    switches: g.switches@,
                },
            ),
            EntityInitInfo::Shield(p) => starting(
                Position { x: p.x, y: p.y },
                UnitTypes::Shield,
                0,
                plain,
            ),
            EntityInitInfo::Cross(f) => starting(
                Position { x: f.x, y: f.y },
                UnitTypes::Cross,
                f.direction,
                plain,
            ),
            EntityInitInfo::Snail(p) => starting(
                Position { x: p.x, y: p.y },
                UnitTypes::Snail,
                0,
                plain,
            ),
        }
    }

    /// Sets the entity up.
    pub fn build(&self) -> (r: Entity)
        ensures
            r@ == self.entity(),
            r.wf(),
    {
        match self {
            EntityInitInfo::Goal(p) => Entity::new(
                Position { x: p.x, y: p.y },
                UnitTypes::Goal,
                0,
                EntityProperties::Plain,
            ),
            EntityInitInfo::Closer(p) => Entity::new(
                Position { x: p.x, y: p.y },
                UnitTypes::Closer,
                0,
                EntityProperties::KillCounter(KillCounter { kills: 0 }),
            ),
            EntityInitInfo::Sword(p) => Entity::new(
                Position { x: p.x, y: p.y },
                UnitTypes::Sword,
                0,
                EntityProperties::Plain,
            ),
            EntityInitInfo::Crawl(p) => Entity::new(
                Position { x: p.x, y: p.y },
                UnitTypes::Crawl,
                0,
                EntityProperties::Plain,
            ),
            EntityInitInfo::Hummer(f) => Entity::new(
                Position { x: f.x, y: f.y },
                UnitTypes::Hummer,
                f.direction,
                EntityProperties::Plain,
            ),
            EntityInitInfo::Rounder(f) => Entity::new(
                Position { x: f.x, y: f.y },
                UnitTypes::Rounder,
                f.direction,
                EntityProperties::Plain,
            ),
            EntityInitInfo::Wuss(p) => Entity::new(
                Position { x: p.x, y: p.y },
                UnitTypes::Wuss,
                0,
                EntityProperties::KillCounter(KillCounter { kills: 0 }),
            ),
            EntityInitInfo::Chase(p) => Entity::new(
                Position { x: p.x, y: p.y },
                UnitTypes::Chase,
                0,
                EntityProperties::Plain,
            ),
            EntityInitInfo::Gate(g) => Entity::new(
                Position { x: g.x, y: g.y },
                UnitTypes::Gate,
                GATE_SHUT_DIRECTION,
                EntityProperties::SwitchedDirection(
                    SwitchedDirection {
                        off_dir: GATE_SHUT_DIRECTION,
                        on_dir: g.open_direction,
                        switches: copy_positions(&g.switches),
                    },
                ),
            ),
            EntityInitInfo::Shield(p) => Entity::new(
                Position { x: p.x, y: p.y },
                UnitTypes::Shield,
                0,
                EntityProperties::Plain,
            ),
            EntityInitInfo::Cross(f) => Entity::new(
                Position { x: f.x, y: f.y },
                UnitTypes::Cross,
                f.direction,
                EntityProperties::Plain,
            ),
            EntityInitInfo::Snail(p) => Entity::new(
                Position { x: p.x, y: p.y },
                UnitTypes::Snail,
                0,
                EntityProperties::Plain,
            ),
        }
    }
}

/// Sets up the entities of a world, in the order in which they are given.
pub fn load_entities(entity_defs: &Vec<EntityInitInfo>) -> (r: Vec<Entity>)
    ensures
        r@.len() == entity_defs@.len(),
        forall|i: int| 0 <= i < r@.len() ==> (#[trigger] r@[i])@ == entity_defs@[i].entity(),
        entities_wf(r@),
{
    let mut entities: Vec<Entity> = Vec::with_capacity(entity_defs.len());
    let mut i: usize = 0;
    while i < entity_defs.len()
        invariant
            i <= entity_defs.len(),
            entities@.len() == i,
            forall|j: int| 0 <= j < i ==> (#[trigger] entities@[j])@ == entity_defs@[j].entity(),
            forall|j: int| 0 <= j < i ==> (#[trigger] entities@[j]).wf(),
        decreases entity_defs.len() - i,
    {
        entities.push(entity_defs[i].build());
        i = i + 1;
    }
    entities
}

} // verus!
