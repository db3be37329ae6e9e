use vstd::prelude::*;

use crate::soaprun::position::{copy_positions, Position};
use crate::soaprun::units::{Unit, UnitStates, UnitTypes, UnitView};

verus! {

/// How many players a Closer has killed since it last died or fled.
pub struct KillCounter {
    pub kills: usize,
}

/// The directions between which a gate switches, and the positions that
/// switch it.
pub struct SwitchedDirection {
    pub off_dir: u8,
    pub on_dir: u8,
    pub switches: Vec<Position>,
}

/// What an entity holds besides what every entity holds.
pub enum EntityProperties {
    /// Nothing more.
    Plain,
    KillCounter(KillCounter),
    SwitchedDirection(SwitchedDirection),
}

/// An entity of the world: what the players see of it, and what drives it.
pub struct Entity {
    pub spawn_position: Position,
    /// The ticks left until the entity acts again.
    pub counter: usize,
    pub properties: EntityProperties,
    pub unit: Unit,
}

/// The kills after which a Closer turns into a Wuss.
pub const CLOSER_KILLS: usize = 3;

/// An entity's properties as a plain value.
pub enum EntityPropertiesView {
    /// Nothing more.
    Plain,
    KillCounter { kills: usize },
    SwitchedDirection { off_dir: u8, on_dir: u8, switches: Seq<Position> },
}

impl View for EntityProperties {
    type V = EntityPropertiesView;

    open spec fn view(&self) -> EntityPropertiesView {
        match *self {
            EntityProperties::Plain => EntityPropertiesView::Plain,
            EntityProperties::KillCounter(k) => EntityPropertiesView::KillCounter {
                kills: k.kills,
            },
            EntityProperties::SwitchedDirection(s) => EntityPropertiesView::SwitchedDirection {
                off_dir: s.off_dir,
                on_dir: s.on_dir,
                switches: s.switches@,
            },
        }
    }
}

/// An entity as a plain value.
pub struct EntityView {
    pub spawn_position: Position,
    pub counter: usize,
    pub properties: EntityPropertiesView,
    pub unit: UnitView,
}

impl View for Entity {
    type V = EntityView;

    open spec fn view(&self) -> EntityView {
        EntityView {
            spawn_position: self.spawn_position,
            counter: self.counter,
            properties: self.properties@,
            unit: self.unit@,
        }
    }
}

/// The state in which an entity of a kind starts.
pub open spec fn initial_state(unit_type: UnitTypes) -> UnitStates {
    match unit_type {
        UnitTypes::Closer | UnitTypes::Wuss | UnitTypes::Chase | UnitTypes::Snail => {
            UnitStates::Sleeping
        },
        _ => UnitStates::Active,
    }
}

impl EntityPropertiesView {
    /// Whether the properties are those that an entity of the kind holds: a
    /// kill counter below the kills that turn a Closer, for a Closer or a
    /// Wuss, and switches for a gate.
    pub open spec fn fits(self, unit_type: UnitTypes) -> bool {
        match unit_type {
            UnitTypes::Closer | UnitTypes::Wuss => self matches EntityPropertiesView::KillCounter {
                kills,
            } && kills < CLOSER_KILLS,
            UnitTypes::Gate => self is SwitchedDirection,
            _ => true,
        }
    }

    /// The properties with the kills forgotten.
    pub open spec fn reset(self) -> EntityPropertiesView {
        match self {
            EntityPropertiesView::KillCounter { kills } => EntityPropertiesView::KillCounter {
                kills: 0,
            },
            _ => self,
        }
    }
}

impl EntityView {
    /// Where the entity is.
    pub open spec fn position(self) -> Position {
        self.unit.movements.last()
    }

    /// An entity is at a position, or on its way from one to the next, and
    /// holds the properties of its kind.
    pub open spec fn wf(self) -> bool {
        &&& 1 <= self.unit.movements.len() <= 2
        &&& self.properties.fits(self.unit.unit_type)
    }

    /// The entity after it was slain, to lie dead for `delay` ticks: a
    /// corpse, a Wuss turned into a Closer again, the kills forgotten.
    pub open spec fn killed(self, delay: usize) -> EntityView {
        EntityView {
            counter: delay,
            properties: self.properties.reset(),
            unit: UnitView {
                unit_state: UnitStates::Corpse,
                unit_type: if self.unit.unit_type == UnitTypes::Wuss {
                    UnitTypes::Closer
                } else {
                    self.unit.unit_type
                },
                ..self.unit
            },
            ..self
        }
    }

    /// The entity after it killed a player: a Closer counts the kill, and
    /// with the last of the kills that turn it, it forgets them and becomes a
    /// Wuss.
    pub open spec fn with_kill(self) -> EntityView {
        if self.unit.unit_type == UnitTypes::Closer {
            match self.properties {
                EntityPropertiesView::KillCounter { kills } => {
                    if kills + 1 == CLOSER_KILLS {
                        EntityView {
                            properties: EntityPropertiesView::KillCounter { kills: 0 },
                            unit: UnitView { unit_type: UnitTypes::Wuss, ..self.unit },
                            ..self
                        }
                    } else {
                        EntityView {
                            properties: EntityPropertiesView::KillCounter {
                                kills: (kills + 1) as usize,
                            },
                            ..self
                        }
                    }
                },
                _ => self,
            }
        } else {
            self
        }
    }

    /// The entity one tick later.
    pub open spec fn waited(self) -> EntityView {
        EntityView {
            counter: if self.counter == 0 {
                0
            } else {
                (self.counter - 1) as usize
            },
            ..self
        }
    }

    /// The entity back at its spawn position, in the given state, to act
    /// again after `delay` ticks.
    pub open spec fn respawned(self, state: UnitStates, delay: usize) -> EntityView {
        EntityView {
            counter: delay,
            unit: UnitView {
                unit_state: state,
                teleport_trigger: if self.unit.teleport_trigger == 255 {
                    0
                } else {
                    (self.unit.teleport_trigger + 1) as u8
                },
                movements: seq![self.spawn_position],
                ..self.unit
            },
            ..self
        }
    }
}

impl EntityView {
    /// The item entity in a player's hand: it is gone from the world.
    pub open spec fn claimed(self) -> EntityView {
        EntityView {
            unit: UnitView { unit_state: UnitStates::Corpse, ..self.unit },
            ..self
        }
    }

    /// The item entity back in the world, with the next trigger.
    pub open spec fn returned(self) -> EntityView {
        EntityView {
            unit: UnitView {
                unit_state: UnitStates::Active,
                teleport_trigger: if self.unit.teleport_trigger == 255 {
                    0
                } else {
                    (self.unit.teleport_trigger + 1) as u8
                },
                ..self.unit
            },
            ..self
        }
    }

    /// The item entity back in the world at `position`, with the next trigger.
    pub open spec fn dropped(self, position: Position) -> EntityView {
        let back = self.returned();
        EntityView {
            unit: UnitView { movements: seq![position], ..back.unit },
            ..back
        }
    }
}

/// The trigger that follows `trigger`: one more, and zero after the last.
pub fn next_trigger(trigger: u8) -> (r: u8)
    ensures
        r == if trigger == 255 {
            0
        } else {
            trigger + 1
        },
{
    if trigger == 255 {
        0
    } else {
        trigger + 1
    }
}

impl Entity {
    pub open spec fn wf(&self) -> bool {
        self@.wf()
    }

    /// Where the entity is.
    pub open spec fn spec_position(&self) -> Position {
        self@.position()
    }

    /// An entity of the given kind that stands at `pos`, its spawn position.
    pub fn new(
        pos: Position,
        unit_type: UnitTypes,
        direction: u8,
        properties: EntityProperties,
    ) -> (r: Entity)
        ensures
            r@ == (EntityView {
                spawn_position: pos,
                counter: 0,
                properties: properties@,
                unit: UnitView {
                    teleport_trigger: 0,
                    unit_state: initial_state(unit_type),
                    unit_type,
                    direction,
                    movements: seq![pos],
                },
            }),
    {
        let mut movements: Vec<Position> = Vec::new();
        movements.push(pos);
        Entity {
            spawn_position: pos,
            counter: 0,
            properties,
            unit: Unit {
                teleport_trigger: 0,
                unit_state: match unit_type {
                    UnitTypes::Goal => UnitStates::Active,
                    UnitTypes::Closer => UnitStates::Sleeping,
                    UnitTypes::Sword => UnitStates::Active,
                    UnitTypes::Crawl => UnitStates::Active,
                    UnitTypes::Hummer => UnitStates::Active,
                    UnitTypes::Rounder => UnitStates::Active,
                    UnitTypes::Wuss => UnitStates::Sleeping,
                    UnitTypes::Chase => UnitStates::Sleeping,
                    UnitTypes::Gate => UnitStates::Active,
                    UnitTypes::Shield => UnitStates::Active,
                    UnitTypes::Cross => UnitStates::Active,
                    UnitTypes::Snail => UnitStates::Sleeping,
                },
                unit_type,
                direction,
                movements,
            },
        }
    }

    /// Where the entity is.
    pub fn position(&self) -> (r: Position)
        requires
            self.unit.movements@.len() >= 1,
        ensures
            r == self.spec_position(),
    {
        self.unit.movements[self.unit.movements.len() - 1]
    }

    /// Slays the entity: it lies dead for `dead_len` milliseconds, which are
    /// counted in ticks of `update_rate` milliseconds.
    pub fn kill(unit: &mut Entity, dead_len: usize, update_rate: usize)
        requires
            update_rate > 0,
        ensures
            final(unit)@ == old(unit)@.killed((dead_len / update_rate) as usize),
    {
        unit.unit.unit_state = UnitStates::Corpse;
        unit.counter = dead_len / update_rate;
        if let UnitTypes::Wuss = unit.unit.unit_type {
            unit.unit.unit_type = UnitTypes::Closer;
        }
        match &mut unit.properties {
            EntityProperties::KillCounter(kc) => {
                kc.kills = 0;
            },
            _ => {},
        }
    }

    /// Counts a player that the entity killed.
    pub fn add_kill(unit: &mut Entity)
        requires
            old(unit)@.properties.fits(old(unit).unit.unit_type),
        ensures
            final(unit)@ == old(unit)@.with_kill(),
            final(unit)@.properties.fits(final(unit).unit.unit_type),
    {
        if let UnitTypes::Closer = unit.unit.unit_type {
            let mut turned = false;
            match &mut unit.properties {
                EntityProperties::KillCounter(kc) => {
                    kc.kills = kc.kills + 1;
                    if kc.kills == CLOSER_KILLS {
                        kc.kills = 0;
                        turned = true;
                    }
                },
                _ => {},
            }
            if turned {
                unit.unit.unit_type = UnitTypes::Wuss;
            }
        }
    }

    /// Lets one tick pass, and says whether the entity may act now.
    pub fn wait(unit: &mut Entity) -> (r: bool)
        ensures
            final(unit)@ == old(unit)@.waited(),
            r == (final(unit).counter == 0),
    {
        if unit.counter > 0 {
            unit.counter = unit.counter - 1;
        }
        unit.counter == 0
    }

    /// Whether an entity can step on a tile of the given type.
    pub open spec fn spec_can_move_on_tile_type(tile_type: u8) -> bool {
        tile_type == 0 || tile_type == 3
    }

    pub fn can_move_on_tile_type(tile_type: u8) -> (r: bool)
        ensures
            r == Self::spec_can_move_on_tile_type(tile_type),
    {
        tile_type == 0 || tile_type == 3
    }
}

impl Clone for Entity {
    fn clone(&self) -> (r: Entity)
        ensures
            r@ == self@,
    {
        Entity {
            spawn_position: self.spawn_position,
            counter: self.counter,
            properties: match &self.properties {
                EntityProperties::Plain => EntityProperties::Plain,
                EntityProperties::KillCounter(k) => EntityProperties::KillCounter(
                    KillCounter { kills: k.kills },
                ),
                EntityProperties::SwitchedDirection(s) => EntityProperties::SwitchedDirection(
                    SwitchedDirection {
                        off_dir: s.off_dir,
                        on_dir: s.on_dir,
                        switches: copy_positions(&s.switches),
                    },
                ),
            },
            unit: self.unit.clone(),
        }
    }
}


/// The milliseconds that a Closer or a Wuss rests between two steps.
pub const CLOSER_DELAY: usize = 500;

/// The milliseconds that most entities rest after they came back to life,
/// and that a Crawl and a Snail rest after a step.
pub const REST_DELAY: usize = 1000;

/// The milliseconds that a Chase rests after it came back to life.
pub const CHASE_REST_DELAY: usize = 5000;

/// The milliseconds for which a gate stays open.
pub const GATE_DELAY: usize = 5000;

/// The milliseconds after which a Cross turns.
pub const CROSS_DELAY: usize = 10000;

/// The way from `pos` to the position that was chosen, or the stay at `pos`
/// where none was.
pub open spec fn spec_path(pos: Position, choice: Option<Position>) -> Seq<Position> {
    match choice {
        Some(p) => seq![pos, p],
        None => seq![pos],
    }
}

fn path(pos: Position, choice: Option<Position>) -> (r: Vec<Position>)
    ensures
        r@ == spec_path(pos, choice),
{
    let mut movements: Vec<Position> = Vec::new();
    movements.push(pos);
    match choice {
        Some(p) => {
            movements.push(p);
        },
        None => {},
    }
    movements
}

impl EntityView {
    /// Whether the entity may act with this tick.
    pub open spec fn due(self) -> bool {
        self.counter <= 1
    }

    /// The entity with the given state, way and rest.
    pub open spec fn moving(
        self,
        state: UnitStates,
        movements: Seq<Position>,
        counter: usize,
    ) -> EntityView {
        EntityView {
            counter,
            unit: UnitView { unit_state: state, movements, ..self.unit },
            ..self
        }
    }

    /// The entity turned in the given direction, to rest for `counter` ticks.
    pub open spec fn turned(self, direction: u8, counter: usize) -> EntityView {
        EntityView { counter, unit: UnitView { direction, ..self.unit }, ..self }
    }

    /// A Closer or a Wuss after a tick.
    pub open spec fn closer_ticked(
        self,
        rate: usize,
        has_options: bool,
        choice: Option<Position>,
    ) -> EntityView {
        let pos = self.position();
        match self.unit.unit_state {
            UnitStates::Sleeping | UnitStates::Active => if !self.due() {
                self.waited()
            } else if has_options {
                self.moving(
                    UnitStates::Active,
                    spec_path(pos, choice),
                    (CLOSER_DELAY / rate) as usize,
                )
            } else {
                self.moving(UnitStates::Sleeping, seq![pos], (CLOSER_DELAY / rate) as usize)
            },
            UnitStates::Corpse => if !self.due() {
                self.waited()
            } else {
                self.respawned(UnitStates::Sleeping, (REST_DELAY / rate) as usize)
            },
            _ => self,
        }
    }

    /// A Crawl after a tick.
    pub open spec fn crawl_ticked(self, rate: usize, choice: Option<Position>) -> EntityView {
        let pos = self.position();
        match self.unit.unit_state {
            UnitStates::Sleeping => self.moving(
                UnitStates::Active,
                self.unit.movements,
                self.counter,
            ),
            UnitStates::Active => if !self.due() {
                self.waited()
            } else if pos != self.spawn_position {
                self.moving(
                    UnitStates::Active,
                    seq![pos, self.spawn_position],
                    (REST_DELAY / rate) as usize,
                )
            } else {
                match choice {
                    Some(target) => self.moving(
                        UnitStates::Active,
                        seq![pos, target],
                        (REST_DELAY / rate) as usize,
                    ),
                    None => self.waited(),
                }
            },
            UnitStates::Corpse => if !self.due() {
                self.waited()
            } else {
                self.respawned(UnitStates::Active, (REST_DELAY / rate) as usize)
            },
            _ => self,
        }
    }

    /// A Chase after a tick.
    pub open spec fn chase_ticked(
        self,
        rate: usize,
        shields: bool,
        choice: Option<Position>,
    ) -> EntityView {
        let pos = self.position();
        match self.unit.unit_state {
            UnitStates::Sleeping => if self.due() && shields {
                self.waited().moving(UnitStates::Active, self.unit.movements, 0)
            } else {
                self.waited()
            },
            UnitStates::Active => if shields {
                self.moving(UnitStates::Active, spec_path(pos, choice), self.counter)
            } else {
                self.moving(UnitStates::Sleeping, seq![pos], self.counter)
            },
            UnitStates::Corpse => if !self.due() {
                self.waited()
            } else {
                self.respawned(UnitStates::Sleeping, (CHASE_REST_DELAY / rate) as usize)
            },
            _ => self,
        }
    }

    /// A gate after a tick.
    pub open spec fn gate_ticked(self, rate: usize, pressed: bool) -> EntityView {
        match self.properties {
            EntityPropertiesView::SwitchedDirection { off_dir, on_dir, switches } => {
                if !self.due() {
                    self.waited()
                } else if pressed {
                    self.turned(on_dir, (GATE_DELAY / rate) as usize)
                } else {
                    self.turned(off_dir, 0)
                }
            },
            _ => self.waited(),
        }
    }

    /// A Cross after a tick.
    pub open spec fn cross_ticked(self, rate: usize) -> EntityView {
        if !self.due() {
            self.waited()
        } else {
            self.turned(
                (((self.unit.direction + 1) % 256) % 4) as u8,
                (CROSS_DELAY / rate) as usize,
            )
        }
    }

    /// A Snail after a tick.
    pub open spec fn snail_ticked(
        self,
        rate: usize,
        has_options: bool,
        choice: Option<Position>,
    ) -> EntityView {
        let pos = self.position();
        match self.unit.unit_state {
            UnitStates::Sleeping | UnitStates::Active => if !self.due() {
                self.waited()
            } else if has_options {
                self.moving(
                    UnitStates::Active,
                    match choice {
                        Some(p) => seq![pos, p],
                        None => self.unit.movements,
                    },
                    (REST_DELAY / rate) as usize,
                )
            } else {
                self.moving(
                    UnitStates::Sleeping,
                    if self.unit.movements.len() > 1 {
                        seq![pos]
                    } else {
                        self.unit.movements
                    },
                    0,
                )
            },
            UnitStates::Corpse => if !self.due() {
                self.waited()
            } else {
                self.respawned(UnitStates::Sleeping, (REST_DELAY / rate) as usize)
            },
            _ => self,
        }
    }

    /// The entity after a tick of `rate` milliseconds: what its kind does
    /// once its rest is over. `shields` says whether a player holds a
    /// shield, `pressed` whether a player stands on a switch, `has_options`
    /// whether there is a list of positions to step on, and `choice` which
    /// of them was chosen.
    ///
    /// A Closer or a Wuss steps to the chosen position, or sleeps where it
    /// has nowhere to go. A Crawl goes home or strikes at the chosen
    /// position. A Chase wakes while a player holds a shield, and steps
    /// with every tick. A gate opens while a switch is pressed. A Cross
    /// turns. A Snail steps to the chosen position, or sleeps. The slain
    /// come back to life at their spawn position. The others do nothing.
    pub open spec fn ticked(
        self,
        rate: usize,
        shields: bool,
        pressed: bool,
        has_options: bool,
        choice: Option<Position>,
    ) -> EntityView {
        match self.unit.unit_type {
            UnitTypes::Closer | UnitTypes::Wuss => self.closer_ticked(rate, has_options, choice),
            UnitTypes::Crawl => self.crawl_ticked(rate, choice),
            UnitTypes::Chase => self.chase_ticked(rate, shields, choice),
            UnitTypes::Gate => self.gate_ticked(rate, pressed),
            UnitTypes::Cross => self.cross_ticked(rate),
            UnitTypes::Snail => self.snail_ticked(rate, has_options, choice),
            _ => self,
        }
    }
}

impl Entity {
    fn respawn(unit: &mut Entity, state: UnitStates, delay: usize)
        ensures
            final(unit)@ == old(unit)@.respawned(state, delay),
    {
        unit.unit.unit_state = state;
        unit.unit.teleport_trigger = next_trigger(unit.unit.teleport_trigger);
        let mut movements: Vec<Position> = Vec::new();
        movements.push(unit.spawn_position);
        unit.unit.movements = movements;
        unit.counter = delay;
    }

    fn tick_closer(unit: &mut Entity, rate: usize, has_options: bool, choice: Option<Position>)
        requires
            old(unit).wf(),
            rate > 0,
        ensures
            final(unit)@ == old(unit)@.closer_ticked(rate, has_options, choice),
    {
        match unit.unit.unit_state {
            UnitStates::Sleeping | UnitStates::Active => {
                let pos = unit.position();
                if Entity::wait(unit) {
                    if has_options {
                        unit.unit.movements = path(pos, choice);
                        unit.unit.unit_state = UnitStates::Active;
                    } else {
                        unit.unit.unit_state = UnitStates::Sleeping;
                        unit.unit.movements = path(pos, None);
                    }
                    unit.counter = CLOSER_DELAY / rate;
                }
            },
            UnitStates::Corpse => {
                if Entity::wait(unit) {
                    Entity::respawn(unit, UnitStates::Sleeping, REST_DELAY / rate);
                }
            },
            _ => {},
        }
    }

    fn tick_crawl(unit: &mut Entity, rate: usize, choice: Option<Position>)
        requires
            old(unit).wf(),
            rate > 0,
        ensures
            final(unit)@ == old(unit)@.crawl_ticked(rate, choice),
    {
        match unit.unit.unit_state {
            UnitStates::Sleeping => {
                unit.unit.unit_state = UnitStates::Active;
            },
            UnitStates::Active => {
                let pos = unit.position();
                let spawn = unit.spawn_position;
                if Entity::wait(unit) {
                    if pos != spawn {
                        unit.unit.movements = path(pos, Some(spawn));
                        unit.counter = REST_DELAY / rate;
                    } else {
                        match choice {
                            Some(target) => {
                                unit.unit.movements = path(pos, Some(target));
                                unit.counter = REST_DELAY / rate;
                            },
                            None => {},
                        }
                    }
                }
            },
            UnitStates::Corpse => {
                if Entity::wait(unit) {
                    Entity::respawn(unit, UnitStates::Active, REST_DELAY / rate);
                }
            },
            _ => {},
        }
    }

    fn tick_chase(unit: &mut Entity, rate: usize, shields: bool, choice: Option<Position>)
        requires
            old(unit).wf(),
            rate > 0,
        ensures
            final(unit)@ == old(unit)@.chase_ticked(rate, shields, choice),
    {
        match unit.unit.unit_state {
            UnitStates::Sleeping => {
                if Entity::wait(unit) {
                    if shields {
                        unit.unit.unit_state = UnitStates::Active;
                    }
                }
            },
            UnitStates::Active => {
                let pos = unit.position();
                if shields {
                    unit.unit.movements = path(pos, choice);
                } else {
                    unit.unit.unit_state = UnitStates::Sleeping;
                    unit.unit.movements = path(pos, None);
                }
            },
            UnitStates::Corpse => {
                if Entity::wait(unit) {
                    Entity::respawn(unit, UnitStates::Sleeping, CHASE_REST_DELAY / rate);
                }
            },
            _ => {},
        }
    }

    fn tick_gate(unit: &mut Entity, rate: usize, pressed: bool)
        requires
            rate > 0,
        ensures
            final(unit)@ == old(unit)@.gate_ticked(rate, pressed),
    {
        if Entity::wait(unit) {
            let (known, off_dir, on_dir) = match &unit.properties {
                EntityProperties::SwitchedDirection(sd) => (true, sd.off_dir, sd.on_dir),
                _ => (false, 0, 0),
            };
            if known {
                if pressed {
                    unit.unit.direction = on_dir;
                    unit.counter = GATE_DELAY / rate;
                } else {
                    unit.unit.direction = off_dir;
                }
            }
        }
    }

    fn tick_cross(unit: &mut Entity, rate: usize)
        requires
            rate > 0,
        ensures
            final(unit)@ == old(unit)@.cross_ticked(rate),
    {
        if Entity::wait(unit) {
            unit.unit.direction = next_trigger(unit.unit.direction) % 4;
            unit.counter = CROSS_DELAY / rate;
        }
    }

    fn tick_snail(unit: &mut Entity, rate: usize, has_options: bool, choice: Option<Position>)
        requires
            old(unit).wf(),
            rate > 0,
        ensures
            final(unit)@ == old(unit)@.snail_ticked(rate, has_options, choice),
    {
        match unit.unit.unit_state {
            UnitStates::Sleeping | UnitStates::Active => {
                let pos = unit.position();
                if Entity::wait(unit) {
                    if has_options {
                        unit.unit.unit_state = UnitStates::Active;
                        match choice {
                            Some(_) => {
                                unit.unit.movements = path(pos, choice);
                            },
                            None => {},
                        }
                        unit.counter = REST_DELAY / rate;
                    } else {
                        unit.unit.unit_state = UnitStates::Sleeping;
                        if unit.unit.movements.len() > 1 {
                            unit.unit.movements = path(pos, None);
                        }
                    }
                }
            },
            UnitStates::Corpse => {
                if Entity::wait(unit) {
                    Entity::respawn(unit, UnitStates::Sleeping, REST_DELAY / rate);
                }
            },
            _ => {},
        }
    }

    /// Lets a tick of `rate` milliseconds pass for the entity.
    pub fn tick(
        unit: &mut Entity,
        rate: usize,
        shields: bool,
        pressed: bool,
        has_options: bool,
        choice: Option<Position>,
    )
        requires
            old(unit).wf(),
            rate > 0,
        ensures
            final(unit)@ == old(unit)@.ticked(rate, shields, pressed, has_options, choice),
            final(unit).wf(),
    {
        match unit.unit.unit_type {
            UnitTypes::Closer | UnitTypes::Wuss => {
                Entity::tick_closer(unit, rate, has_options, choice);
            },
            UnitTypes::Crawl => {
                Entity::tick_crawl(unit, rate, choice);
            },
            UnitTypes::Chase => {
                Entity::tick_chase(unit, rate, shields, choice);
            },
            UnitTypes::Gate => {
                Entity::tick_gate(unit, rate, pressed);
            },
            UnitTypes::Cross => {
                Entity::tick_cross(unit, rate);
            },
            UnitTypes::Snail => {
                Entity::tick_snail(unit, rate, has_options, choice);
            },
            _ => {},
        }
    }
}

} // verus!
