use vstd::prelude::*;

use super::position::{copy_positions, Position};

verus! {

#[derive(PartialEq, Eq, Structural, Clone, Copy, Debug)]
pub enum UnitStates {
    Sleeping,
    Active,
    Corpse,
    Flickering,
    Gone,
}

/// The kinds of entities.
#[derive(PartialEq, Eq, Structural, Clone, Copy, Debug)]
pub enum UnitTypes {
    Goal,
    Closer,
    Sword,
    Crawl,
    Hummer,
    Rounder,
    Wuss,
    Chase,
    Gate,
    Shield,
    Cross,
    Snail,
}

/// What the players see of an entity.
#[derive(Debug)]
pub struct Unit {
    pub teleport_trigger: u8,
    pub unit_state: UnitStates,
    pub unit_type: UnitTypes,
    pub direction: u8,
    /// Where the entity is, or where it walks from and to.
    pub movements: Vec<Position>,
}

/// An entity's projection as a plain value.
pub struct UnitView {
    pub teleport_trigger: u8,
    pub unit_state: UnitStates,
    pub unit_type: UnitTypes,
    pub direction: u8,
    pub movements: Seq<Position>,
}

impl View for Unit {
    type V = UnitView;

    open spec fn view(&self) -> UnitView {
        UnitView {
            teleport_trigger: self.teleport_trigger,
            unit_state: self.unit_state,
            unit_type: self.unit_type,
            direction: self.direction,
            movements: self.movements@,
        }
    }
}

impl Clone for Unit {
    fn clone(&self) -> (r: Unit)
        ensures
            r@ == self@,
    {
        Unit {
            teleport_trigger: self.teleport_trigger,
            unit_state: self.unit_state,
            unit_type: self.unit_type,
            direction: self.direction,
            movements: copy_positions(&self.movements),
        }
    }
}

impl UnitStates {
    /// The byte that stands for the state on the wire.
    pub open spec fn spec_code(self) -> u8 {
        match self {
            UnitStates::Sleeping => 0,
            UnitStates::Active => 1,
            UnitStates::Corpse => 2,
            UnitStates::Flickering => 3,
            UnitStates::Gone => 4,
        }
    }

    pub fn code(self) -> (r: u8)
        ensures
            r == self.spec_code(),
    {
        match self {
            UnitStates::Sleeping => 0,
            UnitStates::Active => 1,
            UnitStates::Corpse => 2,
            UnitStates::Flickering => 3,
            UnitStates::Gone => 4,
        }
    }

    /// The state that `code` stands for, if it stands for one.
    pub open spec fn spec_from_code(code: u8) -> Option<UnitStates> {
        if code == 0 {
            Some(UnitStates::Sleeping)
        } else if code == 1 {
            Some(UnitStates::Active)
        } else if code == 2 {
            Some(UnitStates::Corpse)
        } else if code == 3 {
            Some(UnitStates::Flickering)
        } else if code == 4 {
            Some(UnitStates::Gone)
        } else {
            None
        }
    }

    /// The state that `code` stands for, if it stands for one.
    pub fn from_code(code: u8) -> (r: Option<UnitStates>)
        ensures
            r == Self::spec_from_code(code),
    {
        match code {
            0 => Some(UnitStates::Sleeping),
            1 => Some(UnitStates::Active),
            2 => Some(UnitStates::Corpse),
            3 => Some(UnitStates::Flickering),
            4 => Some(UnitStates::Gone),
            _ => None,
        }
    }
}

impl UnitTypes {
    /// The byte that stands for the kind on the wire.
    pub open spec fn spec_code(self) -> u8 {
        match self {
            UnitTypes::Goal => 0,
            UnitTypes::Closer => 1,
            UnitTypes::Sword => 2,
            UnitTypes::Crawl => 3,
            UnitTypes::Hummer => 4,
            UnitTypes::Rounder => 5,
            UnitTypes::Wuss => 6,
            UnitTypes::Chase => 7,
            UnitTypes::Gate => 8,
            UnitTypes::Shield => 9,
            UnitTypes::Cross => 10,
            UnitTypes::Snail => 11,
        }
    }

    pub fn code(self) -> (r: u8)
        ensures
            r == self.spec_code(),
    {
        match self {
            UnitTypes::Goal => 0,
            UnitTypes::Closer => 1,
            UnitTypes::Sword => 2,
            UnitTypes::Crawl => 3,
            UnitTypes::Hummer => 4,
            UnitTypes::Rounder => 5,
            UnitTypes::Wuss => 6,
            UnitTypes::Chase => 7,
            UnitTypes::Gate => 8,
            UnitTypes::Shield => 9,
            UnitTypes::Cross => 10,
            UnitTypes::Snail => 11,
        }
    }

    /// The kind that `code` stands for, if it stands for one.
    pub open spec fn spec_from_code(code: u8) -> Option<UnitTypes> {
        if code == 0 {
            Some(UnitTypes::Goal)
        } else if code == 1 {
            Some(UnitTypes::Closer)
        } else if code == 2 {
            Some(UnitTypes::Sword)
        } else if code == 3 {
            Some(UnitTypes::Crawl)
        } else if code == 4 {
            Some(UnitTypes::Hummer)
        } else if code == 5 {
            Some(UnitTypes::Rounder)
        } else if code == 6 {
            Some(UnitTypes::Wuss)
        } else if code == 7 {
            Some(UnitTypes::Chase)
        } else if code == 8 {
            Some(UnitTypes::Gate)
        } else if code == 9 {
            Some(UnitTypes::Shield)
        } else if code == 10 {
            Some(UnitTypes::Cross)
        } else if code == 11 {
            Some(UnitTypes::Snail)
        } else {
            None
        }
    }

    /// The kind that `code` stands for, if it stands for one.
    pub fn from_code(code: u8) -> (r: Option<UnitTypes>)
        ensures
            r == Self::spec_from_code(code),
    {
        match code {
            0 => Some(UnitTypes::Goal),
            1 => Some(UnitTypes::Closer),
            2 => Some(UnitTypes::Sword),
            3 => Some(UnitTypes::Crawl),
            4 => Some(UnitTypes::Hummer),
            5 => Some(UnitTypes::Rounder),
            6 => Some(UnitTypes::Wuss),
            7 => Some(UnitTypes::Chase),
            8 => Some(UnitTypes::Gate),
            9 => Some(UnitTypes::Shield),
            10 => Some(UnitTypes::Cross),
            11 => Some(UnitTypes::Snail),
            _ => None,
        }
    }
}

} // verus!
