use vstd::prelude::*;

use super::position::{copy_positions, Position};
use super::rooms::RoomCoordinates;

verus! {

/// What a player is doing, as its client draws it.
#[derive(PartialEq, Eq, Structural, Clone, Copy, Debug)]
pub enum SoaprunnerSprites {
    Idle,
    Walking,
    Dying,
    Winning,
    /// The sprite of a player who went to heaven; it passes through everything.
    Heavenly,
}

#[derive(PartialEq, Eq, Structural, Clone, Copy, Debug)]
pub enum SoaprunnerColors {
    Green,
    Pink,
    Blue,
    Yellow,
}

/// The items a player holds. On the wire they are one byte: Sword is bit 0,
/// Crown bit 1 and Shield bit 2.
#[derive(PartialEq, Eq, Structural, Clone, Copy, Debug)]
pub struct SoaprunnerItems {
    pub sword: bool,
    pub crown: bool,
    pub shield: bool,
}

/// What the other players see of a player.
#[derive(Debug)]
pub struct Soaprunner {
    pub teleport_trigger: u8,
    pub sprite: SoaprunnerSprites,
    pub color: SoaprunnerColors,
    pub items: SoaprunnerItems,
    /// The way the player is walking; its last position is where the player is.
    pub movements: Vec<Position>,
}

/// A player's projection as a plain value.
pub struct SoaprunnerView {
    pub teleport_trigger: u8,
    pub sprite: SoaprunnerSprites,
    pub color: SoaprunnerColors,
    pub items: SoaprunnerItems,
    pub movements: Seq<Position>,
}

impl View for Soaprunner {
    type V = SoaprunnerView;

    open spec fn view(&self) -> SoaprunnerView {
        SoaprunnerView {
            teleport_trigger: self.teleport_trigger,
            sprite: self.sprite,
            color: self.color,
            items: self.items,
            movements: self.movements@,
        }
    }
}

impl Clone for Soaprunner {
    fn clone(&self) -> (r: Soaprunner)
        ensures
            r@ == self@,
    {
        Soaprunner {
            teleport_trigger: self.teleport_trigger,
            sprite: self.sprite,
            color: self.color,
            items: self.items,
            movements: copy_positions(&self.movements),
        }
    }
}

pub open spec fn spec_client_spawn_position() -> Position {
    Position { x: 30, y: 22 }
}

pub open spec fn spec_client_spawn_room() -> RoomCoordinates {
    RoomCoordinates { x: 1, y: 1 }
}

/// Where every player starts.
#[verifier::when_used_as_spec(spec_client_spawn_position)]
pub fn client_spawn_position() -> (r: Position)
    ensures
        r == spec_client_spawn_position(),
{
    Position { x: 30, y: 22 }
}

/// The room of the spawn position.
#[verifier::when_used_as_spec(spec_client_spawn_room)]
pub fn client_spawn_room() -> (r: RoomCoordinates)
    ensures
        r == spec_client_spawn_room(),
{
    RoomCoordinates { x: 1, y: 1 }
}

impl SoaprunnerSprites {
    /// The byte that stands for the sprite on the wire.
    pub open spec fn spec_code(self) -> u8 {
        match self {
            SoaprunnerSprites::Idle => 0,
            SoaprunnerSprites::Walking => 1,
            SoaprunnerSprites::Dying => 2,
            SoaprunnerSprites::Winning => 3,
            SoaprunnerSprites::Heavenly => 4,
        }
    }

    /// Whether a player with this sprite takes part in the game: the entities
    /// see it and it can collide with them.
    pub open spec fn spec_is_alive(self) -> bool {
        self == SoaprunnerSprites::Idle || self == SoaprunnerSprites::Walking
    }

    pub fn code(self) -> (r: u8)
        ensures
            r == self.spec_code(),
    {
        match self {
            SoaprunnerSprites::Idle => 0,
            SoaprunnerSprites::Walking => 1,
            SoaprunnerSprites::Dying => 2,
            SoaprunnerSprites::Winning => 3,
            SoaprunnerSprites::Heavenly => 4,
        }
    }

    /// The sprite that `code` stands for, if it stands for one.
    pub open spec fn spec_from_code(code: u8) -> Option<SoaprunnerSprites> {
        if code == 0 {
            Some(SoaprunnerSprites::Idle)
        } else if code == 1 {
            Some(SoaprunnerSprites::Walking)
        } else if code == 2 {
            Some(SoaprunnerSprites::Dying)
        } else if code == 3 {
            Some(SoaprunnerSprites::Winning)
        } else if code == 4 {
            Some(SoaprunnerSprites::Heavenly)
        } else {
            None
        }
    }

    /// The sprite that `code` stands for, if it stands for one.
    pub fn from_code(code: u8) -> (r: Option<SoaprunnerSprites>)
        ensures
            r == Self::spec_from_code(code),
    {
        match code {
            0 => Some(SoaprunnerSprites::Idle),
            1 => Some(SoaprunnerSprites::Walking),
            2 => Some(SoaprunnerSprites::Dying),
            3 => Some(SoaprunnerSprites::Winning),
            4 => Some(SoaprunnerSprites::Heavenly),
            _ => None,
        }
    }

    pub fn is_alive(self) -> (r: bool)
        ensures
            r == self.spec_is_alive(),
    {
        match self {
            SoaprunnerSprites::Idle => true,
            SoaprunnerSprites::Walking => true,
            _ => false,
        }
    }
}

impl SoaprunnerColors {
    /// The byte that stands for the color on the wire.
    pub open spec fn spec_code(self) -> u8 {
        match self {
            SoaprunnerColors::Green => 0,
            SoaprunnerColors::Pink => 1,
            SoaprunnerColors::Blue => 2,
            SoaprunnerColors::Yellow => 3,
        }
    }

    pub fn code(self) -> (r: u8)
        ensures
            r == self.spec_code(),
    {
        match self {
            SoaprunnerColors::Green => 0,
            SoaprunnerColors::Pink => 1,
            SoaprunnerColors::Blue => 2,
            SoaprunnerColors::Yellow => 3,
        }
    }

    /// The color that `code` stands for, if it stands for one.
    pub open spec fn spec_from_code(code: u8) -> Option<SoaprunnerColors> {
        if code == 0 {
            Some(SoaprunnerColors::Green)
        } else if code == 1 {
            Some(SoaprunnerColors::Pink)
        } else if code == 2 {
            Some(SoaprunnerColors::Blue)
        } else if code == 3 {
            Some(SoaprunnerColors::Yellow)
        } else {
            None
        }
    }

    /// The color that `code` stands for, if it stands for one.
    pub fn from_code(code: u8) -> (r: Option<SoaprunnerColors>)
        ensures
            r == Self::spec_from_code(code),
    {
        match code {
            0 => Some(SoaprunnerColors::Green),
            1 => Some(SoaprunnerColors::Pink),
            2 => Some(SoaprunnerColors::Blue),
            3 => Some(SoaprunnerColors::Yellow),
            _ => None,
        }
    }
}

impl SoaprunnerItems {
    /// The byte that stands for the items on the wire.
    pub open spec fn spec_bits(self) -> u8 {
        ((if self.sword { 1int } else { 0int }) + (if self.crown { 2int } else { 0int }) + (if self.shield {
            4int
        } else {
            0int
        })) as u8
    }

    /// The items that the three lowest bits of `bits` stand for.
    pub open spec fn spec_from_bits_truncate(bits: u8) -> SoaprunnerItems {
        SoaprunnerItems {
            sword: bits as int % 2 == 1,
            crown: (bits as int / 2) % 2 == 1,
            shield: (bits as int / 4) % 2 == 1,
        }
    }

    pub fn empty() -> (r: SoaprunnerItems)
        ensures
            r == (SoaprunnerItems { sword: false, crown: false, shield: false }),
    {
        SoaprunnerItems { sword: false, crown: false, shield: false }
    }

    pub fn bits(&self) -> (r: u8)
        ensures
            r == self.spec_bits(),
            r < 8,
    {
        let sword: u8 = if self.sword { 1 } else { 0 };
        let crown: u8 = if self.crown { 2 } else { 0 };
        let shield: u8 = if self.shield { 4 } else { 0 };
        sword + crown + shield
    }

    pub fn from_bits_truncate(bits: u8) -> (r: SoaprunnerItems)
        ensures
            r == Self::spec_from_bits_truncate(bits),
    {
        SoaprunnerItems {
            sword: bits % 2 == 1,
            crown: (bits / 2) % 2 == 1,
            shield: (bits / 4) % 2 == 1,
        }
    }
}

/// The byte of a set of items stands for that set again.
pub proof fn lemma_items_bits_round_trip(items: SoaprunnerItems)
    ensures
        SoaprunnerItems::spec_from_bits_truncate(items.spec_bits()) == items,
{
}

} // verus!
