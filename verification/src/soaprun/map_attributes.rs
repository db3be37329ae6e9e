use vstd::prelude::*;

verus! {

/// The tiles that a player can draw over.
pub const CANVAS_TILES: [u8; 9] = [12, 13, 14, 15, 27, 28, 29, 30, 31];

/// The tiles that a player can draw.
pub const DRAW_TILES: [u8; 4] = [12, 13, 14, 15];

/// The tiles on which a dying player leaves a corpse.
pub const MAKE_CORPSE_TILES: [u8; 8] = [2, 4, 5, 11, 12, 13, 14, 15];

/// The tiles that carry a corpse.
pub const REMOVE_CORPSE_TILES: [u8; 8] = [18, 20, 21, 27, 28, 29, 30, 31];

/// What a corpse adds to the tile it lies on.
pub const CORPSE_MARK: u8 = 16;

/// The number of values a tile can take.
pub const TILE_VALUES: usize = 256;

/// Whether `tile` is one of `tiles`.
pub fn tiles_contain(tiles: &[u8], tile: u8) -> (r: bool)
    ensures
        r == tiles@.contains(tile),
{
    let mut i: usize = 0;
    while i < tiles.len()
        invariant
            i <= tiles.len(),
            forall|j: int| 0 <= j < i ==> tiles@[j] != tile,
        decreases tiles.len() - i,
    {
        if tiles[i] == tile {
            return true;
        }
        i = i + 1;
    }
    false
}

/// The table that gives each tile its type: 0 can be walked on, 2 only
/// without a shield, 3 only by entities, and the others by nobody.
pub struct MapAttributes {
    pub width: u16,
    pub height: u16,
    pub attributes: Vec<u8>,
}

/// Why a block of bytes is no attribute table.
#[derive(PartialEq, Eq, Structural, Clone, Copy, Debug)]
pub enum MapAttributesError {
    /// The bytes end before the table's width and height do.
    MissingHeader,
    /// The table does not hold as many bytes as its width and height say.
    InvalidData,
    /// The table gives some tiles no type.
    Incomplete,
}

/// The number whose low byte is `low` and whose high byte is `high`.
pub open spec fn spec_u16_le(low: u8, high: u8) -> u16 {
    (low as int + 256 * high as int) as u16
}

impl MapAttributes {
    /// Whether the table gives every tile a type.
    pub open spec fn covers_tiles(&self) -> bool {
        self.attributes@.len() >= TILE_VALUES
    }

    /// The type of `tile`.
    pub open spec fn spec_tile_type(&self, tile: u8) -> u8 {
        self.attributes@[tile as int]
    }

    /// What `data` holds where it is an attribute table: the width and the
    /// height, and then one byte for each of the width times height entries.
    pub open spec fn parse(data: Seq<u8>) -> Result<(u16, u16, Seq<u8>), MapAttributesError> {
        if data.len() < 4 {
            Err(MapAttributesError::MissingHeader)
        } else {
            let width = spec_u16_le(data[0], data[1]);
            let height = spec_u16_le(data[2], data[3]);
            if data.len() - 4 != width * height {
                Err(MapAttributesError::InvalidData)
            } else {
                Ok((width, height, data.subrange(4, data.len() as int)))
            }
        }
    }

    /// Reads an attribute table from the bytes of its file.
    pub fn new(data: &Vec<u8>) -> (r: Result<MapAttributes, MapAttributesError>)
        ensures
            match r {
                Ok(m) => Self::parse(data@) == Ok::<_, MapAttributesError>(
                    (m.width, m.height, m.attributes@),
                ),
                Err(e) => Self::parse(data@) == Err::<(u16, u16, Seq<u8>), _>(e),
            },
    {
        if data.len() < 4 {
            return Err(MapAttributesError::MissingHeader);
        }
        let width: u16 = data[0] as u16 + 256 * (data[1] as u16);
        let height: u16 = data[2] as u16 + 256 * (data[3] as u16);
        assert(width as u64 * height as u64 <= 0xFFFF * 0xFFFF) by (nonlinear_arith)
            requires
                width <= 0xFFFF,
                height <= 0xFFFF,
        ;
        let expected: u64 = (width as u64) * (height as u64);
        if (data.len() - 4) as u64 != expected {
            return Err(MapAttributesError::InvalidData);
        }
        let mut attributes: Vec<u8> = Vec::new();
        let mut i: usize = 4;
        while i < data.len()
            invariant
                4 <= i <= data.len(),
                attributes@ =~= data@.subrange(4, i as int),
            decreases data.len() - i,
        {
            attributes.push(data[i]);
            i = i + 1;
        }
        Ok(MapAttributes { width, height, attributes })
    }

    /// The type of `tile`.
    pub fn tile_type(&self, tile: u8) -> (r: u8)
        requires
            self.covers_tiles(),
        ensures
            r == self.spec_tile_type(tile),
    {
        self.attributes[tile as usize]
    }
}

} // verus!
