use vstd::prelude::*;

verus! {

/// Width (in tiles) of a single map chunk.
pub const CHUNK_WIDTH: i32 = 16;

/// Height (in tiles) of a single map chunk.
pub const CHUNK_HEIGHT: i32 = 16;

/// Number of tiles within a single map chunk.
pub const CHUNK_TILE_COUNT: usize = 256;

/// Position of a single tile on the (unbounded) game map.
#[derive(Clone, Copy, Debug, PartialEq, Eq, Structural)]
pub struct TileCoords {
    pub x: i32,
    pub y: i32,
}

/// Position of a chunk on the game map (in chunks, not tiles).
#[derive(Clone, Copy, Debug, PartialEq, Eq, Structural)]
pub struct ChunkCoords {
    pub x: i32,
    pub y: i32,
}

/// Position of a tile relative to the bottom-left corner of the chunk it is in.
#[derive(Clone, Copy, Debug, PartialEq, Eq, Structural)]
pub struct OffsetCoords {
    pub x: u8,
    pub y: u8,
}

/// The four directions in which an entity may face and move.
#[derive(Clone, Copy, Debug, PartialEq, Eq, Structural)]
pub enum Direction {
    Up,
    Down,
    Left,
    Right,
}

/// Floor division of `a` by the positive `b` (Verus' `/` is Euclidean, which is floor
/// division for a positive divisor).
pub open spec fn floor_div(a: int, b: int) -> int {
    a / b
}

impl TileCoords {
    /// The coordinates of the chunk that contains this tile.
    pub open spec fn spec_chunk(self) -> ChunkCoords {
        ChunkCoords {
            x: floor_div(self.x as int, CHUNK_WIDTH as int) as i32,
            y: floor_div(self.y as int, CHUNK_HEIGHT as int) as i32,
        }
    }

    /// The position of this tile relative to the chunk that contains it.
    pub open spec fn spec_offset(self) -> OffsetCoords {
        OffsetCoords {
            x: (self.x as int % CHUNK_WIDTH as int) as u8,
            y: (self.y as int % CHUNK_HEIGHT as int) as u8,
        }
    }

    /// Coordinates of the chunk that this tile is in.
    pub fn as_chunk_coords(&self) -> (c: ChunkCoords)
        ensures
            c == self.spec_chunk(),
    {
        ChunkCoords { x: floor_div_exec(self.x, CHUNK_WIDTH), y: floor_div_exec(self.y, CHUNK_HEIGHT) }
    }

    /// Coordinates of this tile relative to the chunk that it is in.
    pub fn as_chunk_offset_coords(&self) -> (o: OffsetCoords)
        ensures
            o == self.spec_offset(),
            (o.x as int) < CHUNK_WIDTH,
            (o.y as int) < CHUNK_HEIGHT,
    {
        let c = self.as_chunk_coords();
        let ox: i64 = self.x as i64 - (c.x as i64) * (CHUNK_WIDTH as i64);
        let oy: i64 = self.y as i64 - (c.y as i64) * (CHUNK_HEIGHT as i64);
        proof {
            lemma_floor_div_parts(self.x as int, CHUNK_WIDTH as int);
            lemma_floor_div_parts(self.y as int, CHUNK_HEIGHT as int);
        }
        OffsetCoords { x: ox as u8, y: oy as u8 }
    }
}

/// `a = b * floor(a / b) + a % b` with `0 <= a % b < b`, and the quotient of an `i32` by a
/// positive divisor is itself within `i32` range.
pub proof fn lemma_floor_div_parts(a: int, b: int)
    requires
        b > 0,
        i32::MIN <= a <= i32::MAX,
    ensures
        a == b * floor_div(a, b) + a % b,
        0 <= a % b < b,
        i32::MIN <= floor_div(a, b) <= i32::MAX,
{
    vstd::arithmetic::div_mod::lemma_fundamental_div_mod(a, b);
    vstd::arithmetic::div_mod::lemma_mod_bound(a, b);
    if a >= 0 {
        vstd::arithmetic::div_mod::lemma_div_pos_is_pos(a, b);
        vstd::arithmetic::div_mod::lemma_div_is_ordered_by_denominator(a, 1, b);
    } else {
        vstd::arithmetic::div_mod::lemma_div_is_ordered(a, 0, b);
        let q = floor_div(a, b);
        let r = a % b;
        assert(q >= a) by (nonlinear_arith)
            requires a == b * q + r, 0 <= r < b, b > 0, a < 0;
    }
}

/// Floor division of `a` by the positive `b`.
fn floor_div_exec(a: i32, b: i32) -> (q: i32)
    requires
        b > 0,
    ensures
        q == floor_div(a as int, b as int),
{
    proof {
        lemma_floor_div_parts(a as int, b as int);
    }
    if a >= 0 {
        a / b
    } else {
        let n: i64 = -(a as i64);
        let bb: i64 = b as i64;
        let q: i64 = (n + bb - 1) / bb;
        proof {
            lemma_neg_floor_div(a as int, b as int);
        }
        (-q) as i32
    }
}

/// For negative `a`, `floor(a / b) = -((-a + b - 1) / b)`.
proof fn lemma_neg_floor_div(a: int, b: int)
    requires
        b > 0,
        a < 0,
    ensures
        floor_div(a, b) == -((-a + b - 1) / b),
{
    let q = a / b;
    let r = a % b;
    vstd::arithmetic::div_mod::lemma_fundamental_div_mod(a, b);
    vstd::arithmetic::div_mod::lemma_mod_bound(a, b);
    // -a + b - 1 = b * (-q) + (b - 1 - r), with 0 <= b - 1 - r < b
    assert(-a + b - 1 == b * (-q) + (b - 1 - r)) by (nonlinear_arith)
        requires a == b * q + r;
    vstd::arithmetic::div_mod::lemma_fundamental_div_mod_converse(-a + b - 1, b, -q, b - 1 - r);
}

impl ChunkCoords {
    /// The tile at the given offset within this chunk.
    pub open spec fn spec_tile_at_offset(self, offset: OffsetCoords) -> TileCoords {
        TileCoords {
            x: (self.x * CHUNK_WIDTH + offset.x) as i32,
            y: (self.y * CHUNK_HEIGHT + offset.y) as i32,
        }
    }
}

/// Integer key that identifies a chunk within the hash maps of the game map.
pub open spec fn chunk_key(c: ChunkCoords) -> i128 {
    (c.x * 4294967296 + c.y) as i128
}

/// Computes [`chunk_key`].
pub fn chunk_key_of(c: ChunkCoords) -> (k: i128)
    ensures
        k == chunk_key(c),
{
    (c.x as i128) * 4294967296 + (c.y as i128)
}

/// Distinct chunks have distinct keys.
pub proof fn lemma_chunk_key_injective(a: ChunkCoords, b: ChunkCoords)
    ensures
        chunk_key(a) == chunk_key(b) <==> a == b,
{
    if chunk_key(a) == chunk_key(b) {
        let ax = a.x as int;
        let bx = b.x as int;
        assert((ax - bx) * 4294967296 == b.y - a.y);
        if ax != bx {
            if ax > bx {
                assert((ax - bx) * 4294967296 >= 4294967296) by (nonlinear_arith)
                    requires ax - bx >= 1;
            } else {
                assert((ax - bx) * 4294967296 <= -4294967296) by (nonlinear_arith)
                    requires ax - bx <= -1;
            }
        }
    }
}

impl Direction {
    /// The tile adjacent to `pos` in this direction (up increases `y`, right increases `x`).
    pub open spec fn spec_apply(self, pos: TileCoords) -> TileCoords {
        match self {
            Direction::Up => TileCoords { x: pos.x, y: (pos.y + 1) as i32 },
            Direction::Down => TileCoords { x: pos.x, y: (pos.y - 1) as i32 },
            Direction::Left => TileCoords { x: (pos.x - 1) as i32, y: pos.y },
            Direction::Right => TileCoords { x: (pos.x + 1) as i32, y: pos.y },
        }
    }

    /// Whether moving from `pos` in this direction stays within the range of tile coordinates.
    pub open spec fn can_apply(self, pos: TileCoords) -> bool {
        match self {
            Direction::Up => pos.y < i32::MAX,
            Direction::Down => pos.y > i32::MIN,
            Direction::Left => pos.x > i32::MIN,
            Direction::Right => pos.x < i32::MAX,
        }
    }

    /// The tile adjacent to `pos` in this direction.
    pub fn apply(&self, pos: TileCoords) -> (r: TileCoords)
        requires
            self.can_apply(pos),
        ensures
            r == self.spec_apply(pos),
    {
        match self {
            Direction::Up => TileCoords { x: pos.x, y: pos.y + 1 },
            Direction::Down => TileCoords { x: pos.x, y: pos.y - 1 },
            Direction::Left => TileCoords { x: pos.x - 1, y: pos.y },
            Direction::Right => TileCoords { x: pos.x + 1, y: pos.y },
        }
    }
}

/// The chunk of any tile lies well inside the range of chunk coordinates, so that the chunks
/// around it have coordinates too.
pub proof fn lemma_tile_chunk_in_range(pos: TileCoords)
    ensures
        i32::MIN < pos.spec_chunk().x < i32::MAX,
        i32::MIN < pos.spec_chunk().y < i32::MAX,
{
    lemma_floor_div_parts(pos.x as int, CHUNK_WIDTH as int);
    lemma_floor_div_parts(pos.y as int, CHUNK_HEIGHT as int);
}

/// Every tile is the tile at its own offset within its own chunk, and its offset lies within
/// the chunk.
pub proof fn law_tile_at_own_offset(pos: TileCoords)
    ensures
        pos.spec_chunk().spec_tile_at_offset(pos.spec_offset()) == pos,
        (pos.spec_offset().x as int) < CHUNK_WIDTH,
        (pos.spec_offset().y as int) < CHUNK_HEIGHT,
{
    lemma_floor_div_parts(pos.x as int, CHUNK_WIDTH as int);
    lemma_floor_div_parts(pos.y as int, CHUNK_HEIGHT as int);
}

/// Two tiles in the same chunk at the same offset are the same tile.
pub proof fn lemma_chunk_and_offset_determine_tile(a: TileCoords, b: TileCoords)
    requires
        a.spec_chunk() == b.spec_chunk(),
        a.spec_offset() == b.spec_offset(),
    ensures
        a == b,
{
    law_tile_at_own_offset(a);
    law_tile_at_own_offset(b);
}

} // verus!
