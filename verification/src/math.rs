//! Block and chunk coordinates.

use vstd::prelude::*;

verus! {

/// A column of the world, counted in blocks or in chunks.
#[derive(Clone, Copy, Debug, PartialEq, Eq, Structural)]
pub struct Vector2 {
    pub x: i32,
    pub z: i32,
}

/// A point of the world.
#[derive(Clone, Copy, Debug, PartialEq, Eq, Structural)]
pub struct Vector3 {
    pub x: i32,
    pub y: i32,
    pub z: i32,
}

/// The position of a block.
#[derive(Clone, Copy, Debug, PartialEq, Eq, Structural)]
pub struct BlockPos(pub Vector3);

impl Vector2 {
    /// The pair of integers under which a chunk is filed.
    pub open spec fn spec_key(&self) -> (i32, i32) {
        (self.x, self.z)
    }

    /// The chunk that is filed under a pair of integers.
    pub open spec fn of_key(key: (i32, i32)) -> Vector2 {
        Vector2 { x: key.0, z: key.1 }
    }

    #[verifier::when_used_as_spec(spec_key)]
    pub fn key(&self) -> (key: (i32, i32))
        ensures
            key == self.spec_key(),
    {
        (self.x, self.z)
    }
}

impl BlockPos {
    /// The chunk that holds this block: 16 blocks make a chunk along `x` and along `z`.
    pub open spec fn chunk(self) -> Vector2 {
        Vector2 { x: (self.0.x as int / 16) as i32, z: (self.0.z as int / 16) as i32 }
    }

    /// Where in its chunk the block lies; the height is not changed.
    pub open spec fn relative(self) -> Vector3 {
        Vector3 { x: (self.0.x as int % 16) as i32, y: self.0.y, z: (self.0.z as int % 16) as i32 }
    }

    /// The chunk that holds this block, and where in it the block lies.
    pub fn chunk_and_chunk_relative_position(&self) -> (split: (Vector2, Vector3))
        ensures
            split.0 == self.chunk(),
            split.1 == self.relative(),
            0 <= split.1.x < 16,
            0 <= split.1.z < 16,
            self.0.x == 16 * split.0.x + split.1.x,
            self.0.z == 16 * split.0.z + split.1.z,
    {
        let x: i32 = self.0.x;
        let z: i32 = self.0.z;
        assert((x >> 4) * 16 + (x & 15) == x && 0 <= (x & 15) && (x & 15) < 16) by (bit_vector);
        assert((z >> 4) * 16 + (z & 15) == z && 0 <= (z & 15) && (z & 15) < 16) by (bit_vector);
        (Vector2 { x: x >> 4, z: z >> 4 }, Vector3 { x: x & 15, y: self.0.y, z: z & 15 })
    }
}

} // verus!
