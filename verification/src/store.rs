//! The chunk store: a sparse, lazily grown mapping from chunk coordinates to
//! synthesized height maps. Insertion is at-most-once per coordinate — a
//! `get_or_create` for a coordinate that is already present returns the
//! existing chunk and changes nothing — and every stored chunk's contents are
//! exactly the samples the noise field assigns to its coordinate.

use vstd::prelude::*;

verus! {

use crate::heightmap::{
    height_spec, normal_spec, ChunkCoord, HeightMap, COORD_MAX, GRID_MAX, WORLD_SIZE_MAX,
};
use crate::noise::NoiseConfig;

/// One terrain tile: a chunk coordinate and the height map synthesized for it.
pub struct Chunk {
    pub coord: ChunkCoord,
    pub height_map: HeightMap,
}

/// All live chunks, keyed by coordinate, together with the configuration
/// every chunk is synthesized from. The store only grows; chunks are never
/// replaced or mutated after insertion.
pub struct TerrainMap {
    config: NoiseConfig,
    grid_size: usize,
    world_size: i64,
    chunks: Vec<Chunk>,
}

impl TerrainMap {
    /// The noise configuration all chunks are synthesized from.
    pub closed spec fn config(&self) -> NoiseConfig {
        self.config
    }

    /// Grid resolution of every stored height map.
    pub closed spec fn grid_size(&self) -> int {
        self.grid_size as int
    }

    /// World-space size of one chunk (fixed point).
    pub closed spec fn world_size(&self) -> int {
        self.world_size as int
    }

    /// Number of live chunks.
    pub closed spec fn num_chunks(&self) -> int {
        self.chunks@.len() as int
    }

    /// The chunk stored at position `i`.
    pub closed spec fn chunk_at(&self, i: int) -> Chunk {
        self.chunks@[i]
    }

    /// Whether a chunk for coordinate `(cx, cz)` is present.
    pub open spec fn contains_coord(&self, cx: int, cz: int) -> bool {
        exists|i: int|
            0 <= i < self.num_chunks() && #[trigger] self.chunk_at(i).coord == (ChunkCoord {
                x: cx as i64,
                z: cz as i64,
            })
    }

    /// A stored chunk is exactly the synthesis of its coordinate: its height
    /// map is well formed, has the store's resolution, and holds the heights
    /// and normals the noise field assigns to the chunk's global cells.
    pub open spec fn chunk_synthesized(&self, c: Chunk) -> bool {
        &&& c.height_map.wf()
        &&& c.height_map.size() == self.grid_size()
        &&& -(COORD_MAX as int) <= c.coord.x <= COORD_MAX as int
        &&& -(COORD_MAX as int) <= c.coord.z <= COORD_MAX as int
        &&& forall|x: int, z: int|
            0 <= x < self.grid_size() && 0 <= z < self.grid_size()
                ==> #[trigger] c.height_map.height_at(x, z) == height_spec(
                self.config(),
                c.coord.x as int,
                c.coord.z as int,
                self.grid_size(),
                x,
                z,
            )
        &&& forall|x: int, z: int|
            0 <= x < self.grid_size() && 0 <= z < self.grid_size()
                ==> #[trigger] c.height_map.normal_at(x, z) == normal_spec(
                self.config(),
                c.coord.x as int,
                c.coord.z as int,
                self.grid_size(),
                self.world_size(),
                x,
                z,
            )
    }

    /// Store invariant: parameters in range, coordinates unique, and every
    /// chunk synthesized from its coordinate.
    pub open spec fn wf(&self) -> bool {
        &&& self.config().wf()
        &&& 2 <= self.grid_size() <= GRID_MAX as int
        &&& 0 < self.world_size() <= WORLD_SIZE_MAX as int
        &&& forall|i: int, j: int|
            0 <= i < self.num_chunks() && 0 <= j < self.num_chunks() && i != j
                ==> #[trigger] self.chunk_at(i).coord != #[trigger] self.chunk_at(j).coord
        &&& forall|i: int|
            0 <= i < self.num_chunks() ==> self.chunk_synthesized(#[trigger] self.chunk_at(i))
    }

    /// An empty store for the given configuration, grid resolution and chunk
    /// world size.
    pub fn new(config: NoiseConfig, grid_size: usize, world_size: i64) -> (s: TerrainMap)
        requires
            config.wf(),
            2 <= grid_size <= GRID_MAX as int,
            0 < world_size <= WORLD_SIZE_MAX as int,
        ensures
            s.wf(),
            s.config() == config,
            s.grid_size() == grid_size,
            s.world_size() == world_size,
            s.num_chunks() == 0,
    {
        TerrainMap { config, grid_size, world_size, chunks: Vec::new() }
    }

    /// Number of live chunks.
    pub fn len(&self) -> (n: usize)
        ensures
            n == self.num_chunks(),
    {
        self.chunks.len()
    }

    /// Borrows the chunk stored at position `i`.
    pub fn chunk(&self, i: usize) -> (c: &Chunk)
        requires
            i < self.num_chunks(),
        ensures
            *c == self.chunk_at(i as int),
    {
        &self.chunks[i]
    }

    /// Position of the chunk for `coord`, or `None` when no chunk for that
    /// coordinate has been created yet.
    pub fn find(&self, coord: ChunkCoord) -> (r: Option<usize>)
        ensures
            match r {
                Some(i) => i < self.num_chunks() && self.chunk_at(i as int).coord == coord,
                None => !self.contains_coord(coord.x as int, coord.z as int),
            },
    {
        let mut i: usize = 0;
        while i < self.chunks.len()
            invariant
                i <= self.chunks@.len(),
                forall|j: int| 0 <= j < i ==> #[trigger] self.chunk_at(j).coord != coord,
            decreases self.chunks@.len() - i,
        {
            if self.chunks[i].coord == coord {
                return Some(i);
            }
            i = i + 1;
        }
        None
    }

    /// Returns the position of the chunk for `coord`, synthesizing and
    /// inserting it first if it is absent. When the coordinate is already
    /// present the store is left exactly as it was — a chunk is synthesized
    /// at most once per coordinate.
    pub fn get_or_create(&mut self, coord: ChunkCoord) -> (i: usize)
        requires
            old(self).wf(),
            -(COORD_MAX as int) <= coord.x <= COORD_MAX as int,
            -(COORD_MAX as int) <= coord.z <= COORD_MAX as int,
        ensures
            final(self).wf(),
            final(self).config() == old(self).config(),
            final(self).grid_size() == old(self).grid_size(),
            final(self).world_size() == old(self).world_size(),
            i < final(self).num_chunks(),
            final(self).chunk_at(i as int).coord == coord,
            final(self).contains_coord(coord.x as int, coord.z as int),
            old(self).contains_coord(coord.x as int, coord.z as int) ==> *final(self) == *old(
                self,
            ),
            !old(self).contains_coord(coord.x as int, coord.z as int) ==> {
                &&& final(self).num_chunks() == old(self).num_chunks() + 1
                &&& i == old(self).num_chunks()
                &&& forall|j: int|
                    0 <= j < old(self).num_chunks() ==> #[trigger] final(self).chunk_at(j) == old(
                        self,
                    ).chunk_at(j)
            },
    {
        match self.find(coord) {
            Some(i) => {
                proof {
                    assert(self.contains_coord(coord.x as int, coord.z as int));
                }
                i
            },
            None => {
                let map = HeightMap::new(coord, &self.config, self.grid_size, self.world_size);
                let i = self.chunks.len();
                self.chunks.push(Chunk { coord, height_map: map });
                proof {
                    assert(self.chunk_at(i as int).coord == coord);
                    let witness = (ChunkCoord { x: (coord.x as int) as i64, z: (coord.z as int) as i64 });
                    assert(witness == coord);
                    assert forall|a: int, b: int|
                        0 <= a < self.num_chunks() && 0 <= b < self.num_chunks() && a != b
                            implies #[trigger] self.chunk_at(a).coord
                            != #[trigger] self.chunk_at(b).coord by {
                        if a < i && b < i {
                            assert(old(self).chunk_at(a).coord != old(self).chunk_at(b).coord);
                        } else if a < i && b == i {
                            if self.chunk_at(a).coord == coord {
                                assert(old(self).chunk_at(a).coord == witness);
                                assert(old(self).contains_coord(coord.x as int, coord.z as int));
                                assert(false);
                            }
                        } else if a == i && b < i {
                            if self.chunk_at(b).coord == coord {
                                assert(old(self).chunk_at(b).coord == witness);
                                assert(old(self).contains_coord(coord.x as int, coord.z as int));
                                assert(false);
                            }
                        }
                    }
                    assert forall|k: int| 0 <= k < self.num_chunks() implies self.chunk_synthesized(
                        #[trigger] self.chunk_at(k),
                    ) by {
                        if k < i {
                            assert(self.chunk_at(k) == old(self).chunk_at(k));
                            assert(old(self).chunk_synthesized(old(self).chunk_at(k)));
                            assert(self.config() == old(self).config());
                        } else {
                            assert(self.chunk_at(k).height_map == map);
                        }
                    }
                }
                i
            },
        }
    }
}

/// At most one chunk per coordinate: in a well-formed store, two positions
/// holding the same coordinate are the same position. Together with the
/// contract of `get_or_create` this gives idempotence — a repeated
/// `get_or_create` returns the position of the very same chunk and performs
/// no second synthesis.
pub proof fn lemma_store_coord_unique(s: &TerrainMap, i: int, j: int)
    requires
        s.wf(),
        0 <= i < s.num_chunks(),
        0 <= j < s.num_chunks(),
        s.chunk_at(i).coord == s.chunk_at(j).coord,
    ensures
        i == j,
{
}

} // verus!
