use vstd::prelude::*;
use std::collections::HashMap;
use super::block::Block;
use super::biomeGenerator::Biome;
use crate::renderer::worldRenderer::Vertex;
use super::block::BlockTextureRegistry;
use super::biomeGenerator::BiomeGenerator;
use std::sync::Arc;
use crate::util::greedyMeshHelper::{
    SweepVolume, IsMeshable, adj_blocks, adj_ok, textures_fit, sweep_ok, sweep_mesh, dim,
    lemma_meshable_sweep_ok,
};

verus! {

broadcast use vstd::std_specs::hash::group_hash_axioms;

/// `HashMap::get_mut`: the value of `key`, to read or change, when the map
/// holds one; the map then holds whatever the value is left as.
#[verifier::external_body]
fn state_of<S>(map: &mut HashMap<u32, S>, key: u32) -> (r: Option<&mut S>)
    ensures
        match r {
            Some(v) => {
                &&& old(map)@.contains_key(key)
                &&& *v == old(map)@[key]
                &&& final(map)@ == old(map)@.insert(key, *final(v))
            },
            None => !old(map)@.contains_key(key) && final(map)@ == old(map)@,
        },
{
    map.get_mut(&key)
}

/// A column of the world: its blocks (indexed by `To1D`), its mesh, the
/// per-block state of the blocks that carry one (of type `S`), its position
/// among the chunks and its biome.
pub struct Chunk<S> {
    pub Blocks: Vec<Block>,
    pub Mesh: Vec<Vertex>,
    pub DynamicState: HashMap<u32, S>,
    pub StaticState: HashMap<u32, S>,
    pub Position: (i32, i32),
    pub Biome: Biome,
}

pub const CHUNK_BOUNDS_X: u32 = 15;
pub const CHUNK_BOUNDS_Y: u32 = 60;
pub const CHUNK_BOUNDS_Z: u32 = 15;
pub const TOTAL_CHUNK_SIZE: u32 = 13500;

/// The position in a chunk's block list of the block at (x, y, z).
pub open spec fn index_of(x: int, y: int, z: int) -> int {
    x + 15 * (z + y * 15)
}

/// Whether (x, y, z) lies inside a chunk.
pub open spec fn in_chunk(x: int, y: int, z: int) -> bool {
    0 <= x < 15 && 0 <= y < 60 && 0 <= z < 15
}

pub proof fn lemma_index_of_in_chunk(x: int, y: int, z: int)
    requires
        in_chunk(x, y, z),
    ensures
        0 <= index_of(x, y, z) < 13500,
{
    assert(0 <= z + y * 15 <= 14 + 59 * 15) by (nonlinear_arith)
        requires
            0 <= y < 60,
            0 <= z < 15,
    ;
}

/// Every block of a chunk has a place of its own in the chunk's block
/// list: two coordinates inside the chunk with the same index are the same.
pub proof fn law_blocks_have_distinct_places(x1: int, y1: int, z1: int, x2: int, y2: int, z2: int)
    requires
        in_chunk(x1, y1, z1),
        in_chunk(x2, y2, z2),
        index_of(x1, y1, z1) == index_of(x2, y2, z2),
    ensures
        x1 == x2 && y1 == y2 && z1 == z2,
{
    assert(x1 == x2 && y1 == y2 && z1 == z2) by (nonlinear_arith)
        requires
            0 <= x1 < 15, 0 <= y1 < 60, 0 <= z1 < 15,
            0 <= x2 < 15, 0 <= y2 < 60, 0 <= z2 < 15,
            x1 + 15 * (z1 + y1 * 15) == x2 + 15 * (z2 + y2 * 15),
    ;
}

/// The 1D index of a block coordinate.
pub fn To1D(cord: (u32, u32, u32)) -> (r: u32)
    requires
        index_of(cord.0 as int, cord.1 as int, cord.2 as int) <= u32::MAX,
    ensures
        r == index_of(cord.0 as int, cord.1 as int, cord.2 as int),
{
    proof {
        assert(0 <= cord.2 + cord.1 * 15 && cord.1 * 15 <= cord.2 + cord.1 * 15) by (nonlinear_arith);
    }
    cord.0 + CHUNK_BOUNDS_X * (cord.2 + cord.1 * CHUNK_BOUNDS_Z)
}

/// The 1D index of a signed block coordinate.
pub fn To1Di(cord: (i32, i32, i32)) -> (r: i32)
    requires
        i32::MIN <= cord.1 * 15 <= i32::MAX,
        i32::MIN <= cord.2 + cord.1 * 15 <= i32::MAX,
        i32::MIN <= 15 * (cord.2 + cord.1 * 15) <= i32::MAX,
        i32::MIN <= index_of(cord.0 as int, cord.1 as int, cord.2 as int) <= i32::MAX,
    ensures
        r == index_of(cord.0 as int, cord.1 as int, cord.2 as int),
{
    cord.0 + CHUNK_BOUNDS_X as i32 * (cord.2 + cord.1 * CHUNK_BOUNDS_Z as i32)
}

/// The 1D index of a block coordinate, as a `usize`.
pub fn To1DUsize(cord: (usize, usize, usize)) -> (r: usize)
    requires
        index_of(cord.0 as int, cord.1 as int, cord.2 as int) <= usize::MAX,
    ensures
        r == index_of(cord.0 as int, cord.1 as int, cord.2 as int),
{
    proof {
        assert(0 <= cord.2 + cord.1 * 15 && cord.1 * 15 <= cord.2 + cord.1 * 15) by (nonlinear_arith);
    }
    cord.0 + CHUNK_BOUNDS_X as usize * (cord.2 + cord.1 * CHUNK_BOUNDS_Z as usize)
}

/// The mesh of a whole chunk: the quads perpendicular to x, then y, then z.
pub open spec fn chunk_mesh(
    blocks: Seq<Block>,
    adj: Seq<Option<Seq<Block>>>,
    reg: Map<u8, Option<super::block::TextureData>>,
) -> Seq<Vertex> {
    sweep_mesh(blocks, adj, reg, 0, dim(0) + 1) + sweep_mesh(blocks, adj, reg, 1, dim(1) + 1)
        + sweep_mesh(blocks, adj, reg, 2, dim(2) + 1)
}

/// Every quad of the chunk's mesh can be built.
pub open spec fn chunk_meshable(
    blocks: Seq<Block>,
    adj: Seq<Option<Seq<Block>>>,
    reg: Map<u8, Option<super::block::TextureData>>,
) -> bool {
    &&& blocks.len() == 13500
    &&& adj_ok(adj)
    &&& textures_fit(reg)
    &&& forall|d: int| 0 <= d < 3 ==> #[trigger] sweep_ok(blocks, adj, reg, d, dim(d) + 1)
}

impl<S> Chunk<S> {
    /// An empty chunk at `chunkPos`, with no blocks yet.
    pub fn New(chunkPos: (i32, i32)) -> (r: Self)
        ensures
            r.Blocks@ == Seq::<Block>::empty(),
            r.Mesh@ == Seq::<Vertex>::empty(),
            r.DynamicState@ == Map::<u32, S>::empty(),
            r.StaticState@ == Map::<u32, S>::empty(),
            r.Position == chunkPos,
            r.Biome == Biome::NoBiome,
    {
        Self {
            Blocks: Vec::with_capacity(TOTAL_CHUNK_SIZE as usize),
            Mesh: Vec::new(),
            DynamicState: HashMap::new(),
            StaticState: HashMap::new(),
            Position: chunkPos,
            Biome: Biome::NoBiome,
        }
    }

    /// A chunk filled with block 2 below layer `heightLevel` and air above.
    pub fn OfHeight(heightLevel: u32, chunkPos: (i32, i32)) -> (r: Self)
        requires
            225 * heightLevel <= u32::MAX,
        ensures
            r.Blocks@.len() == 13500,
            forall|i: int|
                0 <= i < 13500 ==> (#[trigger] r.Blocks@[i]).ID == if i < 225 * heightLevel {
                    2u8
                } else {
                    0u8
                },
            r.Mesh@ == Seq::<Vertex>::empty(),
            r.DynamicState@ == Map::<u32, S>::empty(),
            r.StaticState@ == Map::<u32, S>::empty(),
            r.Position == chunkPos,
            r.Biome == Biome::NoBiome,
    {
        let mut blocks: Vec<Block> = Vec::with_capacity(TOTAL_CHUNK_SIZE as usize);
        let offset = CHUNK_BOUNDS_X * heightLevel * CHUNK_BOUNDS_Z;
        let mut i: u32 = 0;
        while i < TOTAL_CHUNK_SIZE
            invariant
                offset == 225 * heightLevel,
                i <= 13500,
                blocks@.len() == i,
                forall|k: int|
                    0 <= k < i ==> (#[trigger] blocks@[k]).ID == if k < offset {
                        2u8
                    } else {
                        0u8
                    },
            decreases 13500 - i,
        {
            if i < offset {
                blocks.push(Block { ID: 2 });
            } else {
                blocks.push(Block { ID: 0 });
            }
            i += 1;
        }
        Self {
            Blocks: blocks,
            Mesh: Vec::new(),
            DynamicState: HashMap::new(),
            StaticState: HashMap::new(),
            Position: chunkPos,
            Biome: Biome::NoBiome,
        }
    }

    /// Turns the block at `coordinate` into air and drops its state, dynamic
    /// state first.
    pub fn DestroyBlock(&mut self, coordinate: (u32, u32, u32))
        requires
            index_of(coordinate.0 as int, coordinate.1 as int, coordinate.2 as int) < old(
                self,
            ).Blocks@.len(),
            index_of(coordinate.0 as int, coordinate.1 as int, coordinate.2 as int) <= u32::MAX,
        ensures
            ({
                let idx = index_of(coordinate.0 as int, coordinate.1 as int, coordinate.2 as int);
                &&& final(self).Blocks@ == old(self).Blocks@.update(idx, Block { ID: 0 })
                &&& if old(self).DynamicState@.contains_key(idx as u32) {
                    &&& final(self).DynamicState@ == old(self).DynamicState@.remove(idx as u32)
                    &&& final(self).StaticState@ == old(self).StaticState@
                } else {
                    &&& final(self).DynamicState@ == old(self).DynamicState@
                    &&& final(self).StaticState@ == old(self).StaticState@.remove(idx as u32)
                }
            }),
            final(self).Mesh == old(self).Mesh,
            final(self).Position == old(self).Position,
            final(self).Biome == old(self).Biome,
    {
        let idx = To1D(coordinate);
        self.Blocks.set(idx as usize, Block::Air());
        if self.DynamicState.contains_key(&idx) {
            self.DynamicState.remove(&idx);
        } else if self.StaticState.contains_key(&idx) {
            self.StaticState.remove(&idx);
        }
        assert(!old(self).StaticState@.contains_key(idx) ==> old(self).StaticState@.remove(idx)
            =~= old(self).StaticState@);
    }

    /// The state of the block at `coordinate`, to read or change: its dynamic
    /// state if it has one, else its static state. The key of a coordinate
    /// here is `x + 15 * (z + 60 * y)`.
    pub fn GetBlockStateAt(&mut self, coordinate: (u32, u32, u32)) -> (r: Option<&mut S>)
        requires
            coordinate.0 + 15 * (coordinate.2 + coordinate.1 * 60) <= u32::MAX,
        ensures
            ({
                let key = (coordinate.0 + 15 * (coordinate.2 + coordinate.1 * 60)) as u32;
                match r {
                    Some(state) => if old(self).DynamicState@.contains_key(key) {
                        &&& *state == old(self).DynamicState@[key]
                        &&& final(self).DynamicState@ == old(self).DynamicState@.insert(key, *final(state))
                        &&& final(self).StaticState@ == old(self).StaticState@
                    } else {
                        &&& old(self).StaticState@.contains_key(key)
                        &&& *state == old(self).StaticState@[key]
                        &&& final(self).StaticState@ == old(self).StaticState@.insert(key, *final(state))
                        &&& final(self).DynamicState@ == old(self).DynamicState@
                    },
                    None => {
                        &&& !old(self).DynamicState@.contains_key(key)
                        &&& !old(self).StaticState@.contains_key(key)
                        &&& final(self).DynamicState@ == old(self).DynamicState@
                        &&& final(self).StaticState@ == old(self).StaticState@
                    },
                }
            }),
            final(self).Blocks == old(self).Blocks,
            final(self).Mesh == old(self).Mesh,
            final(self).Position == old(self).Position,
            final(self).Biome == old(self).Biome,
    {
        proof {
            assert(0 <= coordinate.2 + coordinate.1 * 60) by (nonlinear_arith);
            assert(coordinate.1 * 60 <= coordinate.2 + coordinate.1 * 60);
        }
        let idx: u32 = coordinate.0 + CHUNK_BOUNDS_X * (coordinate.2 + coordinate.1 * CHUNK_BOUNDS_Y);
        if self.DynamicState.contains_key(&idx) {
            return state_of(&mut self.DynamicState, idx);
        } else if self.StaticState.contains_key(&idx) {
            return state_of(&mut self.StaticState, idx);
        } else {
            None
        }
    }

    /// Placing blocks is not supported yet: nothing changes and the answer is `false`.
    pub fn EmplaceBlock(&mut self, _coordinate: (u32, u32, u32), _block: &Block) -> (r: bool)
        ensures
            !r,
            *final(self) == *old(self),
    {
        false
    }

    /// Block updates do not propagate yet: nothing changes.
    pub fn PropogateBlockUpdate(&mut self, _origin: (u32, u32, u32))
        ensures
            *final(self) == *old(self),
    {
    }

    /// Removes all blocks and the mesh.
    pub fn Clear(&mut self)
        ensures
            final(self).Blocks@ == Seq::<Block>::empty(),
            final(self).Mesh@ == Seq::<Vertex>::empty(),
            final(self).DynamicState == old(self).DynamicState,
            final(self).StaticState == old(self).StaticState,
            final(self).Position == old(self).Position,
            final(self).Biome == old(self).Biome,
    {
        self.Blocks.clear();
        self.Mesh.clear();
    }

    /// Removes the mesh.
    pub fn ClearMesh(&mut self)
        ensures
            final(self).Mesh@ == Seq::<Vertex>::empty(),
            final(self).Blocks == old(self).Blocks,
            final(self).DynamicState == old(self).DynamicState,
            final(self).StaticState == old(self).StaticState,
            final(self).Position == old(self).Position,
            final(self).Biome == old(self).Biome,
    {
        self.Mesh.clear();
    }

    /// Fills the chunk with a full set of air blocks, lets `generator` shape
    /// the terrain of this chunk position, then places the marker block 6 at
    /// (0, 55, 0).
    pub fn GenerateBlocks<G: BiomeGenerator + ?Sized>(&mut self, generator: &mut G)
        ensures
            final(self).Blocks@.len() > 12375 ==> final(self).Blocks@[12375].ID == 6,
            final(self).Mesh == old(self).Mesh,
            final(self).DynamicState == old(self).DynamicState,
            final(self).StaticState == old(self).StaticState,
            final(self).Position == old(self).Position,
            final(self).Biome == old(self).Biome,
    {
        self.Blocks.resize(TOTAL_CHUNK_SIZE as usize, Block::Air());
        generator.Generate(&mut self.Blocks, self.Position.0, self.Position.1);
        let marker = To1DUsize((0, CHUNK_BOUNDS_Y as usize - 5, 0));
        if marker < self.Blocks.len() {
            self.Blocks.set(marker, Block { ID: 6 });
        }
    }

    /// Rebuilds the chunk's mesh from its blocks, sampling the loaded
    /// neighbours at its borders.
    pub fn GreedyMesh(&mut self, adj: &[Option<Arc<Chunk<S>>>; 4], blockRegistry: &BlockTextureRegistry)
        requires
            chunk_meshable(old(self).Blocks@, adj_blocks(*adj), blockRegistry@),
        ensures
            final(self).Mesh@ == chunk_mesh(old(self).Blocks@, adj_blocks(*adj), blockRegistry@),
            final(self).Blocks == old(self).Blocks,
            final(self).DynamicState == old(self).DynamicState,
            final(self).StaticState == old(self).StaticState,
            final(self).Position == old(self).Position,
            final(self).Biome == old(self).Biome,
    {
        self.ClearMesh();
        let dimensions: [usize; 3] = [
            CHUNK_BOUNDS_X as usize,
            CHUNK_BOUNDS_Y as usize,
            CHUNK_BOUNDS_Z as usize,
        ];
        let ghost blocks = self.Blocks@;
        let ghost a = adj_blocks(*adj);
        let ghost reg = blockRegistry@;
        assert(sweep_ok(blocks, a, reg, 0, dim(0) + 1));
        assert(sweep_ok(blocks, a, reg, 1, dim(1) + 1));
        assert(sweep_ok(blocks, a, reg, 2, dim(2) + 1));
        SweepVolume(self, &dimensions, 0, adj, blockRegistry);
        SweepVolume(self, &dimensions, 1, adj, blockRegistry);
        SweepVolume(self, &dimensions, 2, adj, blockRegistry);
        assert(self.Mesh@ =~= chunk_mesh(blocks, a, reg));
    }

    /// Meshes the chunk when its blocks are all registered, its top layer is
    /// air, its loaded neighbours are full chunks and the registry's texture
    /// ids fit; otherwise leaves it unchanged. Answers whether it meshed.
    pub fn TryGreedyMesh(&mut self, adj: &[Option<Arc<Chunk<S>>>; 4], blockRegistry: &BlockTextureRegistry) -> (r: bool)
        ensures
            r ==> final(self).Mesh@ == chunk_mesh(old(self).Blocks@, adj_blocks(*adj), blockRegistry@),
            !r ==> final(self).Mesh == old(self).Mesh,
            r <==> (crate::util::greedyMeshHelper::meshable(old(self).Blocks@, blockRegistry@)
                && adj_ok(adj_blocks(*adj)) && textures_fit(blockRegistry@)),
            final(self).Blocks == old(self).Blocks,
            final(self).DynamicState == old(self).DynamicState,
            final(self).StaticState == old(self).StaticState,
            final(self).Position == old(self).Position,
            final(self).Biome == old(self).Biome,
    {
        if !IsMeshable(&self.Blocks, blockRegistry) {
            return false;
        }
        let mut k: usize = 0;
        while k < 4
            invariant
                k <= 4,
                forall|i: int|
                    0 <= i < k && #[trigger] adj_blocks(*adj)[i] is Some ==> adj_blocks(*adj)[i]->0.len()
                        == 13500,
            decreases 4 - k,
        {
            match &adj[k] {
                Some(c) => {
                    if c.Blocks.len() != 13500 {
                        assert(adj_blocks(*adj)[k as int] == Some(c.Blocks@));
                        return false;
                    }
                },
                None => {
                    assert(adj_blocks(*adj)[k as int] is None);
                },
            }
            k += 1;
        }
        assert(adj_ok(adj_blocks(*adj)));
        if !blockRegistry.TexturesFit() {
            return false;
        }
        proof {
            let blocks = self.Blocks@;
            assert forall|d: int| 0 <= d < 3 implies #[trigger] sweep_ok(
                blocks,
                adj_blocks(*adj),
                blockRegistry@,
                d,
                dim(d) + 1,
            ) by {
                lemma_meshable_sweep_ok(blocks, adj_blocks(*adj), blockRegistry@, d, dim(d) + 1);
            }
        }
        self.GreedyMesh(adj, blockRegistry);
        true
    }
}

} // verus!
