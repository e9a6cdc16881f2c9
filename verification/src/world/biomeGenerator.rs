use vstd::prelude::*;

use rand::Rng;
use super::block::Block;
use super::chunk::{index_of, in_chunk, lemma_index_of_in_chunk, law_blocks_have_distinct_places, To1D};

verus! {

/// Shapes the terrain of a chunk: writes the blocks of chunk (`chunkX`, `chunkZ`).
pub trait BiomeGenerator {
    fn Generate(&mut self, blocks: &mut Vec<Block>, chunkX: i32, chunkZ: i32);
}

#[derive(PartialEq, Eq, Hash, Clone, Copy, Debug, Structural)]
pub enum Biome {
    Forest,
    Mountain,
    Desert,
    Trundraw,
    Swamp,
    NoBiome,
}

/// `rand::Rng::gen_range` on the thread's generator, over `low..=high`: some
/// number in that range (which one is left to chance).
#[verifier::external_body]
fn random_in_range(low: u32, high: u32) -> (r: u32)
    requires
        low <= high,
    ensures
        low <= r <= high,
{
    rand::thread_rng().gen_range(low..=high)
}

impl Biome {
    /// A biome drawn at random among those that can be generated; only the
    /// forest can be so far.
    pub fn Random() -> (r: Biome)
        ensures
            r == Biome::Forest,
    {
        let val = random_in_range(0, 0);
        match val {
            0 => Biome::Forest,
            _ => {
                assert(false);
                Biome::NoBiome
            },
        }
    }
}


/// The place of column (`x`, `z`) in a chunk's height map.
pub open spec fn column_of(x: int, z: int) -> int {
    x + z * 15
}

/// The block at height `y` of a column whose surface is at `height`, topped
/// by `crust`, with a mantle `mantleLength` deep (of `mantle`, or of the
/// crust block where there is none) and `core` below; above the surface the
/// block stays `prev`.
pub open spec fn column_block(prev: Block, height: u32, crust: Block, mantleLength: u32, mantle: Option<Block>, core: Block, y: int) -> Block {
    if y > height {
        prev
    } else if y == height {
        crust
    } else if y >= height - mantleLength {
        match mantle {
            Some(m) => m,
            None => crust,
        }
    } else {
        core
    }
}

/// Fills the columns of a chunk from the bottom up to their surface: in
/// column (x, z), the block at the surface height is the crust block, the
/// `mantleLengths` blocks below it are mantle, and those further down are
/// core; blocks above the surface are left as they are. Left out, where the
/// arithmetic underflows: a mantle deeper than a surface above the bottom.
pub fn FillColumns(
    blocks: &mut Vec<Block>,
    heightMap: &[u32; 225],
    crust: &[Block; 225],
    mantleLengths: &[u32; 225],
    mantle: Option<Block>,
    core: Block,
)
    requires
        forall|c: int| 0 <= c < 225 && heightMap[c] >= 1 ==> #[trigger] mantleLengths[c] <= heightMap[c],
        forall|x: int, y: int, z: int| in_chunk(x, y, z) && y <= heightMap[column_of(x, z)]
            ==> #[trigger] index_of(x, y, z) < old(blocks)@.len(),
    ensures
        final(blocks)@.len() == old(blocks)@.len(),
        forall|x: int, y: int, z: int| in_chunk(x, y, z) && index_of(x, y, z) < old(blocks)@.len()
            ==> final(blocks)@[#[trigger] index_of(x, y, z)] == column_block(
                old(blocks)@[index_of(x, y, z)],
                heightMap[column_of(x, z)],
                crust[column_of(x, z)],
                mantleLengths[column_of(x, z)],
                mantle,
                core,
                y,
            ),
        forall|i: int| 13500 <= i < old(blocks)@.len() ==> #[trigger] final(blocks)@[i] == old(blocks)@[i],
{
    let ghost start = blocks@;
    let mut x: u32 = 0;
    while x < 15
        invariant
            x <= 15,
            blocks@.len() == start.len(),
            start == old(blocks)@,
            forall|c: int| 0 <= c < 225 && heightMap[c] >= 1 ==> #[trigger] mantleLengths[c] <= heightMap[c],
            forall|x: int, y: int, z: int| in_chunk(x, y, z) && y <= heightMap[column_of(x, z)]
                ==> #[trigger] index_of(x, y, z) < start.len(),
            forall|cx: int, cy: int, cz: int| in_chunk(cx, cy, cz) && index_of(cx, cy, cz) < start.len()
                ==> blocks@[#[trigger] index_of(cx, cy, cz)] == if cx < x {
                    column_block(start[index_of(cx, cy, cz)], heightMap[column_of(cx, cz)], crust[column_of(cx, cz)],
                        mantleLengths[column_of(cx, cz)], mantle, core, cy)
                } else {
                    start[index_of(cx, cy, cz)]
                },
            forall|i: int| 13500 <= i < start.len() ==> #[trigger] blocks@[i] == start[i],
        decreases 15 - x,
    {
        let mut z: u32 = 0;
        while z < 15
            invariant
                x < 15,
                z <= 15,
                blocks@.len() == start.len(),
                forall|c: int| 0 <= c < 225 && heightMap[c] >= 1 ==> #[trigger] mantleLengths[c] <= heightMap[c],
                forall|x: int, y: int, z: int| in_chunk(x, y, z) && y <= heightMap[column_of(x, z)]
                    ==> #[trigger] index_of(x, y, z) < start.len(),
                forall|cx: int, cy: int, cz: int| in_chunk(cx, cy, cz) && index_of(cx, cy, cz) < start.len()
                    ==> blocks@[#[trigger] index_of(cx, cy, cz)] == if cx < x || (cx == x && cz < z) {
                        column_block(start[index_of(cx, cy, cz)], heightMap[column_of(cx, cz)], crust[column_of(cx, cz)],
                            mantleLengths[column_of(cx, cz)], mantle, core, cy)
                    } else {
                        start[index_of(cx, cy, cz)]
                    },
                forall|i: int| 13500 <= i < start.len() ==> #[trigger] blocks@[i] == start[i],
            decreases 15 - z,
        {
            let mapIdx: usize = (x + z * 15) as usize;
            let height = heightMap[mapIdx];
            let crustBlock = crust[mapIdx];
            let mantleLength = mantleLengths[mapIdx];
            let mut y: u32 = 0;
            while y < 60
                invariant
                    x < 15,
                    z < 15,
                    y <= 60,
                    mapIdx == column_of(x as int, z as int),
                    height == heightMap[mapIdx as int],
                    crustBlock == crust[mapIdx as int],
                    mantleLength == mantleLengths[mapIdx as int],
                    height >= 1 ==> mantleLength <= height,
                    blocks@.len() == start.len(),
                    forall|x: int, y: int, z: int| in_chunk(x, y, z) && y <= heightMap[column_of(x, z)]
                        ==> #[trigger] index_of(x, y, z) < start.len(),
                    forall|cx: int, cy: int, cz: int| in_chunk(cx, cy, cz) && index_of(cx, cy, cz) < start.len()
                        ==> blocks@[#[trigger] index_of(cx, cy, cz)] == if cx < x || (cx == x && cz < z) || (cx == x && cz == z && cy < y) {
                            column_block(start[index_of(cx, cy, cz)], heightMap[column_of(cx, cz)], crust[column_of(cx, cz)],
                                mantleLengths[column_of(cx, cz)], mantle, core, cy)
                        } else {
                            start[index_of(cx, cy, cz)]
                        },
                    forall|i: int| 13500 <= i < start.len() ==> #[trigger] blocks@[i] == start[i],
                decreases 60 - y,
            {
                proof {
                    lemma_index_of_in_chunk(x as int, y as int, z as int);
                }
                let idx = To1D((x, y, z)) as usize;
                let ghost before = blocks@;
                if y > height {
                } else {
                    assert(index_of(x as int, y as int, z as int) < start.len());
                    if y == height {
                        blocks.set(idx, crustBlock);
                    } else if y >= height - mantleLength {
                        match mantle {
                            Some(m) => blocks.set(idx, m),
                            None => blocks.set(idx, crustBlock),
                        }
                    } else {
                        blocks.set(idx, core);
                    }
                }
                proof {
                    assert forall|cx: int, cy: int, cz: int| in_chunk(cx, cy, cz) && index_of(cx, cy, cz) < start.len()
                        implies blocks@[#[trigger] index_of(cx, cy, cz)] == if cx < x || (cx == x && cz < z) || (cx == x && cz == z && cy < y + 1) {
                            column_block(start[index_of(cx, cy, cz)], heightMap[column_of(cx, cz)], crust[column_of(cx, cz)],
                                mantleLengths[column_of(cx, cz)], mantle, core, cy)
                        } else {
                            start[index_of(cx, cy, cz)]
                        } by {
                        if index_of(cx, cy, cz) == idx {
                            law_blocks_have_distinct_places(cx, cy, cz, x as int, y as int, z as int);
                        }
                    }
                }
                y += 1;
            }
            z += 1;
        }
        x += 1;
    }
}

} // verus!
