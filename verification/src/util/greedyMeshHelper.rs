use vstd::prelude::*;
use std::sync::Arc;
use crate::renderer::worldRenderer::Vertex;
use crate::world::block::{Block, TextureData, BlockTextureRegistry};
use crate::world::chunk::{Chunk, index_of, CHUNK_BOUNDS_X, CHUNK_BOUNDS_Z};
use vstd::arithmetic::div_mod::lemma_fundamental_div_mod_converse;

verus! {

const ADJACENT_LEFT: i32 = 0;
const ADJACENT_RIGHT: i32 = 1;
const ADJACENT_UP: i32 = 2;
const ADJACENT_DOWN: i32 = 3;

const X_AXIS: usize = 0;
const Y_AXIS: usize = 1;
const Z_AXIS: usize = 2;

/// What lies at a position seen from the chunk being meshed: a solid block,
/// air, or nothing (outside the chunk, with no neighbouring chunk loaded).
#[derive(PartialEq, Eq, Clone, Copy, Debug, Structural)]
pub enum BlockStateType {
    Solid,
    Air,
    Empty,
}

impl BlockStateType {
    /// Only a solid block counts as present.
    fn IsPresent(self) -> (r: bool)
        ensures
            r == (self == BlockStateType::Solid),
    {
        match self {
            Self::Solid => true,
            Self::Air => false,
            Self::Empty => false,
        }
    }
}

// ---------------------------------------------------------------------------
// The model of a chunk's geometry.
// ---------------------------------------------------------------------------
/// The length of a chunk along axis `d` (x, y, z).
pub open spec fn dim(d: int) -> int {
    if d == 0 {
        15
    } else if d == 1 {
        60
    } else {
        15
    }
}

/// The first axis of the planes swept along axis `d`.
pub open spec fn first_axis(d: int) -> int {
    (d + 1) % 3
}

/// The second axis of the planes swept along axis `d`.
pub open spec fn second_axis(d: int) -> int {
    (d + 2) % 3
}

/// The chunk dimensions that meshing works with.
pub open spec fn chunk_dims(dimensions: [usize; 3]) -> bool {
    dimensions[0] == 15 && dimensions[1] == 60 && dimensions[2] == 15
}

/// A point as three integer coordinates.
pub open spec fn pt(p: [i32; 3]) -> Seq<int> {
    seq![p[0] as int, p[1] as int, p[2] as int]
}

/// The point at `q` along axis `d`, `c1` along its first plane axis and `c2`
/// along its second.
pub open spec fn point_of(d: int, q: int, c1: int, c2: int) -> Seq<int> {
    seq![0int, 0int, 0int].update(d, q).update(first_axis(d), c1).update(second_axis(d), c2)
}

/// The position in a block list of a point.
pub open spec fn idx3(p: Seq<int>) -> int {
    index_of(p[0], p[1], p[2])
}

/// A point whose coordinates along both plane axes lie in the chunk and whose
/// coordinate along `d` lies in `lo..=hi`.
pub open spec fn plane_point(p: Seq<int>, d: int, lo: int, hi: int) -> bool {
    &&& p.len() == 3
    &&& 0 <= d < 3
    &&& lo <= p[d] <= hi
    &&& 0 <= p[first_axis(d)] < dim(first_axis(d))
    &&& 0 <= p[second_axis(d)] < dim(second_axis(d))
}

/// The position that `GetBlock` reads first: one step back along `d`, but
/// not below 0.
pub open spec fn back_point(p: Seq<int>, d: int) -> Seq<int> {
    p.update(d, if p[d] - 1 > 0 { p[d] - 1 } else { 0 })
}

/// The block a face at `p` shows: the block behind it along `d`, or, when
/// that is air and not the last layer, the block in front of it.
pub open spec fn get_block(blocks: Seq<Block>, p: Seq<int>, d: int) -> Block {
    let p1 = back_point(p, d);
    let b = blocks[idx3(p1)];
    if b.ID == 0 && p1[d] < dim(d) - 1 {
        blocks[idx3(p1.update(d, p1[d] + 1))]
    } else {
        b
    }
}

/// `GetBlock` reads inside the block list.
pub open spec fn get_block_ok(len: int, p: Seq<int>, d: int) -> bool {
    &&& plane_point(p, d, 0, dim(d) + 1)
    &&& p[d] == dim(d) + 1 ==> 0 <= idx3(p.update(d, dim(d))) < len
}

/// The blocks of the neighbouring chunks (left, right, up, down) that are loaded.
pub open spec fn adj_blocks<S>(adj: [Option<Arc<Chunk<S>>>; 4]) -> Seq<Option<Seq<Block>>> {
    adj@.map_values(
        |c: Option<Arc<Chunk<S>>>|
            match c {
                Some(chunk) => Some(chunk.Blocks@),
                None => None,
            },
    )
}

/// Every loaded neighbour holds a full chunk of blocks.
pub open spec fn adj_ok(adj: Seq<Option<Seq<Block>>>) -> bool {
    &&& adj.len() == 4
    &&& forall|i: int| 0 <= i < 4 && #[trigger] adj[i] is Some ==> adj[i]->0.len() == 13500
}

/// The neighbour sampled when a point leaves the chunk on the low side of axis `d`.
pub open spec fn low_neighbour(d: int) -> int {
    if d == 2 {
        2
    } else {
        0
    }
}

/// The neighbour sampled when a point leaves the chunk on the high side of axis `d`.
pub open spec fn high_neighbour(d: int) -> int {
    if d == 0 {
        1
    } else if d == 1 {
        0
    } else {
        3
    }
}

pub open spec fn state_of(b: Block) -> BlockStateType {
    if b.ID == 0 {
        BlockStateType::Air
    } else {
        BlockStateType::Solid
    }
}

/// What lies at `p` (whose coordinate along `d` may be one step outside the
/// chunk on either side) as seen from the chunk being meshed.
pub open spec fn solid_state(
    blocks: Seq<Block>,
    adj: Seq<Option<Seq<Block>>>,
    d: int,
    p: Seq<int>,
) -> BlockStateType {
    if p[d] == -1 {
        match adj[low_neighbour(d)] {
            Some(bs) => state_of(bs[idx3(p.update(d, dim(d) - 1))]),
            None => BlockStateType::Empty,
        }
    } else if p[d] == dim(d) {
        match adj[high_neighbour(d)] {
            Some(bs) => state_of(bs[idx3(p.update(d, 0))]),
            None => BlockStateType::Empty,
        }
    } else {
        state_of(blocks[idx3(p)])
    }
}

/// Whether a face is drawn between layer `t` and layer `t + 1` along `d`, at
/// the plane cell (`c1`, `c2`). The planes below the bottom and above the top
/// of the chunk have no faces; a face is drawn where a solid block meets air,
/// except where the chunk's own border would draw the neighbour's side.
pub open spec fn face_cell(
    blocks: Seq<Block>,
    adj: Seq<Option<Seq<Block>>>,
    d: int,
    t: int,
    c1: int,
    c2: int,
) -> bool {
    if d == 1 && (t == -1 || t == dim(d) - 1) {
        false
    } else {
        let cur = solid_state(blocks, adj, d, point_of(d, t, c1, c2));
        let next = solid_state(blocks, adj, d, point_of(d, t + 1, c1, c2));
        if cur == BlockStateType::Empty || next == BlockStateType::Empty {
            false
        } else {
            let a = cur == BlockStateType::Solid;
            let b = next == BlockStateType::Solid;
            a != b && !((a && !b && t == -1) || (!a && b && t + 1 >= dim(d)))
        }
    }
}

/// The face mask of the plane between layers `t` and `t + 1` along `d`,
/// stored row by row (rows along the second plane axis).
pub open spec fn plane_mask(
    blocks: Seq<Block>,
    adj: Seq<Option<Seq<Block>>>,
    d: int,
    t: int,
) -> Seq<bool> {
    let d1 = dim(first_axis(d));
    Seq::new((d1 * dim(second_axis(d))) as nat, |x: int| face_cell(blocks, adj, d, t, x % d1, x / d1))
}

// ---------------------------------------------------------------------------
// The greedy decomposition of a plane's mask into rectangles.
// ---------------------------------------------------------------------------
/// The width of the rectangle that starts at row `i`, column `j` of `mask`:
/// it grows along the row while the cells are set and show the same block.
pub open spec fn face_width(
    mask: Seq<bool>,
    blocks: Seq<Block>,
    d: int,
    q: int,
    i: int,
    j: int,
    w: int,
) -> int
    decreases dim(first_axis(d)) - j - w,
{
    let d1 = dim(first_axis(d));
    let n = i * d1 + j;
    let cb = get_block(blocks, point_of(d, q, j, i), d);
    if w >= 1 && j + w < d1 && mask[n + w] && get_block(blocks, point_of(d, q, j + w, i), d) == cb {
        face_width(mask, blocks, d, q, i, j, w + 1)
    } else {
        w
    }
}

/// Row `i + h` can extend the rectangle of width `w` started at (`i`, `j`).
pub open spec fn row_full(
    mask: Seq<bool>,
    blocks: Seq<Block>,
    d: int,
    q: int,
    i: int,
    j: int,
    w: int,
    h: int,
) -> bool {
    let d1 = dim(first_axis(d));
    let n = i * d1 + j;
    let cb = get_block(blocks, point_of(d, q, j, i), d);
    forall|k: int|
        0 <= k < w ==> #[trigger] mask[n + k + h * d1] && get_block(
            blocks,
            point_of(d, q, j + k, i + h),
            d,
        ) == cb
}

/// The height of the rectangle of width `w` started at (`i`, `j`): it grows
/// over the following rows while they are full.
pub open spec fn face_height(
    mask: Seq<bool>,
    blocks: Seq<Block>,
    d: int,
    q: int,
    i: int,
    j: int,
    w: int,
    h: int,
) -> int
    decreases dim(second_axis(d)) - i - h,
{
    if h >= 1 && i + h < dim(second_axis(d)) && row_full(mask, blocks, d, q, i, j, w, h) {
        face_height(mask, blocks, d, q, i, j, w, h + 1)
    } else {
        h
    }
}

/// Whether cell `x` of a plane with rows of length `d1` lies in the rectangle
/// of rows `i..i+h` and columns `j..j+w`.
pub open spec fn in_rect(x: int, d1: int, i: int, j: int, w: int, h: int) -> bool {
    i <= x / d1 < i + h && j <= x % d1 < j + w
}

/// The mask with a rectangle cleared.
pub open spec fn clear_rect(mask: Seq<bool>, d1: int, i: int, j: int, w: int, h: int) -> Seq<bool> {
    Seq::new(mask.len(), |x: int| if in_rect(x, d1, i, j, w, h) { false } else { mask[x] })
}

/// The face id of a quad: two per axis, the second for faces that show the
/// same block on both sides of the plane.
pub open spec fn face_id(blocks: Seq<Block>, d: int, q: int, i: int, j: int) -> int {
    let ih = point_of(d, q, j, i);
    let block1 = get_block(blocks, ih.update(d, q + 1), d);
    let block2 = get_block(blocks, ih, d);
    (if q != dim(d) && block1 == block2 { 1int } else { 0int }) + d * 2
}

/// The texture of a quad's face: the block's texture for that face, or the
/// null texture (7) when the block has no six-sided texture.
pub open spec fn face_texture(reg: Map<u8, Option<TextureData>>, b: Block, f: int) -> int {
    match reg[b.ID] {
        Some(TextureData::SixSided(data)) => (data.TextureID as i32) as int + (
        data.Offsets[f] as i32) as int,
        _ => 7,
    }
}

/// A packed vertex.
pub open spec fn pack_core(p: Seq<int>, tex: int, vid: int, fid: int) -> u32 {
    ((p[0] as i32) | (p[2] as i32) << 4u32 | (p[1] as i32) << 8u32 | (tex as i32) << 16u32 | (
    vid as i32) << 24u32 | (fid as i32) << 26u32) as u32
}

pub open spec fn vertex(p: Seq<int>, tex: int, vid: int, fid: int, w: int, h: int) -> Vertex {
    Vertex { Core: pack_core(p, tex, vid, fid), Dims: ((w as usize) | (h as usize) << 16u32) as u32 }
}

pub open spec fn add3(a: Seq<int>, b: Seq<int>) -> Seq<int> {
    seq![a[0] + b[0], a[1] + b[1], a[2] + b[2]]
}

/// The four vertices of the quad of width `w` and height `h` at row `i`,
/// column `j` of plane `q`: top left, top right, bottom left, bottom right.
pub open spec fn face_vertices(
    blocks: Seq<Block>,
    reg: Map<u8, Option<TextureData>>,
    d: int,
    q: int,
    i: int,
    j: int,
    w: int,
    h: int,
) -> Seq<Vertex> {
    let ih = point_of(d, q, j, i);
    let cb = get_block(blocks, ih, d);
    let fid = face_id(blocks, d, q, i, j);
    let tex = face_texture(reg, cb, fid);
    let qw0 = seq![0int, 0int, 0int].update(first_axis(d), w);
    let qh0 = seq![0int, 0int, 0int].update(second_axis(d), h);
    let qw = if d == 0 { qh0 } else { qw0 };
    let qh = if d == 0 { qw0 } else { qh0 };
    let vw = if d == 0 { h } else { w };
    let vh = if d == 0 { w } else { h };
    seq![
        vertex(ih, tex, 3, fid, vw, vh),
        vertex(add3(ih, qw), tex, 2, fid, vw, vh),
        vertex(add3(ih, qh), tex, 1, fid, vw, vh),
        vertex(add3(add3(ih, qw), qh), tex, 0, fid, vw, vh),
    ]
}

/// Building the quad at (`i`, `j`) of plane `q` reads inside the block list
/// and finds the shown block in the registry.
pub open spec fn face_ok(
    blocks: Seq<Block>,
    reg: Map<u8, Option<TextureData>>,
    d: int,
    q: int,
    i: int,
    j: int,
) -> bool {
    let ih = point_of(d, q, j, i);
    &&& get_block_ok(blocks.len() as int, ih.update(d, q + 1), d)
    &&& reg.contains_key(get_block(blocks, ih, d).ID)
}

/// The vertices of the quads that the greedy scan of `mask` emits from row
/// `i`, column `j` on: each set cell not yet covered starts a quad as wide and
/// then as high as it can grow, which is then cleared from the mask.
pub open spec fn greedy_mesh(
    blocks: Seq<Block>,
    reg: Map<u8, Option<TextureData>>,
    d: int,
    q: int,
    mask: Seq<bool>,
    i: int,
    j: int,
) -> Seq<Vertex>
    decreases dim(second_axis(d)) - i, dim(first_axis(d)) - j,
{
    let d1 = dim(first_axis(d));
    let d2 = dim(second_axis(d));
    if !(0 <= i < d2) || j < 0 {
        Seq::empty()
    } else if j >= d1 {
        greedy_mesh(blocks, reg, d, q, mask, i + 1, 0)
    } else if !mask[i * d1 + j] {
        greedy_mesh(blocks, reg, d, q, mask, i, j + 1)
    } else {
        let w = face_width(mask, blocks, d, q, i, j, 1);
        let h = face_height(mask, blocks, d, q, i, j, w, 1);
        proof {
            lemma_face_width_grows(mask, blocks, d, q, i, j, 1);
        }
        face_vertices(blocks, reg, d, q, i, j, w, h) + greedy_mesh(
            blocks,
            reg,
            d,
            q,
            clear_rect(mask, d1, i, j, w, h),
            i,
            j + w,
        )
    }
}

/// Every quad of the greedy scan from (`i`, `j`) on can be built.
pub open spec fn greedy_ok(
    blocks: Seq<Block>,
    reg: Map<u8, Option<TextureData>>,
    d: int,
    q: int,
    mask: Seq<bool>,
    i: int,
    j: int,
) -> bool
    decreases dim(second_axis(d)) - i, dim(first_axis(d)) - j,
{
    let d1 = dim(first_axis(d));
    let d2 = dim(second_axis(d));
    if !(0 <= i < d2) || j < 0 {
        true
    } else if j >= d1 {
        greedy_ok(blocks, reg, d, q, mask, i + 1, 0)
    } else if !mask[i * d1 + j] {
        greedy_ok(blocks, reg, d, q, mask, i, j + 1)
    } else {
        let w = face_width(mask, blocks, d, q, i, j, 1);
        let h = face_height(mask, blocks, d, q, i, j, w, 1);
        proof {
            lemma_face_width_grows(mask, blocks, d, q, i, j, 1);
        }
        face_ok(blocks, reg, d, q, i, j) && greedy_ok(
            blocks,
            reg,
            d,
            q,
            clear_rect(mask, d1, i, j, w, h),
            i,
            j + w,
        )
    }
}

/// The vertices of the first `k` planes swept along `d`: plane `q` lies
/// between layers `q - 1` and `q`.
pub open spec fn sweep_mesh(
    blocks: Seq<Block>,
    adj: Seq<Option<Seq<Block>>>,
    reg: Map<u8, Option<TextureData>>,
    d: int,
    k: int,
) -> Seq<Vertex>
    decreases k,
{
    if k <= 0 {
        Seq::empty()
    } else {
        sweep_mesh(blocks, adj, reg, d, k - 1) + greedy_mesh(
            blocks,
            reg,
            d,
            k - 1,
            plane_mask(blocks, adj, d, k - 2),
            0,
            0,
        )
    }
}

/// Every quad of the first `k` planes swept along `d` can be built.
pub open spec fn sweep_ok(
    blocks: Seq<Block>,
    adj: Seq<Option<Seq<Block>>>,
    reg: Map<u8, Option<TextureData>>,
    d: int,
    k: int,
) -> bool
    decreases k,
{
    if k <= 0 {
        true
    } else {
        sweep_ok(blocks, adj, reg, d, k - 1) && greedy_ok(
            blocks,
            reg,
            d,
            k - 1,
            plane_mask(blocks, adj, d, k - 2),
            0,
            0,
        )
    }
}

/// The texture id plus the offset of face `f` fits in an `i32`.
pub open spec fn offset_fits(data: crate::world::block::TextureSix, f: int) -> bool {
    i32::MIN <= (data.TextureID as i32) as int + (data.Offsets[f] as i32) as int <= i32::MAX
}

/// The texture id plus each face offset of a texture fits in an `i32`.
pub open spec fn texture_fits(t: Option<TextureData>) -> bool {
    t matches Some(TextureData::SixSided(data)) ==> forall|f: int|
        0 <= f < 6 ==> #[trigger] offset_fits(data, f)
}

/// Texture ids plus face offsets fit in an `i32` for every registered block.
pub open spec fn textures_fit(reg: Map<u8, Option<TextureData>>) -> bool {
    forall|id: u8| #[trigger] reg.contains_key(id) ==> texture_fits(reg[id])
}

pub proof fn lemma_face_width_grows(
    mask: Seq<bool>,
    blocks: Seq<Block>,
    d: int,
    q: int,
    i: int,
    j: int,
    w: int,
)
    ensures
        face_width(mask, blocks, d, q, i, j, w) >= w,
        w >= 1 && j + w <= dim(first_axis(d)) ==> j + face_width(mask, blocks, d, q, i, j, w) <= dim(
            first_axis(d),
        ),
    decreases dim(first_axis(d)) - j - w,
{
    let d1 = dim(first_axis(d));
    let n = i * d1 + j;
    let cb = get_block(blocks, point_of(d, q, j, i), d);
    if w >= 1 && j + w < d1 && mask[n + w] && get_block(blocks, point_of(d, q, j + w, i), d) == cb {
        lemma_face_width_grows(mask, blocks, d, q, i, j, w + 1);
    }
}

pub proof fn lemma_face_height_grows(
    mask: Seq<bool>,
    blocks: Seq<Block>,
    d: int,
    q: int,
    i: int,
    j: int,
    w: int,
    h: int,
)
    ensures
        face_height(mask, blocks, d, q, i, j, w, h) >= h,
        h >= 1 && i + h <= dim(second_axis(d)) ==> i + face_height(mask, blocks, d, q, i, j, w, h) <= dim(
            second_axis(d),
        ),
    decreases dim(second_axis(d)) - i - h,
{
    if h >= 1 && i + h < dim(second_axis(d)) && row_full(mask, blocks, d, q, i, j, w, h) {
        lemma_face_height_grows(mask, blocks, d, q, i, j, w, h + 1);
    }
}

pub(crate) proof fn lemma_row_major(x: int, d1: int, r: int, c: int)
    requires
        d1 > 0,
        0 <= c < d1,
        x == r * d1 + c,
    ensures
        x / d1 == r,
        x % d1 == c,
{
    lemma_fundamental_div_mod_converse(x, d1, r, c);
}

// ---------------------------------------------------------------------------
// Executable meshing.
// ---------------------------------------------------------------------------
/// The 1D index of a block coordinate given as an array.
pub fn To1D(cord: &[i32; 3]) -> (r: i32)
    requires
        -100 <= cord[0] <= 100,
        -100 <= cord[1] <= 100,
        -100 <= cord[2] <= 100,
    ensures
        r == index_of(cord[0] as int, cord[1] as int, cord[2] as int),
{
    cord[0] + CHUNK_BOUNDS_X as i32 * (cord[2] + cord[1] * CHUNK_BOUNDS_Z as i32)
}

proof fn lemma_idx_in_chunk(p: Seq<int>)
    requires
        p.len() == 3,
        0 <= p[0] < 15,
        0 <= p[1] < 60,
        0 <= p[2] < 15,
    ensures
        0 <= idx3(p) < 13500,
{
    crate::world::chunk::lemma_index_of_in_chunk(p[0], p[1], p[2]);
}

proof fn lemma_plane_point_in_chunk(p: Seq<int>, d: int)
    requires
        plane_point(p, d, 0, dim(d) - 1),
    ensures
        0 <= idx3(p) < 13500,
{
    lemma_idx_in_chunk(p);
}

fn GetBlock(point: [i32; 3], currentDimension: usize, blocks: &Vec<Block>, dimensions: &[usize; 3]) -> (r: Block)
    requires
        chunk_dims(*dimensions),
        blocks@.len() == 13500,
        get_block_ok(blocks@.len() as int, pt(point), currentDimension as int),
    ensures
        r == get_block(blocks@, pt(point), currentDimension as int),
{
    let ghost d = currentDimension as int;
    let mut p = point;
    let back = p[currentDimension] - 1;
    p[currentDimension] = if back > 0 {
        back
    } else {
        0
    };
    assert(pt(p) =~= back_point(pt(point), d)) by {
    }
    proof {
        let p1 = pt(p);
        if p1[d] < dim(d) {
            lemma_plane_point_in_chunk(p1, d);
        } else {
            assert(p1 =~= pt(point).update(d, dim(d)));
        }
    }
    let mut block = blocks[To1D(&p) as usize];
    if block == Block::Air() && p[currentDimension] < dimensions[currentDimension] as i32 - 1 {
        p[currentDimension] += 1;
        proof {
            lemma_plane_point_in_chunk(pt(p), d);
        }
        block = blocks[To1D(&p) as usize];
    }
    block
}

fn IsSolid<S>(
    point: [i32; 3],
    dimensions: &[usize; 3],
    currentDimension: usize,
    adjacencyChunks: &[Option<Arc<Chunk<S>>>; 4],
    blocks: &Vec<Block>,
) -> (r: BlockStateType)
    requires
        chunk_dims(*dimensions),
        blocks@.len() == 13500,
        adj_ok(adj_blocks(*adjacencyChunks)),
        plane_point(pt(point), currentDimension as int, -1, dim(currentDimension as int)),
    ensures
        r == solid_state(blocks@, adj_blocks(*adjacencyChunks), currentDimension as int, pt(point)),
{
    let ghost d = currentDimension as int;
    let ghost adj = adj_blocks(*adjacencyChunks);
    let adjacencyIndices: [(i32, i32); 3] = [
        (ADJACENT_LEFT, ADJACENT_RIGHT),
        (0, 0),
        (ADJACENT_UP, ADJACENT_DOWN),
    ];
    let mut p = point;
    let mut adjacentChunkIdx: i32 = -1;
    if p[currentDimension] == -1 {
        p[currentDimension] = dimensions[currentDimension] as i32 - 1;
        adjacentChunkIdx = adjacencyIndices[currentDimension].0;
    } else if p[currentDimension] == dimensions[currentDimension] as i32 {
        p[currentDimension] = 0;
        adjacentChunkIdx = adjacencyIndices[currentDimension].1;
    }
    proof {
        lemma_plane_point_in_chunk(pt(p), d);
    }
    if adjacentChunkIdx == -1 {
        let air = blocks[To1D(&p) as usize] == Block::Air();
        assert(pt(p) =~= pt(point));
        if air {
            return BlockStateType::Air;
        } else {
            return BlockStateType::Solid;
        }
    }
    match &adjacencyChunks[adjacentChunkIdx as usize] {
        Some(chunk) => {
            assert(adj[adjacentChunkIdx as int] is Some);
            let air = chunk.Blocks[To1D(&p) as usize] == Block::Air();
            proof {
                if pt(point)[d] == -1 {
                    assert(pt(p) =~= pt(point).update(d, dim(d) - 1));
                } else {
                    assert(pt(p) =~= pt(point).update(d, 0));
                }
            }
            if air {
                BlockStateType::Air
            } else {
                BlockStateType::Solid
            }
        },
        None => {
            assert(adj[adjacentChunkIdx as int] is None);
            BlockStateType::Empty
        },
    }
}

fn AddArrayVector(v1: &[i32; 3], v2: &[i32; 3]) -> (r: [i32; 3])
    requires
        i32::MIN <= v1[0] + v2[0] <= i32::MAX,
        i32::MIN <= v1[1] + v2[1] <= i32::MAX,
        i32::MIN <= v1[2] + v2[2] <= i32::MAX,
    ensures
        pt(r) == add3(pt(*v1), pt(*v2)),
{
    let r = [v1[0] + v2[0], v1[1] + v2[1], v1[2] + v2[2]];
    assert(pt(r) =~= add3(pt(*v1), pt(*v2)));
    r
}

fn AddVertex(
    point: &[i32; 3],
    textureId: i32,
    vertexId: i32,
    faceId: i32,
    width: usize,
    height: usize,
    mesh: &mut Vec<Vertex>,
)
    ensures
        final(mesh)@ == old(mesh)@.push(
            vertex(pt(*point), textureId as int, vertexId as int, faceId as int, width as int, height as int),
        ),
{
    let core = point[0] | point[2] << 4u32 | point[1] << 8u32 | textureId << 16u32 | vertexId << 24u32
        | faceId << 26u32;
    let dims = width | height << 16u32;
    mesh.push(Vertex { Core: core as u32, Dims: dims as u32 });
}

proof fn lemma_pt_point_of(p: [i32; 3], d: int)
    requires
        0 <= d < 3,
    ensures
        pt(p) == point_of(d, p[d] as int, p[first_axis(d)] as int, p[second_axis(d)] as int),
{
    assert(pt(p) =~= point_of(d, p[d] as int, p[first_axis(d)] as int, p[second_axis(d)] as int));
}

proof fn lemma_point_of_facts(d: int, q: int, c1: int, c2: int)
    requires
        0 <= d < 3,
    ensures
        point_of(d, q, c1, c2).len() == 3,
        point_of(d, q, c1, c2)[d] == q,
        point_of(d, q, c1, c2)[first_axis(d)] == c1,
        point_of(d, q, c1, c2)[second_axis(d)] == c2,
        first_axis(d) != d,
        second_axis(d) != d,
        first_axis(d) != second_axis(d),
        0 <= first_axis(d) < 3,
        0 <= second_axis(d) < 3,
{
}

proof fn lemma_cell_index(i: int, j: int, k: int, l: int, d1: int, d2: int)
    requires
        0 <= i,
        0 <= j,
        0 <= k,
        0 <= l,
        i + l < d2,
        j + k < d1,
    ensures
        (i * d1 + j) + k + l * d1 == (i + l) * d1 + (j + k),
        0 <= (i + l) * d1 + (j + k) < d1 * d2,
{
    assert((i * d1 + j) + k + l * d1 == (i + l) * d1 + (j + k)) by (nonlinear_arith);
    assert(0 <= (i + l) * d1 + (j + k) < d1 * d2) by (nonlinear_arith)
        requires
            0 <= i + l < d2,
            0 <= j + k < d1,
    ;
}

#[verifier::rlimit(60)]
#[verifier::spinoff_prover]
fn ConstructFace(
    blocks: &Vec<Block>,
    mesh: &mut Vec<Vertex>,
    indexHolder: [i32; 3],
    currentDimension: usize,
    dimensions: &[usize; 3],
    blockRegistry: &BlockTextureRegistry,
    width: usize,
    height: usize,
    axis1: usize,
    axis2: usize,
)
    requires
        chunk_dims(*dimensions),
        blocks@.len() == 13500,
        currentDimension < 3,
        axis1 == first_axis(currentDimension as int),
        axis2 == second_axis(currentDimension as int),
        plane_point(pt(indexHolder), currentDimension as int, 0, dim(currentDimension as int)),
        face_ok(
            blocks@,
            blockRegistry@,
            currentDimension as int,
            indexHolder[currentDimension as int] as int,
            indexHolder[axis2 as int] as int,
            indexHolder[axis1 as int] as int,
        ),
        textures_fit(blockRegistry@),
        1 <= width <= 60,
        1 <= height <= 60,
    ensures
        final(mesh)@ == old(mesh)@ + face_vertices(
            blocks@,
            blockRegistry@,
            currentDimension as int,
            indexHolder[currentDimension as int] as int,
            indexHolder[axis2 as int] as int,
            indexHolder[axis1 as int] as int,
            width as int,
            height as int,
        ),
{
    let ghost d = currentDimension as int;
    let ghost q = indexHolder[d] as int;
    let ghost i = indexHolder[axis2 as int] as int;
    let ghost j = indexHolder[axis1 as int] as int;
    let ghost ih = point_of(d, q, j, i);
    proof {
        lemma_pt_point_of(indexHolder, d);
    }
    let currBlock = GetBlock(indexHolder, currentDimension, blocks, dimensions);
    let mut dimensionsQuadWidth: [i32; 3] = [0; 3];
    let mut dimensionsQuadHeight: [i32; 3] = [0; 3];
    dimensionsQuadWidth[axis1] = width as i32;
    dimensionsQuadHeight[axis2] = height as i32;
    let mut tmp = indexHolder;
    tmp[currentDimension] += 1;
    assert(pt(tmp) =~= ih.update(d, q + 1));
    let block1 = GetBlock(tmp, currentDimension, blocks, dimensions);
    let block2 = GetBlock(indexHolder, currentDimension, blocks, dimensions);
    let same: i32 = if indexHolder[currentDimension] != dimensions[currentDimension] as i32 && block1 == block2 {
        1
    } else {
        0
    };
    let fID: i32 = same + currentDimension as i32 * 2;
    assert(fID == face_id(blocks@, d, q, i, j));
    let mut texID: i32 = 7;
    match blockRegistry.GetTextureData(currBlock.ID) {
        Some(TextureData::SixSided(data)) => {
            assert(blockRegistry@.contains_key(currBlock.ID));
            assert(texture_fits(blockRegistry@[currBlock.ID]));
            assert(0 <= fID < 6);
            assert(offset_fits(*data, fID as int));
            texID = data.TextureID as i32 + data.Offsets[fID as usize] as i32;
        },
        _ => {},
    }
    assert(texID == face_texture(blockRegistry@, currBlock, fID as int));
    let offsets: [i32; 4] = [3, 2, 1, 0];
    let ghost w0 = width as int;
    let ghost h0 = height as int;
    let mut width = width;
    let mut height = height;
    if currentDimension == 0 {
        let temp = dimensionsQuadWidth;
        dimensionsQuadWidth = dimensionsQuadHeight;
        dimensionsQuadHeight = temp;
        let tmpw = width;
        width = height;
        height = tmpw;
    }
    let ghost qw0 = seq![0int, 0int, 0int].update(axis1 as int, w0);
    let ghost qh0 = seq![0int, 0int, 0int].update(axis2 as int, h0);
    let ghost qw = if d == 0 { qh0 } else { qw0 };
    let ghost qh = if d == 0 { qw0 } else { qh0 };
    assert(pt(dimensionsQuadWidth) =~= qw);
    assert(pt(dimensionsQuadHeight) =~= qh);
    let ghost mesh0 = mesh@;
    AddVertex(&indexHolder, texID, offsets[0], fID, width, height, mesh);
    let arr = [
        indexHolder[0] + dimensionsQuadWidth[0],
        indexHolder[1] + dimensionsQuadWidth[1],
        indexHolder[2] + dimensionsQuadWidth[2],
    ];
    assert(pt(arr) =~= add3(ih, qw));
    AddVertex(&arr, texID, offsets[1], fID, width, height, mesh);
    let arr = [
        indexHolder[0] + dimensionsQuadHeight[0],
        indexHolder[1] + dimensionsQuadHeight[1],
        indexHolder[2] + dimensionsQuadHeight[2],
    ];
    assert(pt(arr) =~= add3(ih, qh));
    AddVertex(&arr, texID, offsets[2], fID, width, height, mesh);
    let arr = [
        indexHolder[0] + dimensionsQuadWidth[0] + dimensionsQuadHeight[0],
        indexHolder[1] + dimensionsQuadWidth[1] + dimensionsQuadHeight[1],
        indexHolder[2] + dimensionsQuadWidth[2] + dimensionsQuadHeight[2],
    ];
    assert(pt(arr) =~= add3(add3(ih, qw), qh));
    AddVertex(&arr, texID, offsets[3], fID, width, height, mesh);
    assert(mesh@ =~= mesh0 + face_vertices(
        blocks@,
        blockRegistry@,
        d,
        q,
        i,
        j,
        w0,
        h0,
    ));
}

fn GetFaceDimensions(
    mask: &Vec<bool>,
    axis1: usize,
    axis2: usize,
    dimensions: &[usize; 3],
    currentDimension: usize,
    indexHolder: &mut [i32; 3],
    i: usize,
    j: usize,
    n: usize,
    blocks: &Vec<Block>,
) -> (r: (usize, usize))
    requires
        chunk_dims(*dimensions),
        blocks@.len() == 13500,
        currentDimension < 3,
        axis1 == first_axis(currentDimension as int),
        axis2 == second_axis(currentDimension as int),
        0 <= old(indexHolder)[currentDimension as int] <= dim(currentDimension as int),
        i < dim(second_axis(currentDimension as int)),
        j < dim(first_axis(currentDimension as int)),
        n == i * dim(first_axis(currentDimension as int)) + j,
        mask@.len() == dim(first_axis(currentDimension as int)) * dim(second_axis(currentDimension as int)),
    ensures
        final(indexHolder)[currentDimension as int] == old(indexHolder)[currentDimension as int],
        final(indexHolder)[axis1 as int] == j,
        final(indexHolder)[axis2 as int] == i,
        r.0 == face_width(
            mask@,
            blocks@,
            currentDimension as int,
            old(indexHolder)[currentDimension as int] as int,
            i as int,
            j as int,
            1,
        ),
        r.1 == face_height(
            mask@,
            blocks@,
            currentDimension as int,
            old(indexHolder)[currentDimension as int] as int,
            i as int,
            j as int,
            r.0 as int,
            1,
        ),
{
    let ghost d = currentDimension as int;
    let ghost q = indexHolder[d] as int;
    let ghost d1 = dim(first_axis(d));
    let ghost d2 = dim(second_axis(d));
    indexHolder[axis2] = i as i32;
    indexHolder[axis1] = j as i32;
    proof {
        lemma_pt_point_of(*indexHolder, d);
    }
    let currBlock = GetBlock(*indexHolder, currentDimension, blocks, dimensions);
    let ghost cb = currBlock;
    let mut holderCopy = *indexHolder;
    holderCopy[axis1] += 1;
    let mut width: usize = 1;
    loop
        invariant
            chunk_dims(*dimensions),
            blocks@.len() == 13500,
            0 <= d < 3,
            d == currentDimension as int,
            axis1 == first_axis(d),
            axis2 == second_axis(d),
            0 <= q <= dim(d),
            i < d2,
            j < d1,
            n == i * d1 + j,
            mask@.len() == d1 * d2,
            d1 == dim(first_axis(d)),
            d2 == dim(second_axis(d)),
            cb == get_block(blocks@, point_of(d, q, j as int, i as int), d),
            currBlock == cb,
            q == old(indexHolder)[currentDimension as int],
            1 <= width,
            j + width <= d1,
            indexHolder[d] == q,
            indexHolder[axis1 as int] == j,
            indexHolder[axis2 as int] == i,
            pt(holderCopy) == point_of(d, q, j + width, i as int),
            face_width(mask@, blocks@, d, q, i as int, j as int, 1) == face_width(
                mask@,
                blocks@,
                d,
                q,
                i as int,
                j as int,
                width as int,
            ),
        ensures
            1 <= width,
            j + width <= d1,
            face_width(mask@, blocks@, d, q, i as int, j as int, width as int) == width,
        decreases d1 - j - width,
    {
        if !(j + width < dimensions[axis1]) {
            break;
        }
        proof {
            lemma_cell_index(i as int, j as int, width as int, 0, d1, d2);
        }
        if !mask[n + width] {
            break;
        }
        if currBlock != GetBlock(holderCopy, currentDimension, blocks, dimensions) {
            break;
        }
        assert(face_width(mask@, blocks@, d, q, i as int, j as int, width as int) == face_width(
            mask@,
            blocks@,
            d,
            q,
            i as int,
            j as int,
            width + 1,
        ));
        width += 1;
        holderCopy[axis1] += 1;
        assert(pt(holderCopy) =~= point_of(d, q, j + width, i as int));
    }
    assert(face_width(mask@, blocks@, d, q, i as int, j as int, width as int) == width);
    let mut height: usize = 1;
    while i + height < dimensions[axis2]
        invariant
            chunk_dims(*dimensions),
            blocks@.len() == 13500,
            0 <= d < 3,
            d == currentDimension as int,
            axis1 == first_axis(d),
            axis2 == second_axis(d),
            0 <= q <= dim(d),
            i < d2,
            j < d1,
            n == i * d1 + j,
            mask@.len() == d1 * d2,
            d1 == dim(first_axis(d)),
            d2 == dim(second_axis(d)),
            cb == get_block(blocks@, point_of(d, q, j as int, i as int), d),
            currBlock == cb,
            q == old(indexHolder)[currentDimension as int],
            1 <= width,
            j + width <= d1,
            1 <= height,
            i + height <= d2,
            indexHolder[axis1 as int] == j,
            indexHolder[axis2 as int] == i,
            indexHolder[d] == q,
            pt(holderCopy)[d] == q,
            pt(holderCopy)[axis2 as int] == i + height - 1,
            face_width(mask@, blocks@, d, q, i as int, j as int, 1) == width,
            face_height(mask@, blocks@, d, q, i as int, j as int, width as int, 1) == face_height(
                mask@,
                blocks@,
                d,
                q,
                i as int,
                j as int,
                width as int,
                height as int,
            ),
        decreases d2 - i - height,
    {
        holderCopy[axis2] += 1;
        holderCopy[axis1] = indexHolder[axis1];
        let mut k: usize = 0;
        while k < width
            invariant
                chunk_dims(*dimensions),
                blocks@.len() == 13500,
                0 <= d < 3,
                d == currentDimension as int,
            d == currentDimension as int,
                axis1 == first_axis(d),
                axis2 == second_axis(d),
                0 <= q <= dim(d),
                n == i * d1 + j,
                mask@.len() == d1 * d2,
                d1 == dim(first_axis(d)),
                d2 == dim(second_axis(d)),
                cb == get_block(blocks@, point_of(d, q, j as int, i as int), d),
                currBlock == cb,
                q == old(indexHolder)[currentDimension as int],
                i + height < d2,
                j + width <= d1,
                k <= width,
                1 <= height,
                face_width(mask@, blocks@, d, q, i as int, j as int, 1) == width,
                face_height(mask@, blocks@, d, q, i as int, j as int, width as int, 1) == face_height(
                    mask@,
                    blocks@,
                    d,
                    q,
                    i as int,
                    j as int,
                    width as int,
                    height as int,
                ),
                i < d2,
                j < d1,
                indexHolder[d] == q,
                indexHolder[axis1 as int] == j,
                indexHolder[axis2 as int] == i,
                pt(holderCopy) == point_of(d, q, j + k, i + height),
                forall|kk: int|
                    0 <= kk < k ==> #[trigger] mask@[(i * d1 + j) + kk + height * d1] && get_block(
                        blocks@,
                        point_of(d, q, j + kk, i + height),
                        d,
                    ) == cb,
            decreases width - k,
        {
            proof {
                lemma_cell_index(i as int, j as int, k as int, height as int, d1, d2);
            }
            if !mask[k + n + height * dimensions[axis1]] || currBlock != GetBlock(
                holderCopy,
                currentDimension,
                blocks,
                dimensions,
            ) {
                assert(k + n + height * d1 == (i * d1 + j) + k + height * d1);
                assert(!(mask@[(i * d1 + j) + k + height * d1] && get_block(
                    blocks@,
                    point_of(d, q, j + k, i + height),
                    d,
                ) == cb));
                assert(!row_full(mask@, blocks@, d, q, i as int, j as int, width as int, height as int));
                return (width, height);
            }
            assert(k + n + height * d1 == (i * d1 + j) + k + height * d1);
            holderCopy[axis1] += 1;
            k += 1;
            assert(pt(holderCopy) =~= point_of(d, q, j + k, i + height));
        }
        assert(row_full(mask@, blocks@, d, q, i as int, j as int, width as int, height as int));
        height += 1;
    }
    (width, height)
}

#[verifier::rlimit(60)]
#[verifier::spinoff_prover]
fn SweepPlane<S>(
    blocks: &Vec<Block>,
    mask: &mut Vec<bool>,
    axis1: usize,
    axis2: usize,
    dimensions: &[usize; 3],
    currentDimension: usize,
    indexHolder: &mut [i32; 3],
    normalVector: &[i32; 3],
    adjacencyChunks: &[Option<Arc<Chunk<S>>>; 4],
)
    requires
        chunk_dims(*dimensions),
        blocks@.len() == 13500,
        currentDimension < 3,
        axis1 == first_axis(currentDimension as int),
        axis2 == second_axis(currentDimension as int),
        -1 <= old(indexHolder)[currentDimension as int] < dim(currentDimension as int),
        pt(*normalVector) == seq![0int, 0int, 0int].update(currentDimension as int, 1),
        adj_ok(adj_blocks(*adjacencyChunks)),
        old(mask)@.len() == dim(first_axis(currentDimension as int)) * dim(
            second_axis(currentDimension as int),
        ),
        forall|x: int| 0 <= x < old(mask)@.len() ==> !old(mask)@[x],
    ensures
        final(indexHolder)[currentDimension as int] == old(indexHolder)[currentDimension as int],
        final(mask)@ == plane_mask(
            blocks@,
            adj_blocks(*adjacencyChunks),
            currentDimension as int,
            old(indexHolder)[currentDimension as int] as int,
        ),
{
    let ghost d = currentDimension as int;
    let ghost t = indexHolder[d] as int;
    let ghost d1 = dim(first_axis(d));
    let ghost d2 = dim(second_axis(d));
    let ghost adj = adj_blocks(*adjacencyChunks);
    let mut n: usize = 0;
    indexHolder[axis2] = 0;
    while indexHolder[axis2] < dimensions[axis2] as i32
        invariant
            chunk_dims(*dimensions),
            blocks@.len() == 13500,
            0 <= d < 3,
            d == currentDimension as int,
            axis1 == first_axis(d),
            axis2 == second_axis(d),
            d1 == dim(first_axis(d)),
            d2 == dim(second_axis(d)),
            adj == adj_blocks(*adjacencyChunks),
            adj_ok(adj),
            pt(*normalVector) == seq![0int, 0int, 0int].update(d, 1),
            indexHolder[d] == t,
            -1 <= t < dim(d),
            0 <= indexHolder[axis2 as int] <= d2,
            n == indexHolder[axis2 as int] * d1,
            mask@.len() == d1 * d2,
            forall|x: int|
                0 <= x < mask@.len() ==> #[trigger] mask@[x] == if x < n {
                    face_cell(blocks@, adj, d, t, x % d1, x / d1)
                } else {
                    false
                },
        decreases d2 - indexHolder[axis2 as int],
    {
        indexHolder[axis1] = 0;
        let ghost row = indexHolder[axis2 as int];
        while indexHolder[axis1] < dimensions[axis1] as i32
            invariant
                indexHolder[axis2 as int] == row,
                chunk_dims(*dimensions),
                blocks@.len() == 13500,
                0 <= d < 3,
                d == currentDimension as int,
            d == currentDimension as int,
                axis1 == first_axis(d),
                axis2 == second_axis(d),
                d1 == dim(first_axis(d)),
                d2 == dim(second_axis(d)),
                adj == adj_blocks(*adjacencyChunks),
                adj_ok(adj),
                pt(*normalVector) == seq![0int, 0int, 0int].update(d, 1),
                indexHolder[d] == t,
                -1 <= t < dim(d),
                0 <= indexHolder[axis2 as int] < d2,
                0 <= indexHolder[axis1 as int] <= d1,
                n == indexHolder[axis2 as int] * d1 + indexHolder[axis1 as int],
                mask@.len() == d1 * d2,
                forall|x: int|
                    0 <= x < mask@.len() ==> #[trigger] mask@[x] == if x < n {
                        face_cell(blocks@, adj, d, t, x % d1, x / d1)
                    } else {
                        false
                    },
            decreases d1 - indexHolder[axis1 as int],
        {
            let ghost c1 = indexHolder[axis1 as int] as int;
            let ghost c2 = indexHolder[axis2 as int] as int;
            proof {
                lemma_cell_index(c2, c1, 0, 0, d1, d2);
                lemma_row_major(n as int, d1, c2, c1);
                lemma_pt_point_of(*indexHolder, d);
            }
            let bottomY = indexHolder[currentDimension] == -1 && currentDimension == Y_AXIS;
            let topY = indexHolder[currentDimension] == dimensions[currentDimension] as i32 - 1
                && currentDimension == Y_AXIS;
            if bottomY || topY {
                assert(!face_cell(blocks@, adj, d, t, c1, c2));
                n += 1;
                indexHolder[axis1] += 1;
                continue ;
            }
            let currentBlockSolid = IsSolid(
                *indexHolder,
                dimensions,
                currentDimension,
                adjacencyChunks,
                blocks,
            );
            let nextPoint = AddArrayVector(indexHolder, normalVector);
            assert(pt(nextPoint) =~= point_of(d, t + 1, c1, c2));
            let nextBlockSolid = IsSolid(
                nextPoint,
                dimensions,
                currentDimension,
                adjacencyChunks,
                blocks,
            );
            let a: bool = currentBlockSolid.IsPresent();
            let b: bool = nextBlockSolid.IsPresent();
            if currentBlockSolid == BlockStateType::Empty || nextBlockSolid == BlockStateType::Empty {
                mask[n] = false;
            } else {
                mask[n] = a != b;
            }
            if currentBlockSolid != BlockStateType::Empty && nextBlockSolid != BlockStateType::Empty {
                if (a && !b && indexHolder[currentDimension] == -1) || (!a && b
                    && indexHolder[currentDimension] + normalVector[currentDimension]
                    >= dimensions[currentDimension] as i32) {
                    mask[n] = false;
                }
            }
            assert(mask@[n as int] == face_cell(blocks@, adj, d, t, c1, c2));
            n += 1;
            indexHolder[axis1] += 1;
        }
        indexHolder[axis2] += 1;
    }
    assert(mask@ =~= plane_mask(blocks@, adj, d, t));
}

/// The mask with the first `l` rows of a rectangle cleared, and the first
/// `k` cells of its next row.
spec fn clear_partial(mask: Seq<bool>, d1: int, i: int, j: int, w: int, l: int, k: int) -> Seq<bool> {
    Seq::new(
        mask.len(),
        |x: int|
            if in_rect(x, d1, i, j, w, l) || (x / d1 == i + l && j <= x % d1 < j + k) {
                false
            } else {
                mask[x]
            },
    )
}

proof fn lemma_clear_step(mask: Seq<bool>, d1: int, d2: int, i: int, j: int, w: int, l: int, k: int)
    requires
        d1 > 0,
        mask.len() == d1 * d2,
        0 <= i,
        0 <= j,
        0 <= l,
        0 <= k < w,
        i + l < d2,
        j + w <= d1,
    ensures
        0 <= (i * d1 + j) + k + l * d1 < mask.len(),
        clear_partial(mask, d1, i, j, w, l, k).update((i * d1 + j) + k + l * d1, false)
            == clear_partial(mask, d1, i, j, w, l, k + 1),
{
    let idx = (i * d1 + j) + k + l * d1;
    lemma_cell_index(i, j, k, l, d1, d2);
    lemma_row_major(idx, d1, i + l, j + k);
    let a = clear_partial(mask, d1, i, j, w, l, k).update(idx, false);
    let b = clear_partial(mask, d1, i, j, w, l, k + 1);
    assert forall|x: int| 0 <= x < mask.len() implies a[x] == b[x] by {
        if x != idx {
            vstd::arithmetic::div_mod::lemma_fundamental_div_mod(x, d1);
            if x / d1 == i + l && x % d1 == j + k {
                assert(x == d1 * (i + l) + (j + k));
                assert(d1 * (i + l) == (i + l) * d1) by (nonlinear_arith);
            }
        }
    }
    assert(a =~= b);
}

fn ConstructMeshFromMask(
    blocks: &Vec<Block>,
    mesh: &mut Vec<Vertex>,
    mask: &mut Vec<bool>,
    axis1: usize,
    axis2: usize,
    dimensions: &[usize; 3],
    currentDimension: usize,
    indexHolder: &mut [i32; 3],
    blockRegistry: &BlockTextureRegistry,
)
    requires
        chunk_dims(*dimensions),
        blocks@.len() == 13500,
        currentDimension < 3,
        axis1 == first_axis(currentDimension as int),
        axis2 == second_axis(currentDimension as int),
        0 <= old(indexHolder)[currentDimension as int] <= dim(currentDimension as int),
        old(mask)@.len() == dim(first_axis(currentDimension as int)) * dim(
            second_axis(currentDimension as int),
        ),
        greedy_ok(
            blocks@,
            blockRegistry@,
            currentDimension as int,
            old(indexHolder)[currentDimension as int] as int,
            old(mask)@,
            0,
            0,
        ),
        textures_fit(blockRegistry@),
    ensures
        final(indexHolder)[currentDimension as int] == old(indexHolder)[currentDimension as int],
        final(mesh)@ == old(mesh)@ + greedy_mesh(
            blocks@,
            blockRegistry@,
            currentDimension as int,
            old(indexHolder)[currentDimension as int] as int,
            old(mask)@,
            0,
            0,
        ),
        final(mask)@.len() == old(mask)@.len(),
        forall|x: int| 0 <= x < final(mask)@.len() ==> !final(mask)@[x],
{
    let ghost d = currentDimension as int;
    let ghost q = indexHolder[d] as int;
    let ghost d1 = dim(first_axis(d));
    let ghost d2 = dim(second_axis(d));
    let ghost reg = blockRegistry@;
    let ghost total = mesh@ + greedy_mesh(blocks@, reg, d, q, mask@, 0, 0);
    proof {
        lemma_point_of_facts(d, q, 0, 0);
    }
    let mut n: usize = 0;
    let mut i: usize = 0;
    while i < dimensions[axis2]
        invariant
            chunk_dims(*dimensions),
            blocks@.len() == 13500,
            0 <= d < 3,
            d == currentDimension as int,
            axis1 == first_axis(d),
            axis2 == second_axis(d),
            first_axis(d) != d,
            second_axis(d) != d,
            d1 == dim(first_axis(d)),
            d2 == dim(second_axis(d)),
            reg == blockRegistry@,
            textures_fit(reg),
            q == old(indexHolder)[currentDimension as int],
            indexHolder[d] == q,
            0 <= q <= dim(d),
            i <= d2,
            n == i * d1,
            mask@.len() == d1 * d2,
            mesh@ + greedy_mesh(blocks@, reg, d, q, mask@, i as int, 0) == total,
            greedy_ok(blocks@, reg, d, q, mask@, i as int, 0),
            forall|x: int| 0 <= x < n ==> !#[trigger] mask@[x],
        decreases d2 - i,
    {
        let mut j: usize = 0;
        while j < dimensions[axis1]
            invariant
                chunk_dims(*dimensions),
                blocks@.len() == 13500,
                0 <= d < 3,
                d == currentDimension as int,
                axis1 == first_axis(d),
                axis2 == second_axis(d),
                first_axis(d) != d,
                second_axis(d) != d,
                d1 == dim(first_axis(d)),
                d2 == dim(second_axis(d)),
                reg == blockRegistry@,
                textures_fit(reg),
                q == old(indexHolder)[currentDimension as int],
                indexHolder[d] == q,
                0 <= q <= dim(d),
                i < d2,
                j <= d1,
                n == i * d1 + j,
                mask@.len() == d1 * d2,
                mesh@ + greedy_mesh(blocks@, reg, d, q, mask@, i as int, j as int) == total,
                greedy_ok(blocks@, reg, d, q, mask@, i as int, j as int),
                forall|x: int| 0 <= x < n ==> !#[trigger] mask@[x],
            decreases d1 - j,
        {
            proof {
                lemma_cell_index(i as int, j as int, 0, 0, d1, d2);
            }
            if !mask[n] {
                j += 1;
                n += 1;
                continue ;
            }
            let ghost mask0 = mask@;
            let ghost mesh0 = mesh@;
            let (width, height) = GetFaceDimensions(
                &mask,
                axis1,
                axis2,
                dimensions,
                currentDimension,
                indexHolder,
                i,
                j,
                n,
                blocks,
            );
            proof {
                lemma_face_width_grows(mask0, blocks@, d, q, i as int, j as int, 1);
                lemma_face_height_grows(mask0, blocks@, d, q, i as int, j as int, width as int, 1);
                lemma_point_of_facts(d, q, j as int, i as int);
            }
            ConstructFace(
                blocks,
                mesh,
                *indexHolder,
                currentDimension,
                dimensions,
                blockRegistry,
                width,
                height,
                axis1,
                axis2,
            );
            let mut l: usize = 0;
            while l < height
                invariant
                    d1 > 0,
                    mask@.len() == d1 * d2,
                    mask0.len() == d1 * d2,
                    i + height <= d2,
                    j + width <= d1,
                    n == i * d1 + j,
                    l <= height,
                    mask@ == clear_partial(mask0, d1, i as int, j as int, width as int, l as int, 0),
                    dimensions[axis1 as int] == d1,
                    axis1 < 3,
                decreases height - l,
            {
                let mut k: usize = 0;
                while k < width
                    invariant
                        d1 > 0,
                        mask@.len() == d1 * d2,
                        mask0.len() == d1 * d2,
                        i + height <= d2,
                        j + width <= d1,
                        n == i * d1 + j,
                        l < height,
                        k <= width,
                        mask@ == clear_partial(mask0, d1, i as int, j as int, width as int, l as int, k as int),
                        dimensions[axis1 as int] == d1,
                        axis1 < 3,
                    decreases width - k,
                {
                    proof {
                        lemma_clear_step(mask0, d1, d2, i as int, j as int, width as int, l as int, k as int);
                        assert(l * d1 >= 0) by (nonlinear_arith)
                            requires
                                l >= 0,
                                d1 > 0,
                        ;
                        assert(l * dimensions[axis1 as int] == l * d1);
                        assert(n + k + l * d1 < mask0.len());
                        assert(mask0.len() == mask.len());
                    }
                    mask[n + k + l * dimensions[axis1]] = false;
                    k += 1;
                }
                assert(clear_partial(mask0, d1, i as int, j as int, width as int, l as int, width as int)
                    =~= clear_partial(mask0, d1, i as int, j as int, width as int, l + 1, 0));
                l += 1;
            }
            assert(mask@ =~= clear_rect(mask0, d1, i as int, j as int, width as int, height as int));
            proof {
                assert forall|x: int| 0 <= x < n + width implies !#[trigger] mask@[x] by {
                    if x >= n {
                        lemma_row_major(x, d1, i as int, x - i * d1);
                    }
                }
                assert(mesh@ + greedy_mesh(blocks@, reg, d, q, mask@, i as int, j + width) =~= total);
            }
            j += width;
            n += width;
        }
        assert(greedy_mesh(blocks@, reg, d, q, mask@, i as int, j as int) == greedy_mesh(
            blocks@,
            reg,
            d,
            q,
            mask@,
            i + 1,
            0,
        ));
        i += 1;
    }
    assert(mesh@ =~= total);
}

proof fn lemma_sweep_ok_prefix(
    blocks: Seq<Block>,
    adj: Seq<Option<Seq<Block>>>,
    reg: Map<u8, Option<TextureData>>,
    d: int,
    k: int,
    m: int,
)
    requires
        sweep_ok(blocks, adj, reg, d, k),
        0 <= m <= k,
    ensures
        sweep_ok(blocks, adj, reg, d, m),
    decreases k,
{
    if m < k {
        lemma_sweep_ok_prefix(blocks, adj, reg, d, k - 1, m);
    }
}

/// Appends to the chunk's mesh the quads of every face perpendicular to
/// axis `currentDimension`, plane by plane, merging neighbouring faces of the
/// same block into larger quads.
pub fn SweepVolume<S>(
    chunk: &mut Chunk<S>,
    dimensions: &[usize; 3],
    currentDimension: usize,
    adjacencyChunks: &[Option<Arc<Chunk<S>>>; 4],
    blockRegistry: &BlockTextureRegistry,
)
    requires
        chunk_dims(*dimensions),
        currentDimension < 3,
        old(chunk).Blocks@.len() == 13500,
        adj_ok(adj_blocks(*adjacencyChunks)),
        textures_fit(blockRegistry@),
        sweep_ok(
            old(chunk).Blocks@,
            adj_blocks(*adjacencyChunks),
            blockRegistry@,
            currentDimension as int,
            dim(currentDimension as int) + 1,
        ),
    ensures
        final(chunk).Mesh@ == old(chunk).Mesh@ + sweep_mesh(
            old(chunk).Blocks@,
            adj_blocks(*adjacencyChunks),
            blockRegistry@,
            currentDimension as int,
            dim(currentDimension as int) + 1,
        ),
        final(chunk).Blocks == old(chunk).Blocks,
        final(chunk).DynamicState == old(chunk).DynamicState,
        final(chunk).StaticState == old(chunk).StaticState,
        final(chunk).Position == old(chunk).Position,
        final(chunk).Biome == old(chunk).Biome,
{
    let ghost d = currentDimension as int;
    let ghost adj = adj_blocks(*adjacencyChunks);
    let ghost reg = blockRegistry@;
    let ghost blocks = chunk.Blocks@;
    let ghost mesh0 = chunk.Mesh@;
    let axis1 = (currentDimension + 1) % 3;
    let axis2 = (currentDimension + 2) % 3;
    proof {
        lemma_point_of_facts(d, 0, 0, 0);
    }
    let mut mask = vec![false; dimensions[axis1] * dimensions[axis2]];
    let mut indexHolder: [i32; 3] = [0; 3];
    let mut normalVector: [i32; 3] = [0; 3];
    normalVector[currentDimension] = 1;
    assert(pt(normalVector) =~= seq![0int, 0int, 0int].update(d, 1));
    indexHolder[currentDimension] = -1;
    while indexHolder[currentDimension] < dimensions[currentDimension] as i32
        invariant
            chunk_dims(*dimensions),
            0 <= d < 3,
            d == currentDimension as int,
            axis1 == first_axis(d),
            axis2 == second_axis(d),
            adj == adj_blocks(*adjacencyChunks),
            adj_ok(adj),
            reg == blockRegistry@,
            textures_fit(reg),
            chunk.Blocks@ == blocks,
            blocks.len() == 13500,
            pt(normalVector) == seq![0int, 0int, 0int].update(d, 1),
            -1 <= indexHolder[d] <= dim(d),
            sweep_ok(blocks, adj, reg, d, dim(d) + 1),
            chunk.Mesh@ == mesh0 + sweep_mesh(blocks, adj, reg, d, indexHolder[d] + 1),
            mask@.len() == dim(first_axis(d)) * dim(second_axis(d)),
            forall|x: int| 0 <= x < mask@.len() ==> !#[trigger] mask@[x],
            chunk.Blocks == old(chunk).Blocks,
            chunk.DynamicState == old(chunk).DynamicState,
            chunk.StaticState == old(chunk).StaticState,
            chunk.Position == old(chunk).Position,
            chunk.Biome == old(chunk).Biome,
        decreases dim(d) - indexHolder[d],
    {
        let ghost t = indexHolder[d] as int;
        SweepPlane(
            &chunk.Blocks,
            &mut mask,
            axis1,
            axis2,
            dimensions,
            currentDimension,
            &mut indexHolder,
            &normalVector,
            adjacencyChunks,
        );
        indexHolder[currentDimension] += 1;
        proof {
            lemma_sweep_ok_prefix(blocks, adj, reg, d, dim(d) + 1, t + 2);
        }
        let ghost meshBefore = chunk.Mesh@;
        ConstructMeshFromMask(
            &chunk.Blocks,
            &mut chunk.Mesh,
            &mut mask,
            axis1,
            axis2,
            dimensions,
            currentDimension,
            &mut indexHolder,
            blockRegistry,
        );
        assert(chunk.Mesh@ =~= mesh0 + sweep_mesh(blocks, adj, reg, d, t + 2));
    }
}

/// Every block of the chunk is registered and its top layer is air: then
/// every quad of every plane can be built (see `lemma_meshable_sweep_ok`).
pub open spec fn meshable(blocks: Seq<Block>, reg: Map<u8, Option<TextureData>>) -> bool {
    &&& blocks.len() == 13500
    &&& forall|x: int| 0 <= x < 13500 ==> reg.contains_key(#[trigger] blocks[x].ID)
    &&& forall|x: int, z: int|
        0 <= x < 15 && 0 <= z < 15 ==> (#[trigger] blocks[index_of(x, 59, z)]).ID == 0
}

proof fn lemma_get_block_in_chunk(blocks: Seq<Block>, p: Seq<int>, d: int)
    requires
        blocks.len() == 13500,
        plane_point(p, d, 0, dim(d)),
    ensures
        exists|x: int| 0 <= x < 13500 && get_block(blocks, p, d) == blocks[x],
{
    let p1 = back_point(p, d);
    lemma_plane_point_in_chunk(p1, d);
    let b = blocks[idx3(p1)];
    if b.ID == 0 && p1[d] < dim(d) - 1 {
        lemma_plane_point_in_chunk(p1.update(d, p1[d] + 1), d);
        assert(get_block(blocks, p, d) == blocks[idx3(p1.update(d, p1[d] + 1))]);
    } else {
        assert(get_block(blocks, p, d) == blocks[idx3(p1)]);
    }
}

proof fn lemma_meshable_face_ok(
    blocks: Seq<Block>,
    adj: Seq<Option<Seq<Block>>>,
    reg: Map<u8, Option<TextureData>>,
    d: int,
    t: int,
    c1: int,
    c2: int,
)
    requires
        meshable(blocks, reg),
        0 <= d < 3,
        -1 <= t < dim(d),
        0 <= c1 < dim(first_axis(d)),
        0 <= c2 < dim(second_axis(d)),
        face_cell(blocks, adj, d, t, c1, c2),
    ensures
        face_ok(blocks, reg, d, t + 1, c2, c1),
{
    let q = t + 1;
    lemma_point_of_facts(d, q, c1, c2);
    let ih = point_of(d, q, c1, c2);
    lemma_get_block_in_chunk(blocks, ih, d);
    let x = choose|x: int| 0 <= x < 13500 && get_block(blocks, ih, d) == blocks[x];
    assert(reg.contains_key(blocks[x].ID));
    if q == dim(d) {
        // a face on the far side of the chunk: the block in front of it is not on the top layer
        let cur = point_of(d, t, c1, c2);
        lemma_point_of_facts(d, t, c1, c2);
        lemma_plane_point_in_chunk(cur, d);
        let far = ih.update(d, dim(d));
        if d == 0 {
            assert(cur =~= seq![14int, c1, c2]);
            if c1 == 59 {
                assert(blocks[index_of(14, 59, c2)].ID == 0);
            }
            assert(far =~= seq![15int, c1, c2]);
            assert(0 <= c2 + c1 * 15 <= 14 + 58 * 15) by (nonlinear_arith)
                requires
                    0 <= c1 < 59,
                    0 <= c2 < 15,
            ;
        } else if d == 2 {
            assert(cur =~= seq![c1, c2, 14int]);
            if c2 == 59 {
                assert(blocks[index_of(c1, 59, 14)].ID == 0);
            }
            assert(far =~= seq![c1, c2, 15int]);
            assert(0 <= 15 + c2 * 15 <= 15 + 58 * 15) by (nonlinear_arith)
                requires
                    0 <= c2 < 59,
            ;
        }
    }
}

proof fn lemma_meshable_greedy_ok(
    blocks: Seq<Block>,
    adj: Seq<Option<Seq<Block>>>,
    reg: Map<u8, Option<TextureData>>,
    d: int,
    t: int,
    mask: Seq<bool>,
    i: int,
    j: int,
)
    requires
        meshable(blocks, reg),
        0 <= d < 3,
        -1 <= t < dim(d),
        0 <= i,
        0 <= j,
        mask.len() == plane_mask(blocks, adj, d, t).len(),
        forall|x: int| 0 <= x < mask.len() && #[trigger] mask[x] ==> plane_mask(blocks, adj, d, t)[x],
    ensures
        greedy_ok(blocks, reg, d, t + 1, mask, i, j),
    decreases dim(second_axis(d)) - i, dim(first_axis(d)) - j,
{
    let d1 = dim(first_axis(d));
    let d2 = dim(second_axis(d));
    let q = t + 1;
    if !(0 <= i < d2) || j < 0 {
    } else if j >= d1 {
        lemma_meshable_greedy_ok(blocks, adj, reg, d, t, mask, i + 1, 0);
    } else {
        lemma_cell_index(i, j, 0, 0, d1, d2);
        if !mask[i * d1 + j] {
            lemma_meshable_greedy_ok(blocks, adj, reg, d, t, mask, i, j + 1);
        } else {
            let w = face_width(mask, blocks, d, q, i, j, 1);
            let h = face_height(mask, blocks, d, q, i, j, w, 1);
            lemma_face_width_grows(mask, blocks, d, q, i, j, 1);
            lemma_row_major(i * d1 + j, d1, i, j);
            assert(plane_mask(blocks, adj, d, t)[i * d1 + j]);
            lemma_meshable_face_ok(blocks, adj, reg, d, t, j, i);
            let cleared = clear_rect(mask, d1, i, j, w, h);
            lemma_meshable_greedy_ok(blocks, adj, reg, d, t, cleared, i, j + w);
        }
    }
}

/// Blocks that pass `meshable` can be meshed along every axis.
pub proof fn lemma_meshable_sweep_ok(
    blocks: Seq<Block>,
    adj: Seq<Option<Seq<Block>>>,
    reg: Map<u8, Option<TextureData>>,
    d: int,
    k: int,
)
    requires
        meshable(blocks, reg),
        0 <= d < 3,
        k <= dim(d) + 1,
    ensures
        sweep_ok(blocks, adj, reg, d, k),
    decreases k,
{
    if k > 0 {
        lemma_meshable_sweep_ok(blocks, adj, reg, d, k - 1);
        lemma_meshable_greedy_ok(blocks, adj, reg, d, k - 2, plane_mask(blocks, adj, d, k - 2), 0, 0);
    }
}

/// Checks `meshable`: every block of `blocks` is registered and the top layer is air.
pub fn IsMeshable(blocks: &Vec<Block>, blockRegistry: &BlockTextureRegistry) -> (r: bool)
    ensures
        r == meshable(blocks@, blockRegistry@),
{
    if blocks.len() != 13500 {
        return false;
    }
    let mut x: usize = 0;
    while x < 13500
        invariant
            blocks@.len() == 13500,
            x <= 13500,
            forall|y: int| 0 <= y < x ==> blockRegistry@.contains_key(#[trigger] blocks@[y].ID),
        decreases 13500 - x,
    {
        if !blockRegistry.IsRegistered(blocks[x].ID) {
            return false;
        }
        x += 1;
    }
    let mut a: u32 = 0;
    while a < 15
        invariant
            blocks@.len() == 13500,
            a <= 15,
            forall|xx: int, z: int|
                0 <= xx < a && 0 <= z < 15 ==> (#[trigger] blocks@[index_of(xx, 59, z)]).ID == 0,
        decreases 15 - a,
    {
        let mut c: u32 = 0;
        while c < 15
            invariant
                blocks@.len() == 13500,
                a < 15,
                c <= 15,
                forall|xx: int, z: int|
                    0 <= xx < a && 0 <= z < 15 ==> (#[trigger] blocks@[index_of(xx, 59, z)]).ID == 0,
                forall|z: int| 0 <= z < c ==> (#[trigger] blocks@[index_of(a as int, 59, z)]).ID == 0,
            decreases 15 - c,
        {
            proof {
                crate::world::chunk::lemma_index_of_in_chunk(a as int, 59, c as int);
            }
            if blocks[crate::world::chunk::To1D((a, 59, c)) as usize].ID != 0 {
                return false;
            }
            c += 1;
        }
        a += 1;
    }
    true
}

/// Whether vertex `v` carries texture `tex`, corner id `vid` and face id
/// `fid`, wherever it stands and whatever the quad's size.
pub open spec fn drawn_with(v: Vertex, tex: int, vid: int, fid: int) -> bool {
    exists|p: Seq<int>, vw: int, vh: int| v == #[trigger] vertex(p, tex, vid, fid, vw, vh)
}

/// Each quad is drawn with the texture of the face it shows: every one of
/// its four vertices carries the block's texture id plus the block's offset
/// for the quad's face, and that face is one of the two faces of the quad's
/// axis (`2 * d`, or `2 * d + 1` where the same block lies on both sides).
/// So a top face and a side face of one block are drawn with that block's
/// top and side textures.
pub proof fn law_quad_texture_is_its_face_texture(
    blocks: Seq<Block>,
    reg: Map<u8, Option<TextureData>>,
    d: int,
    q: int,
    i: int,
    j: int,
    w: int,
    h: int,
    data: crate::world::block::TextureSix,
)
    requires
        0 <= d < 3,
        reg[get_block(blocks, point_of(d, q, j, i), d).ID] == Some(TextureData::SixSided(data)),
    ensures
        2 * d <= face_id(blocks, d, q, i, j) <= 2 * d + 1,
        face_vertices(blocks, reg, d, q, i, j, w, h).len() == 4,
        forall|k: int|
            0 <= k < 4 ==> drawn_with(
                #[trigger] face_vertices(blocks, reg, d, q, i, j, w, h)[k],
                (data.TextureID as i32) as int + (data.Offsets[face_id(blocks, d, q, i, j)] as i32) as int,
                3 - k,
                face_id(blocks, d, q, i, j),
            ),
{
    let f = face_id(blocks, d, q, i, j);
    let tex = (data.TextureID as i32) as int + (data.Offsets[f] as i32) as int;
    let ih = point_of(d, q, j, i);
    let qw0 = seq![0int, 0int, 0int].update(first_axis(d), w);
    let qh0 = seq![0int, 0int, 0int].update(second_axis(d), h);
    let qw = if d == 0 { qh0 } else { qw0 };
    let qh = if d == 0 { qw0 } else { qh0 };
    let vw = if d == 0 { h } else { w };
    let vh = if d == 0 { w } else { h };
    let v = face_vertices(blocks, reg, d, q, i, j, w, h);
    assert(face_texture(reg, get_block(blocks, ih, d), f) == tex);
    assert(v[0] == vertex(ih, tex, 3, f, vw, vh));
    assert(v[1] == vertex(add3(ih, qw), tex, 2, f, vw, vh));
    assert(v[2] == vertex(add3(ih, qh), tex, 1, f, vw, vh));
    assert(v[3] == vertex(add3(add3(ih, qw), qh), tex, 0, f, vw, vh));
    assert forall|k: int| 0 <= k < 4 implies drawn_with(#[trigger] v[k], tex, 3 - k, f) by {
        if k == 0 {
            assert(drawn_with(v[0], tex, 3, f));
        } else if k == 1 {
            assert(drawn_with(v[1], tex, 2, f));
        } else if k == 2 {
            assert(drawn_with(v[2], tex, 1, f));
        } else {
            assert(drawn_with(v[3], tex, 0, f));
        }
    }
}

} // verus!
