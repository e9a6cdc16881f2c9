use vstd::prelude::*;
use crate::renderer::worldRenderer::Vertex;
use crate::world::block::{Block, TextureData};
use super::greedyMeshHelper::{
    dim, first_axis, second_axis, point_of, get_block, face_width, face_height, row_full, clear_rect,
    face_vertices, greedy_mesh, plane_mask, face_cell, lemma_face_width_grows, lemma_face_height_grows,
    lemma_row_major,
};

verus! {

/// Whether rectangle `rect` (first row, first column, width, height) covers
/// the cell at row `r`, column `c`.
pub open spec fn covers(rect: (int, int, int, int), r: int, c: int) -> bool {
    rect.0 <= r < rect.0 + rect.3 && rect.1 <= c < rect.1 + rect.2
}

/// The rectangles of the quads that the greedy scan of `mask` emits from row
/// `i`, column `j` on, in the order it emits them.
pub open spec fn greedy_rects(
    blocks: Seq<Block>,
    d: int,
    q: int,
    mask: Seq<bool>,
    i: int,
    j: int,
) -> Seq<(int, int, int, int)>
    decreases dim(second_axis(d)) - i, dim(first_axis(d)) - j,
{
    let d1 = dim(first_axis(d));
    let d2 = dim(second_axis(d));
    if !(0 <= i < d2) || j < 0 {
        Seq::empty()
    } else if j >= d1 {
        greedy_rects(blocks, d, q, mask, i + 1, 0)
    } else if !mask[i * d1 + j] {
        greedy_rects(blocks, d, q, mask, i, j + 1)
    } else {
        let w = face_width(mask, blocks, d, q, i, j, 1);
        let h = face_height(mask, blocks, d, q, i, j, w, 1);
        proof {
            lemma_face_width_grows(mask, blocks, d, q, i, j, 1);
        }
        seq![(i, j, w, h)] + greedy_rects(blocks, d, q, clear_rect(mask, d1, i, j, w, h), i, j + w)
    }
}

/// The vertices of the quads of rectangles `rects`, one quad after another.
pub open spec fn rect_vertices(
    blocks: Seq<Block>,
    reg: Map<u8, Option<TextureData>>,
    d: int,
    q: int,
    rects: Seq<(int, int, int, int)>,
) -> Seq<Vertex>
    decreases rects.len(),
{
    if rects.len() == 0 {
        Seq::empty()
    } else {
        face_vertices(blocks, reg, d, q, rects[0].0, rects[0].1, rects[0].2, rects[0].3) + rect_vertices(
            blocks,
            reg,
            d,
            q,
            rects.drop_first(),
        )
    }
}

/// Whether the cell at row `r`, column `c` lies in the plane along `d`.
pub open spec fn in_plane(d: int, r: int, c: int) -> bool {
    0 <= r < dim(second_axis(d)) && 0 <= c < dim(first_axis(d))
}

/// The cell of `mask` at row `r`, column `c` of a plane along `d`.
pub open spec fn cell(mask: Seq<bool>, d: int, r: int, c: int) -> bool {
    mask[r * dim(first_axis(d)) + c]
}

/// Whether the scan has passed every set cell before row `i`, column `j`.
pub open spec fn scanned_clear(mask: Seq<bool>, d: int, i: int, j: int) -> bool {
    forall|r: int, c: int| in_plane(d, r, c) && (r < i || (r == i && c < j)) ==> !#[trigger] cell(mask, d, r, c)
}

proof fn lemma_cell_index(d: int, r: int, c: int)
    requires
        0 <= d < 3,
        in_plane(d, r, c),
    ensures
        0 <= r * dim(first_axis(d)) + c < dim(first_axis(d)) * dim(second_axis(d)),
        (r * dim(first_axis(d)) + c) / dim(first_axis(d)) == r,
        (r * dim(first_axis(d)) + c) % dim(first_axis(d)) == c,
{
    let d1 = dim(first_axis(d));
    let d2 = dim(second_axis(d));
    lemma_row_major(r * d1 + c, d1, r, c);
    assert(0 <= r * d1 + c < d1 * d2) by (nonlinear_arith)
        requires
            0 <= r < d2,
            0 <= c < d1,
            d1 > 0,
    ;
}

proof fn lemma_axes(d: int)
    requires
        0 <= d < 3,
    ensures
        dim(first_axis(d)) == 15 || dim(first_axis(d)) == 60,
        dim(second_axis(d)) == 15 || dim(second_axis(d)) == 60,
{
}

/// The cells that `face_width` grows over are set and show the corner's block.
proof fn lemma_width_cells(mask: Seq<bool>, blocks: Seq<Block>, d: int, q: int, i: int, j: int, w: int)
    requires
        0 <= d < 3,
        1 <= w,
        0 <= j,
        j + w <= dim(first_axis(d)),
        forall|k: int| 0 <= k < w ==> #[trigger] mask[i * dim(first_axis(d)) + j + k] && get_block(
            blocks,
            point_of(d, q, j + k, i),
            d,
        ) == get_block(blocks, point_of(d, q, j, i), d),
    ensures
        forall|k: int| 0 <= k < face_width(mask, blocks, d, q, i, j, w) ==> #[trigger] mask[i * dim(first_axis(d)) + j + k]
            && get_block(blocks, point_of(d, q, j + k, i), d) == get_block(blocks, point_of(d, q, j, i), d),
    decreases dim(first_axis(d)) - j - w,
{
    let d1 = dim(first_axis(d));
    let n = i * d1 + j;
    let cb = get_block(blocks, point_of(d, q, j, i), d);
    if w >= 1 && j + w < d1 && mask[n + w] && get_block(blocks, point_of(d, q, j + w, i), d) == cb {
        assert forall|k: int| 0 <= k < w + 1 implies #[trigger] mask[i * d1 + j + k] && get_block(
            blocks,
            point_of(d, q, j + k, i),
            d,
        ) == cb by {
            if k == w {
                assert(i * d1 + j + k == n + w);
            }
        }
        lemma_width_cells(mask, blocks, d, q, i, j, w + 1);
    }
}

/// The rows that `face_height` grows over are full.
proof fn lemma_height_rows(mask: Seq<bool>, blocks: Seq<Block>, d: int, q: int, i: int, j: int, w: int, h: int)
    requires
        1 <= h,
        forall|g: int| 1 <= g < h ==> #[trigger] row_full(mask, blocks, d, q, i, j, w, g),
    ensures
        forall|g: int| 1 <= g < face_height(mask, blocks, d, q, i, j, w, h) ==> #[trigger] row_full(
            mask,
            blocks,
            d,
            q,
            i,
            j,
            w,
            g,
        ),
    decreases dim(second_axis(d)) - i - h,
{
    if h >= 1 && i + h < dim(second_axis(d)) && row_full(mask, blocks, d, q, i, j, w, h) {
        lemma_height_rows(mask, blocks, d, q, i, j, w, h + 1);
    }
}

/// Every cell of the rectangle that the scan emits at a set cell (`i`, `j`)
/// is set and shows the corner's block, and the rectangle lies in the plane.
proof fn lemma_rect_cells(mask: Seq<bool>, blocks: Seq<Block>, d: int, q: int, i: int, j: int)
    requires
        0 <= d < 3,
        in_plane(d, i, j),
        mask.len() == dim(first_axis(d)) * dim(second_axis(d)),
        cell(mask, d, i, j),
    ensures
        ({
            let w = face_width(mask, blocks, d, q, i, j, 1);
            let h = face_height(mask, blocks, d, q, i, j, w, 1);
            &&& 1 <= w && j + w <= dim(first_axis(d))
            &&& 1 <= h && i + h <= dim(second_axis(d))
            &&& forall|r: int, c: int| covers((i, j, w, h), r, c) ==> #[trigger] cell(mask, d, r, c)
                && get_block(blocks, point_of(d, q, c, r), d) == get_block(blocks, point_of(d, q, j, i), d)
        }),
{
    let d1 = dim(first_axis(d));
    lemma_axes(d);
    lemma_face_width_grows(mask, blocks, d, q, i, j, 1);
    assert forall|k: int| 0 <= k < 1 implies #[trigger] mask[i * d1 + j + k] && get_block(
        blocks,
        point_of(d, q, j + k, i),
        d,
    ) == get_block(blocks, point_of(d, q, j, i), d) by {
        assert(k == 0);
        assert(i * d1 + j + k == i * d1 + j);
    }
    lemma_width_cells(mask, blocks, d, q, i, j, 1);
    let w = face_width(mask, blocks, d, q, i, j, 1);
    lemma_face_height_grows(mask, blocks, d, q, i, j, w, 1);
    lemma_height_rows(mask, blocks, d, q, i, j, w, 1);
    let h = face_height(mask, blocks, d, q, i, j, w, 1);
    let cb = get_block(blocks, point_of(d, q, j, i), d);
    assert forall|r: int, c: int| covers((i, j, w, h), r, c) implies #[trigger] cell(mask, d, r, c)
        && get_block(blocks, point_of(d, q, c, r), d) == cb by {
        let g = r - i;
        let k = c - j;
        if g == 0 {
            assert(mask[i * d1 + j + k]);
            assert(r * d1 + c == i * d1 + j + k);
        } else {
            assert(row_full(mask, blocks, d, q, i, j, w, g));
            assert(mask[i * d1 + j + k + g * d1]);
            assert(r * d1 + c == i * d1 + j + k + g * d1) by (nonlinear_arith)
                requires
                    r == i + g,
                    c == j + k,
            ;
        }
    }
}

/// Clearing a rectangle clears exactly its cells.
proof fn lemma_clear_cell(mask: Seq<bool>, d: int, rect: (int, int, int, int), r: int, c: int)
    requires
        0 <= d < 3,
        in_plane(d, r, c),
        mask.len() == dim(first_axis(d)) * dim(second_axis(d)),
    ensures
        cell(clear_rect(mask, dim(first_axis(d)), rect.0, rect.1, rect.2, rect.3), d, r, c) == (cell(mask, d, r, c)
            && !covers(rect, r, c)),
{
    lemma_cell_index(d, r, c);
}

/// The greedy scan from (`i`, `j`), with every set cell before it already
/// covered, emits rectangles that lie in the plane, cover exactly the set
/// cells, never overlap and each show one block.
proof fn lemma_greedy_tiles(blocks: Seq<Block>, d: int, q: int, mask: Seq<bool>, i: int, j: int)
    requires
        0 <= d < 3,
        0 <= i,
        0 <= j <= dim(first_axis(d)),
        mask.len() == dim(first_axis(d)) * dim(second_axis(d)),
        scanned_clear(mask, d, i, j),
    ensures
        ({
            let rects = greedy_rects(blocks, d, q, mask, i, j);
            &&& forall|k: int, r: int, c: int| 0 <= k < rects.len() && #[trigger] covers(rects[k], r, c)
                ==> in_plane(d, r, c) && cell(mask, d, r, c)
                && get_block(blocks, point_of(d, q, c, r), d) == get_block(blocks, point_of(d, q, rects[k].1, rects[k].0), d)
            &&& forall|r: int, c: int| in_plane(d, r, c) && #[trigger] cell(mask, d, r, c)
                ==> exists|k: int| 0 <= k < rects.len() && #[trigger] covers(rects[k], r, c)
            &&& forall|k1: int, k2: int, r: int, c: int| 0 <= k1 < k2 < rects.len() ==> !(#[trigger] covers(rects[k1], r, c)
                && #[trigger] covers(rects[k2], r, c))
        }),
    decreases dim(second_axis(d)) - i, dim(first_axis(d)) - j,
{
    let d1 = dim(first_axis(d));
    let d2 = dim(second_axis(d));
    lemma_axes(d);
    let rects = greedy_rects(blocks, d, q, mask, i, j);
    if !(0 <= i < d2) {
        assert forall|r: int, c: int| in_plane(d, r, c) implies !#[trigger] cell(mask, d, r, c) by {
            assert(r < i);
        }
        assert(rects.len() == 0);
    } else if j >= d1 {
        assert(scanned_clear(mask, d, i + 1, 0)) by {
            assert forall|r: int, c: int| in_plane(d, r, c) && (r < i + 1 || (r == i + 1 && c < 0)) implies !#[trigger] cell(
                mask,
                d,
                r,
                c,
            ) by {
                assert(r < i || (r == i && c < j));
            }
        }
        lemma_greedy_tiles(blocks, d, q, mask, i + 1, 0);
        assert(rects == greedy_rects(blocks, d, q, mask, i + 1, 0));
    } else if !mask[i * d1 + j] {
        assert(scanned_clear(mask, d, i, j + 1)) by {
            assert forall|r: int, c: int| in_plane(d, r, c) && (r < i || (r == i && c < j + 1)) implies !#[trigger] cell(
                mask,
                d,
                r,
                c,
            ) by {
                if r == i && c == j {
                    assert(cell(mask, d, r, c) == mask[i * d1 + j]);
                }
            }
        }
        lemma_greedy_tiles(blocks, d, q, mask, i, j + 1);
        assert(rects == greedy_rects(blocks, d, q, mask, i, j + 1));
    } else {
        lemma_rect_cells(mask, blocks, d, q, i, j);
        let w = face_width(mask, blocks, d, q, i, j, 1);
        let h = face_height(mask, blocks, d, q, i, j, w, 1);
        let rect0 = (i, j, w, h);
        let cleared = clear_rect(mask, d1, i, j, w, h);
        assert(cleared.len() == mask.len());
        assert(scanned_clear(cleared, d, i, j + w)) by {
            assert forall|r: int, c: int| in_plane(d, r, c) && (r < i || (r == i && c < j + w)) implies !#[trigger] cell(
                cleared,
                d,
                r,
                c,
            ) by {
                lemma_clear_cell(mask, d, rect0, r, c);
            }
        }
        lemma_greedy_tiles(blocks, d, q, cleared, i, j + w);
        let rest = greedy_rects(blocks, d, q, cleared, i, j + w);
        assert(rects == seq![rect0] + rest);
        assert forall|k: int, r: int, c: int| 0 <= k < rects.len() && #[trigger] covers(rects[k], r, c) implies in_plane(d, r, c)
            && cell(mask, d, r, c) && get_block(blocks, point_of(d, q, c, r), d) == get_block(
            blocks,
            point_of(d, q, rects[k].1, rects[k].0),
            d,
        ) by {
            if k == 0 {
                assert(rects[0] == rect0);
                assert(1 <= w && j + w <= d1 && 1 <= h && i + h <= d2);
                assert(in_plane(d, r, c));
            } else {
                assert(rects[k] == rest[k - 1]);
                assert(covers(rest[k - 1], r, c));
                lemma_clear_cell(mask, d, rect0, r, c);
            }
        }
        assert forall|r: int, c: int| in_plane(d, r, c) && #[trigger] cell(mask, d, r, c) implies exists|k: int|
            0 <= k < rects.len() && #[trigger] covers(rects[k], r, c) by {
            lemma_clear_cell(mask, d, rect0, r, c);
            if covers(rect0, r, c) {
                assert(rects[0] == rect0);
                assert(covers(rects[0], r, c));
            } else {
                assert(cell(cleared, d, r, c));
                let k = choose|k: int| 0 <= k < rest.len() && #[trigger] covers(rest[k], r, c);
                assert(rects[k + 1] == rest[k]);
                assert(covers(rects[k + 1], r, c));
            }
        }
        assert forall|k1: int, k2: int, r: int, c: int| 0 <= k1 < k2 < rects.len() implies !(#[trigger] covers(
            rects[k1],
            r,
            c,
        ) && #[trigger] covers(rects[k2], r, c)) by {
            assert(rects[k2] == rest[k2 - 1]);
            if k1 == 0 {
                assert(rects[0] == rect0);
                if covers(rect0, r, c) && covers(rest[k2 - 1], r, c) {
                    assert(in_plane(d, r, c) && cell(cleared, d, r, c));
                    lemma_clear_cell(mask, d, rect0, r, c);
                }
            } else {
                assert(rects[k1] == rest[k1 - 1]);
                if covers(rest[k1 - 1], r, c) && covers(rest[k2 - 1], r, c) {
                    assert(!(covers(rest[k1 - 1], r, c) && covers(rest[k2 - 1], r, c)));
                }
            }
        }
    }
}

/// The vertices the greedy scan emits are those of the quads of its
/// rectangles, in order.
proof fn lemma_greedy_mesh_rects(
    blocks: Seq<Block>,
    reg: Map<u8, Option<TextureData>>,
    d: int,
    q: int,
    mask: Seq<bool>,
    i: int,
    j: int,
)
    ensures
        greedy_mesh(blocks, reg, d, q, mask, i, j) == rect_vertices(blocks, reg, d, q, greedy_rects(blocks, d, q, mask, i, j)),
    decreases dim(second_axis(d)) - i, dim(first_axis(d)) - j,
{
    let d1 = dim(first_axis(d));
    let d2 = dim(second_axis(d));
    if !(0 <= i < d2) || j < 0 {
    } else if j >= d1 {
        lemma_greedy_mesh_rects(blocks, reg, d, q, mask, i + 1, 0);
    } else if !mask[i * d1 + j] {
        lemma_greedy_mesh_rects(blocks, reg, d, q, mask, i, j + 1);
    } else {
        let w = face_width(mask, blocks, d, q, i, j, 1);
        let h = face_height(mask, blocks, d, q, i, j, w, 1);
        lemma_face_width_grows(mask, blocks, d, q, i, j, 1);
        let cleared = clear_rect(mask, d1, i, j, w, h);
        lemma_greedy_mesh_rects(blocks, reg, d, q, cleared, i, j + w);
        let rects = greedy_rects(blocks, d, q, mask, i, j);
        assert(rects.drop_first() =~= greedy_rects(blocks, d, q, cleared, i, j + w));
    }
}

/// Greedy meshing tiles the faces of a plane exactly. For plane `q` swept
/// along axis `d`, the mesh is the quads of a list of rectangles of the
/// plane's cells that lie in the plane, cover every cell where a face is
/// drawn and no other, never overlap, and each show one block throughout.
pub proof fn law_greedy_quads_tile_the_faces(
    blocks: Seq<Block>,
    adj: Seq<Option<Seq<Block>>>,
    reg: Map<u8, Option<TextureData>>,
    d: int,
    q: int,
)
    requires
        0 <= d < 3,
    ensures
        ({
            let mask = plane_mask(blocks, adj, d, q - 1);
            let rects = greedy_rects(blocks, d, q, mask, 0, 0);
            &&& greedy_mesh(blocks, reg, d, q, mask, 0, 0) == rect_vertices(blocks, reg, d, q, rects)
            &&& forall|k: int, r: int, c: int| 0 <= k < rects.len() && #[trigger] covers(rects[k], r, c)
                ==> in_plane(d, r, c) && face_cell(blocks, adj, d, q - 1, c, r)
                && get_block(blocks, point_of(d, q, c, r), d) == get_block(blocks, point_of(d, q, rects[k].1, rects[k].0), d)
            &&& forall|r: int, c: int| in_plane(d, r, c) && #[trigger] face_cell(blocks, adj, d, q - 1, c, r)
                ==> exists|k: int| 0 <= k < rects.len() && #[trigger] covers(rects[k], r, c)
            &&& forall|k1: int, k2: int, r: int, c: int| 0 <= k1 < k2 < rects.len() ==> !(#[trigger] covers(rects[k1], r, c)
                && #[trigger] covers(rects[k2], r, c))
        }),
{
    let mask = plane_mask(blocks, adj, d, q - 1);
    lemma_axes(d);
    assert forall|r: int, c: int| in_plane(d, r, c) implies #[trigger] cell(mask, d, r, c) == face_cell(
        blocks,
        adj,
        d,
        q - 1,
        c,
        r,
    ) by {
        lemma_cell_index(d, r, c);
    }
    assert(scanned_clear(mask, d, 0, 0));
    lemma_greedy_tiles(blocks, d, q, mask, 0, 0);
    lemma_greedy_mesh_rects(blocks, reg, d, q, mask, 0, 0);
    let rects = greedy_rects(blocks, d, q, mask, 0, 0);
    assert forall|r: int, c: int| in_plane(d, r, c) && #[trigger] face_cell(blocks, adj, d, q - 1, c, r)
        implies exists|k: int| 0 <= k < rects.len() && #[trigger] covers(rects[k], r, c) by {
        assert(cell(mask, d, r, c));
    }
}

} // verus!
