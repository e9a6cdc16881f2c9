use vstd::prelude::*;
use vstd::relations::sorted_by;
use vstd::seq_lib::lemma_sorted_unique;
use super::block::TextureData;
use super::blockRegistry::{
    BlockRegistry, EntryView, TextureView, first_appearances, names_of, pair_order,
    lemma_pair_order_total, sort_pairs, entry_view, air_name, BlockDescription, BlockReadError,
    Progress, read_all, read_order, read_keys, read_step, pair_leq, id_taken,
};
use super::itemRegistry::{ItemEntry, ItemRegistry, ItemView};

verus! {

/// Whether `dims` is the side of the smallest square grid with room for
/// `count` tiles: the ceiling of the square root of `count`.
pub open spec fn is_atlas_side(count: int, dims: int) -> bool {
    &&& 0 <= dims
    &&& count <= dims * dims
    &&& (dims == 0 || (dims - 1) * (dims - 1) < count)
}

/// The number of tiles on each side of a square atlas that holds `count`
/// textures: the ceiling of the square root of `count`.
pub fn AtlasDimension(count: u32) -> (r: u32)
    ensures
        is_atlas_side(count as int, r as int),
{
    let mut r: u64 = 0;
    while r * r < count as u64
        invariant
            r == 0 || (r - 1) * (r - 1) < count,
            r <= 0x1_0000,
            r * r <= 0x1_0000_0000,
        decreases count - r,
    {
        assert(r < count) by (nonlinear_arith)
            requires
                r * r < count,
        ;
        assert(r < 0x1_0000) by (nonlinear_arith)
            requires
                r * r < count,
                count <= u32::MAX,
        ;
        r = r + 1;
        assert(r * r <= 0x1_0000_0000) by (nonlinear_arith)
            requires
                r <= 0x1_0000,
        ;
    }
    r as u32
}

/// The pixel origin (column, row) of tile `index` in an atlas `dims` tiles
/// wide whose tiles are `res` pixels square; tiles fill the atlas row by row.
pub fn TileOrigin(index: u32, dims: u32, res: u32) -> (r: (u32, u32))
    requires
        dims > 0,
        (index % dims) * res <= u32::MAX,
        (index / dims) * res <= u32::MAX,
    ensures
        r.0 == (index % dims) * res,
        r.1 == (index / dims) * res,
{
    ((index % dims) * res, (index / dims) * res)
}

/// The layout of a square atlas of `count` tiles, each `res` pixels square:
/// its side in tiles and its side in pixels, or `None` where the side in
/// pixels does not fit in a `u32`.
pub fn AtlasLayout(count: u32, res: u32) -> (r: Option<(u32, u32)>)
    ensures
        match r {
            Some((dims, side)) => is_atlas_side(count as int, dims as int) && side == dims * res,
            None => forall|d: int| is_atlas_side(count as int, d) ==> d * res > u32::MAX,
        },
{
    let dims = AtlasDimension(count);
    assert(dims as u64 * res as u64 <= u64::MAX) by (nonlinear_arith)
        requires
            dims <= u32::MAX,
            res <= u32::MAX,
    ;
    let side: u64 = dims as u64 * res as u64;
    assert(side == dims * res) by (nonlinear_arith)
        requires
            side == (dims as u64) * (res as u64),
            dims <= u32::MAX,
            res <= u32::MAX,
    ;
    if side > u32::MAX as u64 {
        proof {
            assert forall|d: int| is_atlas_side(count as int, d) implies d * res > u32::MAX by {
                lemma_atlas_side_unique(count as int, d, dims as int);
            }
        }
        None
    } else {
        Some((dims, side as u32))
    }
}

proof fn lemma_atlas_side_unique(count: int, a: int, b: int)
    requires
        is_atlas_side(count, a),
        is_atlas_side(count, b),
    ensures
        a == b,
{
    if a < b {
        assert(a * a <= (b - 1) * (b - 1)) by (nonlinear_arith)
            requires
                0 <= a <= b - 1,
        ;
    } else if b < a {
        assert(b * b <= (a - 1) * (a - 1)) by (nonlinear_arith)
            requires
                0 <= b <= a - 1,
        ;
    }
}

/// Every tile of an atlas lies inside it: tile `k` of `count`, placed row by
/// row in a square of `dims` tiles of `res` pixels, ends within the atlas's
/// side of `dims * res` pixels, across and down.
pub proof fn law_tiles_fit_in_atlas(count: int, dims: int, res: int, k: int)
    requires
        is_atlas_side(count, dims),
        0 <= k < count,
        0 <= res,
    ensures
        (k % dims) * res + res <= dims * res,
        (k / dims) * res + res <= dims * res,
{
    assert(dims > 0) by (nonlinear_arith)
        requires
            0 <= k < count,
            count <= dims * dims,
            0 <= dims,
    ;
    assert(k / dims < dims) by (nonlinear_arith)
        requires
            0 <= k < count,
            count <= dims * dims,
            dims > 0,
    ;
    assert((k % dims) * res + res <= dims * res) by (nonlinear_arith)
        requires
            dims > 0,
            0 <= k,
            0 <= res,
    ;
    assert((k / dims) * res + res <= dims * res) by (nonlinear_arith)
        requires
            k / dims < dims,
            dims > 0,
            0 <= k,
            0 <= res,
    ;
}

/// No two tiles share a place: distinct tile indices have distinct
/// (column, row) positions, so with tiles of `res > 0` pixels their pixel
/// origins differ too.
pub proof fn law_tiles_do_not_overlap(dims: int, res: int, a: int, b: int)
    requires
        dims > 0,
        res > 0,
        0 <= a,
        0 <= b,
        a != b,
    ensures
        (a % dims) * res != (b % dims) * res || (a / dims) * res != (b / dims) * res,
{
    vstd::arithmetic::div_mod::lemma_fundamental_div_mod(a, dims);
    vstd::arithmetic::div_mod::lemma_fundamental_div_mod(b, dims);
    if (a % dims) * res == (b % dims) * res && (a / dims) * res == (b / dims) * res {
        vstd::arithmetic::mul::lemma_mul_equality_converse(res, a % dims, b % dims);
        vstd::arithmetic::mul::lemma_mul_equality_converse(res, a / dims, b / dims);
    }
}

/// The atlas tiles of a texture list, by views; `None` stands for the null
/// texture.
pub open spec fn tiles_view(s: Seq<Option<String>>) -> Seq<Option<Seq<char>>> {
    s.map_values(|t: Option<String>| match t {
        Some(x) => Some(x@),
        None => None,
    })
}

/// The tiles one block puts on the atlas: none for air (id 0); the null
/// texture for a block without texture data; its one texture for a
/// decoration; and each distinct face texture once, in face order, for a
/// six-sided block.
pub open spec fn entry_tiles(e: EntryView) -> Seq<Option<Seq<char>>> {
    if e.ID == 0 {
        Seq::empty()
    } else {
        match e.Texture {
            TextureView::Null => seq![None],
            TextureView::Single(t, _) => seq![Some(t)],
            TextureView::Six(ts, _, _) => first_appearances(ts).map_values(|t: Seq<char>| Some(t)),
        }
    }
}

/// The tiles of a sequence of blocks, one block after another.
pub open spec fn tiles_of(es: Seq<EntryView>) -> Seq<Option<Seq<char>>>
    decreases es.len(),
{
    if es.len() == 0 {
        Seq::empty()
    } else {
        tiles_of(es.drop_last()) + entry_tiles(es.last())
    }
}

/// Each block's id beside its position.
pub open spec fn entry_keys(es: Seq<EntryView>) -> Seq<(u64, usize)> {
    Seq::new(es.len(), |i: int| (es[i].ID as u64, i as usize))
}

/// The blocks in ascending order of id (in table order among equal ids).
pub open spec fn by_id(es: Seq<EntryView>) -> Seq<EntryView> {
    let order = entry_keys(es).sort_by(pair_order());
    Seq::new(es.len(), |k: int| es[order[k].1 as int])
}

/// The distinct textures among a block's six face textures, in the order
/// they first appear.
pub fn DistinctTextures(paths: &[String; 6]) -> (r: Vec<String>)
    ensures
        names_of(r@) == first_appearances(names_of(paths@)),
{
    let ghost ts = names_of(paths@);
    let mut seen: Vec<String> = Vec::new();
    let mut i: usize = 0;
    while i < 6
        invariant
            paths@.len() == 6,
            ts == names_of(paths@),
            i <= 6,
            names_of(seen@) == first_appearances(ts.take(i as int)),
        decreases 6 - i,
    {
        assert(ts.take(i + 1).drop_last() =~= ts.take(i as int));
        let mut j: usize = 0;
        let mut found = false;
        while j < seen.len()
            invariant_except_break
                !found,
            invariant
                j <= seen@.len(),
                i < 6,
                paths@.len() == 6,
                forall|k: int| 0 <= k < j ==> seen@[k]@ != paths@[i as int]@,
            ensures
                forall|k: int| 0 <= k < j ==> seen@[k]@ != paths@[i as int]@,
                found ==> j < seen@.len() && seen@[j as int]@ == paths@[i as int]@,
                !found ==> j == seen@.len(),
            decreases seen@.len() - j,
        {
            if seen[j] == paths[i] {
                found = true;
                break;
            }
            j += 1;
        }
        let ghost before = names_of(seen@);
        if found {
            assert(before[j as int] == ts[i as int]);
            assert(before.contains(ts[i as int]));
        } else {
            assert(!before.contains(ts[i as int])) by {
                if before.contains(ts[i as int]) {
                    let k = choose|k: int| 0 <= k < before.len() && before[k] == ts[i as int];
                    assert(seen@[k]@ == paths@[i as int]@);
                }
            }
            seen.push(paths[i].clone());
            assert(names_of(seen@) =~= before.push(ts[i as int]));
        }
        i += 1;
    }
    assert(ts.take(6) =~= ts);
    seen
}

/// The textures of a block atlas in the order they are laid on it: the
/// blocks are taken in ascending order of id, air is skipped, a block
/// without texture data gets the null texture (`None`), a decoration its one
/// texture, and a six-sided block each of its distinct face textures once.
pub fn BlockAtlasTiles(table: &BlockRegistry) -> (r: Vec<Option<String>>)
    ensures
        tiles_view(r@) == tiles_of(by_id(table.progress().entries)),
{
    let ghost es = table.progress().entries;
    let mut keys: Vec<(u64, usize)> = Vec::new();
    let mut i: usize = 0;
    while i < table.Entries.len()
        invariant
            i <= table.Entries@.len(),
            es == table.progress().entries,
            es.len() == table.Entries@.len(),
            keys@ == entry_keys(es).take(i as int),
        decreases table.Entries@.len() - i,
    {
        assert(es[i as int] == entry_view(table.Entries@[i as int]));
        keys.push((table.Entries[i].ID as u64, i));
        assert(keys@ =~= entry_keys(es).take(i + 1));
        i += 1;
    }
    assert(keys@ =~= entry_keys(es));
    sort_pairs(&mut keys);
    proof {
        broadcast use vstd::seq_lib::group_to_multiset_ensures;
        lemma_pair_order_total();
        entry_keys(es).lemma_sort_by_ensures(pair_order());
        assert(keys@.len() == keys@.to_multiset().len());
        lemma_sorted_unique(keys@, entry_keys(es).sort_by(pair_order()), pair_order());
        assert forall|k: int| 0 <= k < keys@.len() implies #[trigger] keys@[k].1 < es.len() by {
            assert(keys@.contains(keys@[k]));
            assert(entry_keys(es).contains(keys@[k]));
        }
    }
    let ghost sorted = by_id(es);
    let mut tiles: Vec<Option<String>> = Vec::new();
    let mut k: usize = 0;
    while k < keys.len()
        invariant
            k <= keys@.len(),
            keys@.len() == es.len(),
            es == table.progress().entries,
            es.len() == table.Entries@.len(),
            sorted == by_id(es),
            keys@ == entry_keys(es).sort_by(pair_order()),
            forall|j: int| 0 <= j < keys@.len() ==> #[trigger] keys@[j].1 < es.len(),
            tiles_view(tiles@) == tiles_of(sorted.take(k as int)),
        decreases keys@.len() - k,
    {
        let src = keys[k].1;
        let entry = &table.Entries[src];
        let ghost e = sorted[k as int];
        assert(e == entry_view(*entry));
        assert(sorted.take(k + 1).drop_last() =~= sorted.take(k as int));
        assert(sorted.take(k + 1).last() == e);
        let ghost start = tiles_view(tiles@);
        if entry.ID != 0 {
            match &entry.TextureData {
                None => {
                    tiles.push(None);
                    assert(tiles_view(tiles@) =~= start + entry_tiles(e));
                },
                Some(TextureData::Decoration(d)) => {
                    tiles.push(Some(d.Texture.clone()));
                    assert(tiles_view(tiles@) =~= start + entry_tiles(e));
                },
                Some(TextureData::SixSided(d)) => {
                    let distinct = DistinctTextures(&d.Textures);
                    let ghost u = first_appearances(names_of(d.Textures@));
                    let mut j: usize = 0;
                    while j < distinct.len()
                        invariant
                            j <= distinct@.len(),
                            names_of(distinct@) == u,
                            tiles_view(tiles@) =~= start + u.take(j as int).map_values(|t: Seq<char>| Some(t)),
                        decreases distinct@.len() - j,
                    {
                        let ghost prev = tiles@;
                        tiles.push(Some(distinct[j].clone()));
                        assert(distinct@[j as int]@ == u[j as int]);
                        assert(tiles_view(tiles@) =~= tiles_view(prev).push(Some(u[j as int])));
                        assert(u.take(j + 1).map_values(|t: Seq<char>| Some(t)) =~= u.take(j as int).map_values(
                            |t: Seq<char>| Some(t),
                        ).push(Some(u[j as int])));
                        assert(tiles_view(tiles@) =~= start + u.take(j + 1).map_values(|t: Seq<char>| Some(t)));
                        j += 1;
                    }
                    assert(u.take(j as int) =~= u);
                },
            }
        } else {
            assert(tiles_view(tiles@) =~= start + entry_tiles(e));
        }
        k += 1;
    }
    assert(sorted.take(k as int) =~= sorted);
    tiles
}

/// What the metadata file of a saved atlas records: the names registered
/// when it was made, its rows and columns of tiles, and the side of a tile
/// in pixels.
pub struct AtlasMetadata {
    pub Items: Vec<String>,
    pub Rows: u32,
    pub Cols: u32,
    pub TextureResolution: u32,
}

fn Lists(list: &Vec<String>, name: &String) -> (r: bool)
    ensures
        r == names_of(list@).contains(name@),
{
    let mut i: usize = 0;
    while i < list.len()
        invariant
            i <= list@.len(),
            forall|k: int| 0 <= k < i ==> list@[k]@ != name@,
        decreases list@.len() - i,
    {
        if list[i] == *name {
            assert(names_of(list@)[i as int] == name@);
            return true;
        }
        i += 1;
    }
    assert(!names_of(list@).contains(name@)) by {
        if names_of(list@).contains(name@) {
            let k = choose|k: int| 0 <= k < list@.len() && names_of(list@)[k] == name@;
            assert(list@[k]@ == name@);
        }
    }
    false
}

/// Whether every name of `names` is among those of `list`.
pub open spec fn all_listed(names: Seq<String>, list: Seq<String>) -> bool {
    forall|i: int| 0 <= i < names.len() ==> names_of(list).contains(#[trigger] names[i]@)
}

fn AllListed(names: &Vec<String>, list: &Vec<String>) -> (r: bool)
    ensures
        r == all_listed(names@, list@),
{
    let mut i: usize = 0;
    while i < names.len()
        invariant
            i <= names@.len(),
            forall|k: int| 0 <= k < i ==> names_of(list@).contains(#[trigger] names@[k]@),
        decreases names@.len() - i,
    {
        if !Lists(list, &names[i]) {
            return false;
        }
        i += 1;
    }
    true
}

impl AtlasMetadata {
    /// Whether a saved block atlas can be used as it is: it has `dims` rows
    /// and columns of tiles of `textureResolution` pixels, and every block
    /// name registered now (`names`) was registered when it was made.
    pub fn MatchesBlocks(&self, dims: u32, textureResolution: u32, names: &Vec<String>) -> (r: bool)
        ensures
            r == (self.Rows == dims && self.Cols == dims && self.TextureResolution == textureResolution
                && all_listed(names@, self.Items@)),
    {
        if self.Rows != dims || self.Cols != dims {
            return false;
        }
        if self.TextureResolution != textureResolution {
            return false;
        }
        AllListed(names, &self.Items)
    }

    /// Whether a saved item atlas can be used as it is: it has `dims` rows
    /// and columns of tiles of `textureResolution` pixels, and every item
    /// name it was made with is registered now (among `names`).
    pub fn MatchesItems(&self, dims: u32, textureResolution: u32, names: &Vec<String>) -> (r: bool)
        ensures
            r == (self.Rows == dims && self.Cols == dims && self.TextureResolution == textureResolution
                && all_listed(self.Items@, names@)),
    {
        if self.Rows != dims || self.Cols != dims {
            return false;
        }
        if self.TextureResolution != textureResolution {
            return false;
        }
        AllListed(&self.Items, names)
    }
}

/// The names a block registry knows: "Air", then each registered block's.
pub fn RegisteredBlockNames(table: &BlockRegistry) -> (r: Vec<String>)
    ensures
        names_of(r@) == seq![air_name()] + table.progress().entries.map_values(|e: EntryView| e.Name),
{
    let ghost es = table.progress().entries;
    let mut names: Vec<String> = Vec::new();
    let air = "Air".to_owned();
    proof {
        reveal_strlit("Air");
        assert(air@ =~= air_name());
    }
    names.push(air);
    let mut i: usize = 0;
    while i < table.Entries.len()
        invariant
            i <= table.Entries@.len(),
            es == table.progress().entries,
            es.len() == table.Entries@.len(),
            names_of(names@) =~= seq![air_name()] + es.take(i as int).map_values(|e: EntryView| e.Name),
        decreases table.Entries@.len() - i,
    {
        assert(es[i as int] == entry_view(table.Entries@[i as int]));
        let ghost prev = names@;
        names.push(table.Entries[i].Name.clone());
        assert(names_of(names@) =~= names_of(prev).push(es[i as int].Name));
        assert(es.take(i + 1).map_values(|e: EntryView| e.Name) =~= es.take(i as int).map_values(|e: EntryView| e.Name).push(
            es[i as int].Name,
        ));
        i += 1;
    }
    assert(es.take(i as int) =~= es);
    names
}

/// The names an item registry knows, one per registered item.
pub fn RegisteredItemNames(table: &ItemRegistry) -> (r: Vec<String>)
    ensures
        names_of(r@) == table.progress().entries.map_values(|e: ItemView| e.Name),
{
    let ghost es = table.progress().entries;
    let mut names: Vec<String> = Vec::new();
    let mut i: usize = 0;
    while i < table.Entries.len()
        invariant
            i <= table.Entries@.len(),
            es == table.progress().entries,
            es.len() == table.Entries@.len(),
            names_of(names@) =~= es.take(i as int).map_values(|e: ItemView| e.Name),
        decreases table.Entries@.len() - i,
    {
        assert(es[i as int] == super::itemRegistry::item_view(table.Entries@[i as int]));
        let ghost prev = names@;
        names.push(table.Entries[i].Name.clone());
        assert(names_of(names@) =~= names_of(prev).push(es[i as int].Name));
        assert(es.take(i + 1).map_values(|e: ItemView| e.Name) =~= es.take(i as int).map_values(|e: ItemView| e.Name).push(
            es[i as int].Name,
        ));
        i += 1;
    }
    assert(es.take(i as int) =~= es);
    names
}

/// Whether some item has id `i`.
pub open spec fn has_item_id(entries: Seq<ItemEntry>, i: int) -> bool {
    exists|k: int| 0 <= k < entries.len() && #[trigger] entries[k].ID == i
}

/// The textures of an item atlas in the order they are laid on it: tile `i`
/// holds the texture of the item whose id is `i`, or the null texture
/// (`None`) where that item has none. Every id below the number of items must
/// be registered; the ids are distinct, as the keys of the registry are.
pub fn ItemAtlasTiles(table: &ItemRegistry) -> (r: Vec<Option<String>>)
    requires
        forall|a: int, b: int|
            0 <= a < b < table.Entries@.len() ==> #[trigger] table.Entries@[a].ID != #[trigger] table.Entries@[b].ID,
        forall|i: int| 0 <= i < table.Entries@.len() ==> #[trigger] has_item_id(table.Entries@, i),
    ensures
        r@.len() == table.Entries@.len(),
        forall|i: int, k: int|
            0 <= i < r@.len() && 0 <= k < table.Entries@.len() && #[trigger] table.progress().entries[k].ID == i
                ==> #[trigger] tiles_view(r@)[i] == table.progress().entries[k].Texture,
{
    let ghost es = table.progress().entries;
    let n = table.Entries.len();
    let mut tiles: Vec<Option<String>> = Vec::new();
    let mut i: usize = 0;
    while i < n
        invariant
            n == table.Entries@.len(),
            es == table.progress().entries,
            es.len() == n,
            i <= n,
            tiles@.len() == i,
            forall|a: int, b: int|
                0 <= a < b < table.Entries@.len() ==> #[trigger] table.Entries@[a].ID != #[trigger] table.Entries@[b].ID,
            forall|q: int| 0 <= q < n ==> #[trigger] has_item_id(table.Entries@, q),
            forall|q: int, k: int|
                0 <= q < i && 0 <= k < n && #[trigger] es[k].ID == q ==> #[trigger] tiles_view(tiles@)[q] == es[k].Texture,
        decreases n - i,
    {
        assert(has_item_id(table.Entries@, i as int));
        let mut k: usize = 0;
        while table.Entries[k].ID as usize != i
            invariant
                k < n,
                n == table.Entries@.len(),
                i < n,
                exists|q: int| k <= q < n && #[trigger] table.Entries@[q].ID == i,
            decreases n - k,
        {
            k += 1;
        }
        let entry = &table.Entries[k];
        assert(es[k as int] == super::itemRegistry::item_view(*entry));
        let tile = match &entry.Texture {
            Some(t) => Some(t.clone()),
            None => None,
        };
        let ghost before = tiles@;
        tiles.push(tile);
        proof {
            assert forall|q: int, m: int|
                0 <= q < i + 1 && 0 <= m < n && #[trigger] es[m].ID == q implies #[trigger] tiles_view(tiles@)[q] == es[m].Texture by {
                if q < i {
                    assert(tiles@[q] == before[q]);
                    assert(tiles_view(before)[q] == es[m].Texture);
                } else {
                    assert(tiles_view(tiles@)[q] == es[k as int].Texture);
                    if m != k {
                        if m < k {
                            assert(table.Entries@[m].ID != table.Entries@[k as int].ID);
                        } else {
                            assert(table.Entries@[k as int].ID != table.Entries@[m].ID);
                        }
                    }
                }
            }
        }
        i += 1;
    }
    tiles
}

proof fn lemma_first_appearances_contains<T>(s: Seq<T>, x: T)
    requires
        s.contains(x),
    ensures
        first_appearances(s).contains(x),
    decreases s.len(),
{
    if s.last() != x {
        let k = choose|k: int| 0 <= k < s.len() && s[k] == x;
        assert(s.drop_last()[k] == x);
        lemma_first_appearances_contains(s.drop_last(), x);
    }
    let before = first_appearances(s.drop_last());
    if !before.contains(s.last()) {
        assert(before.push(s.last())[before.len() as int] == s.last());
        if s.last() != x {
            let q = choose|q: int| 0 <= q < before.len() && before[q] == x;
            assert(before.push(s.last())[q] == x);
        }
    }
}

proof fn lemma_first_appearances_len<T>(s: Seq<T>)
    ensures
        first_appearances(s).len() <= s.len(),
    decreases s.len(),
{
    if s.len() > 0 {
        lemma_first_appearances_len(s.drop_last());
    }
}

/// Whether the tiles `tiles` hold block `e`'s textures where its texture
/// data says: a decoration's texture at its texture id, and each face
/// texture of a six-sided block at its texture id plus the face's offset.
pub open spec fn placed(tiles: Seq<Option<Seq<char>>>, e: EntryView) -> bool {
    match e.Texture {
        TextureView::Null => true,
        TextureView::Single(t, id) => id < tiles.len() && tiles[id as int] == Some(t),
        TextureView::Six(ts, id, offs) => forall|f: int|
            0 <= f < ts.len() ==> id + offs[f] < tiles.len() && #[trigger] tiles[id + offs[f]] == Some(ts[f]),
    }
}

/// Whether the ids of `es` ascend strictly.
pub open spec fn ids_ascend(es: Seq<EntryView>) -> bool {
    forall|a: int, b: int| 0 <= a < b < es.len() ==> #[trigger] es[a].ID < #[trigger] es[b].ID
}

proof fn lemma_tiles_of_push(es: Seq<EntryView>, e: EntryView)
    ensures
        tiles_of(es.push(e)) == tiles_of(es) + entry_tiles(e),
{
    assert(es.push(e).drop_last() =~= es);
}

proof fn lemma_placed_grows(tiles: Seq<Option<Seq<char>>>, more: Seq<Option<Seq<char>>>, e: EntryView)
    requires
        placed(tiles, e),
    ensures
        placed(tiles + more, e),
{
    match e.Texture {
        TextureView::Six(ts, id, offs) => {
            assert forall|f: int| 0 <= f < ts.len() implies id + offs[f] < (tiles + more).len()
                && #[trigger] (tiles + more)[id + offs[f]] == Some(ts[f]) by {
                assert(tiles[id + offs[f]] == Some(ts[f]));
            }
        },
        _ => {},
    }
}

/// What the read order holds: every element is the key of the description
/// it points at, and the elements ascend.
proof fn lemma_read_order_facts(descs: Seq<BlockDescription>)
    requires
        descs.len() <= usize::MAX,
    ensures
        sorted_by(read_order(descs), pair_order()),
        read_order(descs).len() == descs.len(),
        forall|m: int| 0 <= m < read_order(descs).len() ==> {
            let x = #[trigger] read_order(descs)[m];
            &&& x.1 < descs.len()
            &&& x.0 == match descs[x.1 as int].ID { Some(v) => v, None => 0 }
        },
{
    broadcast use vstd::seq_lib::group_to_multiset_ensures;
    lemma_pair_order_total();
    read_keys(descs).lemma_sort_by_ensures(pair_order());
    let o = read_order(descs);
    assert(o.len() == o.to_multiset().len());
    assert(read_keys(descs).len() == read_keys(descs).to_multiset().len());
    assert forall|m: int| 0 <= m < o.len() implies {
        let x = #[trigger] o[m];
        &&& x.1 < descs.len()
        &&& x.0 == match descs[x.1 as int].ID { Some(v) => v, None => 0 }
    } by {
        assert(o.contains(o[m]));
        assert(read_keys(descs).contains(o[m]));
        let i = choose|i: int| 0 <= i < read_keys(descs).len() && read_keys(descs)[i] == o[m];
        assert(i as usize == i);
    }
}

/// What one step of reading does to the registered blocks: it keeps them,
/// or it adds one block, with the description's id, that was not taken,
/// whose textures start at the count so far.
pub open spec fn step_shape(p0: Progress, d: BlockDescription, p: Progress) -> bool {
    ||| p.entries == p0.entries && p.textures == p0.textures
    ||| {
        let e = p.entries.last();
        &&& p.entries == p0.entries.push(e)
        &&& d.ID is Some
        &&& e.ID == d.ID->Some_0 as u8
        &&& e.ID != 0
        &&& !id_taken(p0, e.ID)
        &&& match e.Texture {
            TextureView::Null => p.textures == p0.textures + 1,
            TextureView::Single(t, id) => id == p0.textures as u32 && p.textures == p0.textures + 1,
            TextureView::Six(ts, id, offs) => {
                &&& ts.len() <= 6
                &&& id == p0.textures as u32
                &&& offs == Seq::new(6, |f: int| first_appearances(ts).index_of(ts[f]) as u32)
                &&& p.textures == p0.textures + first_appearances(ts).len()
            },
        }
    }
}

proof fn lemma_step_shape(p0: Progress, d: BlockDescription, src: int)
    requires
        read_step(p0, d, src) is Ok,
        d.Textures matches Some(Some(paths)) ==> paths@.len() >= 6,
    ensures
        step_shape(p0, d, read_step(p0, d, src)->Ok_0),
{
    let p = read_step(p0, d, src)->Ok_0;
    if p.entries.len() != p0.entries.len() {
        match d.Textures {
            Some(Some(paths)) => {
                assert(names_of(paths@.take(6)).len() <= 6);
            },
            _ => {},
        }
    }
}

/// The facts kept while reading the descriptions one by one.
pub open spec fn read_well(p: Progress, bound: int) -> bool {
    &&& tiles_of(p.entries).len() == p.textures
    &&& ids_ascend(p.entries)
    &&& forall|k: int| 0 <= k < p.entries.len() ==> #[trigger] p.entries[k].ID <= bound
    &&& forall|k: int| 0 <= k < p.entries.len() ==> #[trigger] p.entries[k].ID != 0
    &&& forall|k: int| 0 <= k < p.entries.len() ==> placed(tiles_of(p.entries), #[trigger] p.entries[k])
}

proof fn lemma_read_prefix(descs: Seq<BlockDescription>, j: int)
    requires
        forall|i: int| 0 <= i < descs.len() ==> (#[trigger] descs[i].ID matches Some(raw) ==> raw < 256),
        forall|i: int| 0 <= i < descs.len() ==> (#[trigger] descs[i].Textures matches Some(Some(paths)) ==> paths@.len() >= 6),
        descs.len() * 6 < u32::MAX,
        0 <= j <= descs.len(),
        read_all(descs, read_order(descs).take(j)) is Ok,
    ensures
        ({
            let p = read_all(descs, read_order(descs).take(j))->Ok_0;
            &&& read_well(p, if j == 0 { 0 } else { read_order(descs)[j - 1].0 as int })
            &&& p.textures <= 6 * j
            &&& p.entries.len() <= j
        }),
    decreases j,
{
    let o = read_order(descs);
    lemma_read_order_facts(descs);
    if j == 0 {
        assert(o.take(0) =~= Seq::<(u64, usize)>::empty());
    } else {
        assert(o.take(j).drop_last() =~= o.take(j - 1));
        assert(o.take(j).last() == o[j - 1]);
        lemma_read_prefix(descs, j - 1);
        let p0 = read_all(descs, o.take(j - 1))->Ok_0;
        let p = read_all(descs, o.take(j))->Ok_0;
        let x = o[j - 1];
        let d = descs[x.1 as int];
        assert(read_step(p0, d, x.1 as int) == Ok::<Progress, BlockReadError>(p));
        lemma_step_shape(p0, d, x.1 as int);
        let prev_bound = if j - 1 == 0 { 0 } else { o[j - 2].0 as int };
        if j >= 2 {
            assert((pair_order())(o[j - 2], o[j - 1]));
            assert(pair_leq(o[j - 2], o[j - 1]));
        }
        assert(prev_bound <= x.0);
        let raw = d.ID->Some_0;
        assert(raw == x.0);
        assert(raw < 256);
        assert(raw as u8 == raw);
        if p.entries == p0.entries && p.textures == p0.textures {
        } else {
            let e = p.entries.last();
            assert(p.entries =~= p0.entries.push(e));
            lemma_tiles_of_push(p0.entries, e);
            let t0 = tiles_of(p0.entries);
            assert(e.ID == raw);
            assert forall|k: int| 0 <= k < p0.entries.len() implies #[trigger] p0.entries[k].ID < e.ID by {
                if p0.entries[k].ID == e.ID {
                    assert(exists|q: int| 0 <= q < p0.entries.len() && #[trigger] p0.entries[q].ID == e.ID as u8);
                }
            }
            assert forall|k: int| 0 <= k < p.entries.len() implies placed(tiles_of(p.entries), #[trigger] p.entries[k]) by {
                if k < p0.entries.len() {
                    assert(p.entries[k] == p0.entries[k]);
                    lemma_placed_grows(t0, entry_tiles(e), p0.entries[k]);
                } else {
                    assert(p.entries[k] == e);
                    match e.Texture {
                        TextureView::Null => {},
                        TextureView::Single(t, id) => {
                            assert(id as int == t0.len());
                            assert((t0 + entry_tiles(e))[t0.len() as int] == Some(t));
                        },
                        TextureView::Six(ts, id, offs) => {
                            let u = first_appearances(ts);
                            lemma_first_appearances_len(ts);
                            assert(id as int == t0.len());
                            assert forall|f: int| 0 <= f < ts.len() implies id + offs[f] < (t0 + entry_tiles(e)).len()
                                && #[trigger] (t0 + entry_tiles(e))[id + offs[f]] == Some(ts[f]) by {
                                assert(ts.contains(ts[f]));
                                lemma_first_appearances_contains(ts, ts[f]);
                                let q = u.index_of(ts[f]);
                                assert(0 <= q < u.len() && u[q] == ts[f]);
                                assert(offs[f] == q);
                                assert(entry_tiles(e)[q] == Some(ts[f]));
                            }
                        },
                    }
                }
            }
            match e.Texture {
                TextureView::Six(ts, id, offs) => {
                    lemma_first_appearances_len(ts);
                },
                _ => {},
            }
            assert forall|a: int, b: int| 0 <= a < b < p.entries.len() implies #[trigger] p.entries[a].ID < #[trigger] p.entries[b].ID by {
                if b < p0.entries.len() {
                    assert(p0.entries[a].ID < p0.entries[b].ID);
                } else {
                    assert(p.entries[a] == p0.entries[a]);
                }
            }
        }
    }
}

/// The block atlas and the block registry agree. When block descriptions
/// whose ids are below 256 (larger ones are cut to a byte after the
/// descriptions were sorted) and whose lists of face textures have six
/// entries are read without a refusal, the blocks are
/// registered in ascending order of id, so the atlas takes them in the order
/// they were read; the atlas holds exactly as many tiles as the registry
/// counted textures; and every registered block finds its textures where its
/// texture data points: a decoration's at its texture id, each face of a
/// six-sided block's at its texture id plus the face's offset.
pub proof fn law_block_atlas_follows_registry(descs: Seq<BlockDescription>, p: Progress, k: int)
    requires
        forall|i: int| 0 <= i < descs.len() ==> (#[trigger] descs[i].ID matches Some(raw) ==> raw < 256),
        forall|i: int| 0 <= i < descs.len() ==> (#[trigger] descs[i].Textures matches Some(Some(paths)) ==> paths@.len() >= 6),
        descs.len() * 6 < u32::MAX,
        read_all(descs, read_order(descs)) == Ok::<Progress, BlockReadError>(p),
        0 <= k < p.entries.len(),
    ensures
        by_id(p.entries) == p.entries,
        tiles_of(p.entries).len() == p.textures,
        placed(tiles_of(by_id(p.entries)), p.entries[k]),
{
    let o = read_order(descs);
    lemma_read_order_facts(descs);
    assert(o.take(descs.len() as int) =~= o);
    lemma_read_prefix(descs, descs.len() as int);
    let es = p.entries;
    let keys = entry_keys(es);
    broadcast use vstd::seq_lib::group_to_multiset_ensures;
    lemma_pair_order_total();
    keys.lemma_sort_by_ensures(pair_order());
    assert(sorted_by(keys, pair_order())) by {
        assert forall|a: int, b: int| 0 <= a < b < keys.len() implies (pair_order())(keys[a], keys[b]) by {
            assert(es[a].ID < es[b].ID);
        }
    }
    lemma_sorted_unique(keys, keys.sort_by(pair_order()), pair_order());
    assert(by_id(es) =~= es);
}

} // verus!
