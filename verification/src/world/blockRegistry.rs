use vstd::prelude::*;
use vstd::relations::{sorted_by, total_ordering};
use vstd::seq_lib::lemma_sorted_unique;
use super::block::{TextureData, TextureSix, TextureSingle};

verus! {

/// The distinct elements of `s`, in the order in which they first appear.
pub open spec fn first_appearances<T>(s: Seq<T>) -> Seq<T>
    decreases s.len(),
{
    if s.len() == 0 {
        Seq::empty()
    } else {
        let before = first_appearances(s.drop_last());
        if before.contains(s.last()) {
            before
        } else {
            before.push(s.last())
        }
    }
}

/// The views of a sequence of strings.
pub open spec fn names_of(s: Seq<String>) -> Seq<Seq<char>> {
    s.map_values(|t: String| t@)
}

proof fn lemma_first_appearances_step<T>(s: Seq<T>, k: int)
    requires
        0 <= k < s.len(),
    ensures
        first_appearances(s.take(k + 1)) == if first_appearances(s.take(k)).contains(s[k]) {
            first_appearances(s.take(k))
        } else {
            first_appearances(s.take(k)).push(s[k])
        },
{
    assert(s.take(k + 1).drop_last() =~= s.take(k));
}

/// The face offsets of a block whose six face textures are `paths`: each
/// face gets the rank of its texture among the distinct textures in the order
/// they first appear, so faces that share a texture share an offset. Also
/// answers how many distinct textures there are.
pub fn TextureOffsets(paths: &Vec<String>) -> (r: ([u32; 6], u32))
    requires
        paths@.len() == 6,
    ensures
        r.1 <= 6,
        r.1 == first_appearances(names_of(paths@)).len(),
        forall|i: int| 0 <= i < 6 ==> r.0[i] == first_appearances(names_of(paths@)).index_of(paths@[i]@),
        first_appearances(names_of(paths@)).no_duplicates(),
        forall|i: int| 0 <= i < 6 ==> first_appearances(names_of(paths@)).contains(#[trigger] paths@[i]@),
{
    let ghost ts = names_of(paths@);
    let mut seen: Vec<String> = Vec::new();
    let mut offsets: [u32; 6] = [0; 6];
    let mut i: usize = 0;
    while i < 6
        invariant
            paths@.len() == 6,
            ts == names_of(paths@),
            i <= 6,
            names_of(seen@) == first_appearances(ts.take(i as int)),
            names_of(seen@).no_duplicates(),
            seen@.len() <= i,
            forall|k: int| 0 <= k < i ==> names_of(seen@).contains(#[trigger] ts[k]),
            forall|k: int| 0 <= k < i ==> #[trigger] offsets[k] < seen@.len() && names_of(seen@)[offsets[k] as int] == ts[k],
        decreases 6 - i,
    {
        proof {
            lemma_first_appearances_step(ts, i as int);
        }
        let mut j: usize = 0;
        let mut found = false;
        while j < seen.len()
            invariant_except_break
                !found,
            invariant
                j <= seen@.len(),
                i < 6,
                paths@.len() == 6,
                forall|k: int| 0 <= k < j ==> seen@[k]@ != paths@[i as int]@,
            ensures
                j <= seen@.len(),
                forall|k: int| 0 <= k < j ==> seen@[k]@ != paths@[i as int]@,
                found ==> j < seen@.len() && seen@[j as int]@ == paths@[i as int]@,
                !found ==> j == seen@.len(),
            decreases seen@.len() - j,
        {
            if seen[j] == paths[i] {
                found = true;
                break;
            }
            j += 1;
        }
        let ghost old_seen = names_of(seen@);
        if !found {
            assert(!old_seen.contains(ts[i as int])) by {
                if old_seen.contains(ts[i as int]) {
                    let k = choose|k: int| 0 <= k < old_seen.len() && old_seen[k] == ts[i as int];
                    assert(seen@[k]@ == paths@[i as int]@);
                }
            }
            seen.push(paths[i].clone());
            assert(names_of(seen@) =~= old_seen.push(ts[i as int]));
            assert forall|k: int| 0 <= k <= i implies names_of(seen@).contains(#[trigger] ts[k]) by {
                if k < i {
                    let q = choose|q: int| 0 <= q < old_seen.len() && old_seen[q] == ts[k];
                    assert(names_of(seen@)[q] == ts[k]);
                } else {
                    assert(names_of(seen@)[old_seen.len() as int] == ts[k]);
                }
            }
        } else {
            assert(names_of(seen@)[j as int] == ts[i as int]);
        }
        offsets[i] = j as u32;
        i += 1;
    }
    proof {
        assert(ts.take(6) =~= ts);
        let u = first_appearances(ts);
        assert forall|k: int| 0 <= k < 6 implies u.contains(#[trigger] paths@[k]@) by {
            assert(names_of(seen@).contains(ts[k]));
        }
        assert forall|k: int| 0 <= k < 6 implies offsets[k] == u.index_of(paths@[k]@) by {
            let q = u.index_of(paths@[k]@);
            assert(u.contains(ts[k]));
            assert(0 <= q < u.len() && u[q] == ts[k]);
            if q != offsets[k] {
                assert(u[q] == u[offsets[k] as int]);
            }
        }
    }
    (offsets, seen.len() as u32)
}


/// What a block's description file says, as plain values; a field is `None`
/// where the file lacks it.
pub struct BlockDescription {
    pub ID: Option<u64>,
    pub Name: Option<String>,
    pub Enabled: Option<bool>,
    pub Decor: Option<bool>,
    /// The texture of a decoration block.
    pub Texture: Option<String>,
    /// Whether every custom attribute has a value of an accepted kind.
    pub AttributesValid: bool,
    /// The six face textures; `Some(None)` where the entry is not a list.
    pub Textures: Option<Option<Vec<String>>>,
    pub DropItem: Option<String>,
    pub EffectiveTool: Option<String>,
}

/// Why a set of block descriptions was refused; the id is the block's.
#[derive(Debug, Clone, Copy, PartialEq, Eq, Structural)]
pub enum BlockReadError {
    MissingId,
    ReservedId,
    DuplicateId(u8),
    MissingName(u8),
    ReservedName(u8),
    DuplicateName(u8),
    MissingEnabled(u8),
    MissingDecorTexture(u8),
    InvalidAttribute(u8),
    TexturesNotList(u8),
}

/// A registered block: its id, name, kind and texture data, and the index
/// of the description it was read from.
pub struct BlockEntry {
    pub ID: u8,
    pub Name: String,
    pub Decor: bool,
    pub TextureData: Option<TextureData>,
    pub Source: usize,
}

/// The blocks read from a set of descriptions, besides air (id 0, which is
/// always registered): in the order they were registered, with the items
/// they drop and the tools that mine them best (by name, to be checked
/// against the item registry), and the counts of blocks and atlas textures.
pub struct BlockRegistry {
    pub Entries: Vec<BlockEntry>,
    pub DropItems: Vec<(u8, String)>,
    pub EffectiveTools: Vec<(u8, String)>,
    pub NumRegisteredBlocks: u32,
    pub NumRegisteredTextures: u32,
}

/// The texture data of a block, by the views of its strings.
pub enum TextureView {
    Null,
    Single(Seq<char>, u32),
    Six(Seq<Seq<char>>, u32, Seq<u32>),
}

/// A registered block, by views.
pub struct EntryView {
    pub ID: u8,
    pub Name: Seq<char>,
    pub Decor: bool,
    pub Texture: TextureView,
    pub Source: int,
}

/// What has been read so far: the blocks, the dropped items, the tools, and
/// the number of atlas textures used.
#[verifier::ext_equal]
pub struct Progress {
    pub entries: Seq<EntryView>,
    pub drops: Seq<(u8, Seq<char>)>,
    pub tools: Seq<(u8, Seq<char>)>,
    pub textures: int,
}

pub open spec fn texture_view(t: Option<TextureData>) -> TextureView {
    match t {
        None => TextureView::Null,
        Some(TextureData::Decoration(d)) => TextureView::Single(d.Texture@, d.TextureID),
        Some(TextureData::SixSided(d)) => TextureView::Six(names_of(d.Textures@), d.TextureID, d.Offsets@),
    }
}

pub open spec fn entry_view(e: BlockEntry) -> EntryView {
    EntryView { ID: e.ID, Name: e.Name@, Decor: e.Decor, Texture: texture_view(e.TextureData), Source: e.Source as int }
}

pub open spec fn named_pairs(s: Seq<(u8, String)>) -> Seq<(u8, Seq<char>)> {
    s.map_values(|p: (u8, String)| (p.0, p.1@))
}

impl BlockRegistry {
    /// The table as read so far.
    pub open spec fn progress(&self) -> Progress {
        Progress {
            entries: self.Entries@.map_values(|e: BlockEntry| entry_view(e)),
            drops: named_pairs(self.DropItems@),
            tools: named_pairs(self.EffectiveTools@),
            textures: self.NumRegisteredTextures as int,
        }
    }
}

/// Nothing read yet.
pub open spec fn no_progress() -> Progress {
    Progress { entries: Seq::empty(), drops: Seq::empty(), tools: Seq::empty(), textures: 0 }
}

/// Whether a registered block has id `id`.
pub open spec fn id_taken(p: Progress, id: u8) -> bool {
    exists|k: int| 0 <= k < p.entries.len() && #[trigger] p.entries[k].ID == id
}

/// Whether a registered block is called `name`.
pub open spec fn name_taken(p: Progress, name: Seq<char>) -> bool {
    exists|k: int| 0 <= k < p.entries.len() && #[trigger] p.entries[k].Name == name
}

/// The name reserved for air.
pub open spec fn air_name() -> Seq<char> {
    seq!['A', 'i', 'r']
}

/// Reads one description (number `src` in the input) after `p`.
pub open spec fn read_step(p: Progress, d: BlockDescription, src: int) -> Result<Progress, BlockReadError> {
    match d.ID {
        None => Err(BlockReadError::MissingId),
        Some(raw) => {
            let id = raw as u8;
            if id == 0 {
                Err(BlockReadError::ReservedId)
            } else if id_taken(p, id) {
                Err(BlockReadError::DuplicateId(id))
            } else {
                match d.Name {
                    None => Err(BlockReadError::MissingName(id)),
                    Some(name) => {
                        if name@ == air_name() {
                            Err(BlockReadError::ReservedName(id))
                        } else if name_taken(p, name@) {
                            Err(BlockReadError::DuplicateName(id))
                        } else {
                            match d.Enabled {
                                None => Err(BlockReadError::MissingEnabled(id)),
                                Some(false) => Ok(p),
                                Some(true) => {
                                    if d.Decor == Some(true) {
                                        match d.Texture {
                                            None => Err(BlockReadError::MissingDecorTexture(id)),
                                            Some(t) => Ok(Progress {
                                                entries: p.entries.push(EntryView {
                                                    ID: id,
                                                    Name: name@,
                                                    Decor: true,
                                                    Texture: TextureView::Single(t@, p.textures as u32),
                                                    Source: src,
                                                }),
                                                textures: p.textures + 1,
                                                ..p
                                            }),
                                        }
                                    } else if !d.AttributesValid {
                                        Err(BlockReadError::InvalidAttribute(id))
                                    } else {
                                        let drops = match d.DropItem {
                                            Some(x) => p.drops.push((id, x@)),
                                            None => p.drops,
                                        };
                                        let tools = match d.EffectiveTool {
                                            Some(x) => p.tools.push((id, x@)),
                                            None => p.tools,
                                        };
                                        match d.Textures {
                                            None => Ok(Progress {
                                                entries: p.entries.push(EntryView {
                                                    ID: id,
                                                    Name: name@,
                                                    Decor: false,
                                                    Texture: TextureView::Null,
                                                    Source: src,
                                                }),
                                                drops: drops,
                                                tools: tools,
                                                textures: p.textures + 1,
                                            }),
                                            Some(None) => Err(BlockReadError::TexturesNotList(id)),
                                            Some(Some(paths)) => {
                                                let ts = names_of(paths@.take(6));
                                                let u = first_appearances(ts);
                                                Ok(Progress {
                                                    entries: p.entries.push(EntryView {
                                                        ID: id,
                                                        Name: name@,
                                                        Decor: false,
                                                        Texture: TextureView::Six(
                                                            ts,
                                                            p.textures as u32,
                                                            Seq::new(6, |f: int| u.index_of(ts[f]) as u32),
                                                        ),
                                                        Source: src,
                                                    }),
                                                    drops: drops,
                                                    tools: tools,
                                                    textures: p.textures + u.len(),
                                                })
                                            },
                                        }
                                    }
                                },
                            }
                        }
                    },
                }
            }
        },
    }
}

/// Reads the descriptions `descs` in the order `order` (pairs of a sort key
/// and an index into `descs`), stopping at the first refusal.
pub open spec fn read_all(descs: Seq<BlockDescription>, order: Seq<(u64, usize)>) -> Result<Progress, BlockReadError>
    decreases order.len(),
{
    if order.len() == 0 {
        Ok(no_progress())
    } else {
        match read_all(descs, order.drop_last()) {
            Err(e) => Err(e),
            Ok(p) => read_step(p, descs[order.last().1 as int], order.last().1 as int),
        }
    }
}

/// Orders pairs by their first part, then by their second.
pub open spec fn pair_leq(a: (u64, usize), b: (u64, usize)) -> bool {
    a.0 < b.0 || (a.0 == b.0 && a.1 <= b.1)
}

pub open spec fn pair_order() -> spec_fn((u64, usize), (u64, usize)) -> bool {
    |a: (u64, usize), b: (u64, usize)| pair_leq(a, b)
}

/// The sort key of each description (its id; 0 where it has none) beside
/// its index.
pub open spec fn read_keys(descs: Seq<BlockDescription>) -> Seq<(u64, usize)> {
    Seq::new(descs.len(), |i: int| (match descs[i].ID { Some(v) => v, None => 0 }, i as usize))
}

/// The order in which the descriptions are read: by id, and in input order
/// among equal ids.
pub open spec fn read_order(descs: Seq<BlockDescription>) -> Seq<(u64, usize)> {
    read_keys(descs).sort_by(pair_order())
}

pub(crate) proof fn lemma_pair_order_total()
    ensures
        total_ordering(pair_order()),
{
}

/// `slice::sort` on pairs of integers: the pairs end up in ascending
/// (lexicographic) order, and they are the same pairs as before.
#[verifier::external_body]
pub(crate) fn sort_pairs(keys: &mut Vec<(u64, usize)>)
    ensures
        sorted_by(final(keys)@, pair_order()),
        final(keys)@.to_multiset() == old(keys)@.to_multiset(),
{
    keys.sort();
}


/// Whether reading `d` after `p` fails outright: when its name is taken (the
/// report of that looks up the block's own id, which is not registered) or
/// when its list of face textures is shorter than six.
pub open spec fn read_fails(p: Progress, d: BlockDescription) -> bool {
    &&& d.ID matches Some(raw)
    &&& raw as u8 != 0
    &&& !id_taken(p, raw as u8)
    &&& d.Name matches Some(name)
    &&& name@ != air_name()
    &&& (name_taken(p, name@) || {
        &&& d.Enabled == Some(true)
        &&& d.Decor != Some(true)
        &&& d.AttributesValid
        &&& d.Textures matches Some(Some(paths))
        &&& paths@.len() < 6
    })
}

/// Whether some registered block has id `id`.
fn IdTaken(table: &BlockRegistry, id: u8) -> (r: bool)
    ensures
        r == id_taken(table.progress(), id),
{
    let mut k: usize = 0;
    while k < table.Entries.len()
        invariant
            k <= table.Entries@.len(),
            forall|j: int| 0 <= j < k ==> table.Entries@[j].ID != id,
        decreases table.Entries@.len() - k,
    {
        if table.Entries[k].ID == id {
            assert(table.progress().entries[k as int].ID == id);
            return true;
        }
        k += 1;
    }
    assert(!id_taken(table.progress(), id)) by {
        if id_taken(table.progress(), id) {
            let j = choose|j: int| 0 <= j < table.progress().entries.len() && #[trigger] table.progress().entries[j].ID == id;
            assert(table.Entries@[j].ID == id);
        }
    }
    false
}

/// Whether some registered block is called `name`.
fn NameTaken(table: &BlockRegistry, name: &String) -> (r: bool)
    ensures
        r == name_taken(table.progress(), name@),
{
    let mut k: usize = 0;
    while k < table.Entries.len()
        invariant
            k <= table.Entries@.len(),
            forall|j: int| 0 <= j < k ==> table.Entries@[j].Name@ != name@,
        decreases table.Entries@.len() - k,
    {
        if table.Entries[k].Name == *name {
            assert(table.progress().entries[k as int].Name == name@);
            return true;
        }
        k += 1;
    }
    assert(!name_taken(table.progress(), name@)) by {
        if name_taken(table.progress(), name@) {
            let j = choose|j: int| 0 <= j < table.progress().entries.len() && #[trigger] table.progress().entries[j].Name == name@;
            assert(table.Entries@[j].Name@ == name@);
        }
    }
    false
}

/// Reads description `d` (number `src` in the input) into `table`.
fn ReadBlock(table: &mut BlockRegistry, d: &BlockDescription, src: usize) -> (r: Result<(), BlockReadError>)
    requires
        !read_fails(old(table).progress(), *d),
        old(table).NumRegisteredTextures + 6 < u32::MAX,
        old(table).NumRegisteredBlocks == old(table).Entries@.len(),
        old(table).Entries@.len() + 1 < u32::MAX,
    ensures
        final(table).NumRegisteredBlocks == final(table).Entries@.len(),
        match read_step(old(table).progress(), *d, src as int) {
            Ok(p) => r is Ok && final(table).progress() == p,
            Err(e) => r == Err::<(), BlockReadError>(e),
        },
{
    let ghost p = table.progress();
    let raw = match d.ID {
        Some(v) => v,
        None => {
            return Err(BlockReadError::MissingId);
        },
    };
    let id = raw as u8;
    if id == 0 {
        return Err(BlockReadError::ReservedId);
    }
    if IdTaken(table, id) {
        return Err(BlockReadError::DuplicateId(id));
    }
    let name = match &d.Name {
        Some(n) => n,
        None => {
            return Err(BlockReadError::MissingName(id));
        },
    };
    let air = "Air".to_owned();
    proof {
        reveal_strlit("Air");
        assert(air@ =~= air_name());
    }
    if *name == air {
        return Err(BlockReadError::ReservedName(id));
    }
    if NameTaken(table, name) {
        return Err(BlockReadError::DuplicateName(id));
    }
    let enabled = match d.Enabled {
        Some(e) => e,
        None => {
            return Err(BlockReadError::MissingEnabled(id));
        },
    };
    if !enabled {
        return Ok(());
    }
    if d.Decor == Some(true) {
        let texture = match &d.Texture {
            Some(t) => t.clone(),
            None => {
                return Err(BlockReadError::MissingDecorTexture(id));
            },
        };
        let entry = BlockEntry {
            ID: id,
            Name: name.clone(),
            Decor: true,
            TextureData: Some(TextureData::Decoration(TextureSingle { Texture: texture, TextureID: table.NumRegisteredTextures })),
            Source: src,
        };
        table.Entries.push(entry);
        table.NumRegisteredTextures = table.NumRegisteredTextures + 1;
        table.NumRegisteredBlocks = table.NumRegisteredBlocks + 1;
        assert(table.progress().entries =~= p.entries.push(entry_view(entry)));
        return Ok(());
    }
    if !d.AttributesValid {
        return Err(BlockReadError::InvalidAttribute(id));
    }
    match &d.DropItem {
        Some(x) => {
            table.DropItems.push((id, x.clone()));
            assert(named_pairs(table.DropItems@) =~= p.drops.push((id, x@)));
        },
        None => {},
    }
    match &d.EffectiveTool {
        Some(x) => {
            table.EffectiveTools.push((id, x.clone()));
            assert(named_pairs(table.EffectiveTools@) =~= p.tools.push((id, x@)));
        },
        None => {},
    }
    let textureData = match &d.Textures {
        None => {
            table.NumRegisteredTextures = table.NumRegisteredTextures + 1;
            None
        },
        Some(None) => {
            return Err(BlockReadError::TexturesNotList(id));
        },
        Some(Some(paths)) => {
            let mut six: Vec<String> = Vec::new();
            let mut f: usize = 0;
            while f < 6
                invariant
                    f <= 6,
                    paths@.len() >= 6,
                    six@.len() == f,
                    forall|j: int| 0 <= j < f ==> #[trigger] six@[j]@ == paths@[j]@,
                decreases 6 - f,
            {
                six.push(paths[f].clone());
                f += 1;
            }
            assert(names_of(six@) =~= names_of(paths@.take(6)));
            let (offsets, distinct) = TextureOffsets(&six);
            proof {
                let ts = names_of(paths@.take(6));
                assert(ts =~= names_of(six@));
                assert(offsets@ =~= Seq::new(6, |f: int| first_appearances(ts).index_of(ts[f]) as u32));
            }
            let textures: [String; 6] = [
                six[0].clone(),
                six[1].clone(),
                six[2].clone(),
                six[3].clone(),
                six[4].clone(),
                six[5].clone(),
            ];
            assert(names_of(textures@) =~= names_of(six@));
            let data = TextureSix { Textures: textures, TextureID: table.NumRegisteredTextures, Offsets: offsets };
            table.NumRegisteredTextures = table.NumRegisteredTextures + distinct;
            Some(TextureData::SixSided(data))
        },
    };
    let entry = BlockEntry { ID: id, Name: name.clone(), Decor: false, TextureData: textureData, Source: src };
    table.Entries.push(entry);
    table.NumRegisteredBlocks = table.NumRegisteredBlocks + 1;
    assert(table.progress().entries =~= p.entries.push(entry_view(entry)));
    Ok(())
}


proof fn lemma_first_appearances_len<T>(s: Seq<T>)
    ensures
        first_appearances(s).len() <= s.len(),
    decreases s.len(),
{
    if s.len() > 0 {
        lemma_first_appearances_len(s.drop_last());
    }
}

/// Once reading a prefix of `order` is refused, reading all of it is refused
/// the same way.
proof fn lemma_read_all_refusal_stays(descs: Seq<BlockDescription>, order: Seq<(u64, usize)>, j: int, e: BlockReadError)
    requires
        0 <= j <= order.len(),
        read_all(descs, order.take(j)) == Err::<Progress, BlockReadError>(e),
    ensures
        read_all(descs, order) == Err::<Progress, BlockReadError>(e),
    decreases order.len() - j,
{
    if j < order.len() {
        assert(order.take(j + 1).drop_last() =~= order.take(j));
        lemma_read_all_refusal_stays(descs, order, j + 1, e);
    } else {
        assert(order.take(j) =~= order);
    }
}

/// A step that reads a description adds at most one block and six textures.
proof fn lemma_read_step_growth(p: Progress, d: BlockDescription, src: int)
    requires
        read_step(p, d, src) is Ok,
        !read_fails(p, d),
    ensures
        read_step(p, d, src)->Ok_0.entries.len() <= p.entries.len() + 1,
        p.textures <= read_step(p, d, src)->Ok_0.textures,
        read_step(p, d, src)->Ok_0.textures <= p.textures + 6,
{
    if let Some(Some(paths)) = d.Textures {
        lemma_first_appearances_len(names_of(paths@.take(6)));
        if paths@.len() >= 6 {
            assert(names_of(paths@.take(6)).len() == 6);
        }
    }
}

impl BlockRegistry {
    /// An empty registry: no blocks, no dropped items or tools, no textures.
    pub fn New() -> (r: BlockRegistry)
        ensures
            r.progress() == no_progress(),
            r.NumRegisteredBlocks == 0,
    {
        let r = BlockRegistry {
            Entries: Vec::new(),
            DropItems: Vec::new(),
            EffectiveTools: Vec::new(),
            NumRegisteredBlocks: 0,
            NumRegisteredTextures: 0,
        };
        assert(r.progress() =~= no_progress());
        r
    }

    /// Reads the block descriptions `descs` in order of id (input order among
    /// equal ids), after air, which holds id 0 and the name "Air": a block is
    /// refused, and with it the whole set, when it lacks an id, a name or the
    /// enabled flag, reuses id 0 or a registered id, or is called "Air"; a
    /// disabled block is skipped. A decoration block takes one atlas texture;
    /// another block takes one per distinct face texture (one, the null texture,
    /// when it names none), and each of its faces gets the offset of its texture.
    /// Left out, as inputs on which reading panics: a description without an
    /// id among two or more (they are sorted by id first, which unwraps each
    /// id), and reaching a block whose name is taken (the report of the
    /// duplicate looks up the block's own id, which is not registered yet) or
    /// whose list of face textures is shorter than six.
    pub fn ReadBlockAttributes(descs: Vec<BlockDescription>) -> (r: Result<BlockRegistry, BlockReadError>)
        requires
            descs@.len() >= 2 ==> forall|i: int| 0 <= i < descs@.len() ==> (#[trigger] descs@[i]).ID is Some,
            descs@.len() * 6 + 6 < u32::MAX,
            forall|k: int| 0 <= k < descs@.len() ==> (read_all(descs@, #[trigger] read_order(descs@).take(k)) matches Ok(p)
                ==> !read_fails(p, descs@[read_order(descs@)[k].1 as int])),
        ensures
            match read_all(descs@, read_order(descs@)) {
                Ok(p) => r matches Ok(t) && t.progress() == p && t.NumRegisteredBlocks == t.Entries@.len(),
                Err(e) => r == Err::<BlockRegistry, BlockReadError>(e),
            },
    {
        let mut keys: Vec<(u64, usize)> = Vec::new();
        let mut i: usize = 0;
        while i < descs.len()
            invariant
                i <= descs@.len(),
                keys@ == read_keys(descs@).take(i as int),
            decreases descs@.len() - i,
        {
            let key = match descs[i].ID {
                Some(v) => v,
                None => 0,
            };
            keys.push((key, i));
            assert(keys@ =~= read_keys(descs@).take(i + 1));
            i += 1;
        }
        assert(keys@ =~= read_keys(descs@));
        sort_pairs(&mut keys);
        proof {
            broadcast use vstd::seq_lib::group_to_multiset_ensures;
            lemma_pair_order_total();
            read_keys(descs@).lemma_sort_by_ensures(pair_order());
            assert(keys@.len() == keys@.to_multiset().len());
            lemma_sorted_unique(keys@, read_order(descs@), pair_order());
            assert forall|k: int| 0 <= k < keys@.len() implies #[trigger] keys@[k].1 < descs@.len() by {
                assert(keys@.contains(keys@[k]));
                assert(read_keys(descs@).contains(keys@[k]));
            }
        }
        let mut table = BlockRegistry {
            Entries: Vec::new(),
            DropItems: Vec::new(),
            EffectiveTools: Vec::new(),
            NumRegisteredBlocks: 0,
            NumRegisteredTextures: 0,
        };
        assert(table.progress() =~= no_progress());
        assert(keys@.take(0) =~= Seq::<(u64, usize)>::empty());
        let mut k: usize = 0;
        while k < keys.len()
            invariant
                k <= keys@.len(),
                keys@ == read_order(descs@),
                keys@.len() == descs@.len(),
                forall|j: int| 0 <= j < keys@.len() ==> #[trigger] keys@[j].1 < descs@.len(),
                descs@.len() * 6 + 6 < u32::MAX,
                forall|j: int| 0 <= j < descs@.len() ==> (read_all(descs@, #[trigger] read_order(descs@).take(j)) matches Ok(p)
                    ==> !read_fails(p, descs@[read_order(descs@)[j].1 as int])),
                read_all(descs@, keys@.take(k as int)) == Ok::<Progress, BlockReadError>(table.progress()),
                table.NumRegisteredBlocks == table.Entries@.len(),
                table.Entries@.len() <= k,
                table.NumRegisteredTextures <= 6 * k,
            decreases keys@.len() - k,
        {
            let src = keys[k].1;
            assert(keys@.take(k + 1).drop_last() =~= keys@.take(k as int));
            let ghost before = table.progress();
            assert(read_all(descs@, read_order(descs@).take(k as int)) == Ok::<Progress, BlockReadError>(before));
            match ReadBlock(&mut table, &descs[src], src) {
                Ok(()) => {
                    proof {
                        lemma_read_step_growth(before, descs@[src as int], src as int);
                    }
                },
                Err(e) => {
                    proof {
                        lemma_read_all_refusal_stays(descs@, keys@, k + 1, e);
                    }
                    return Err(e);
                },
            }
            k += 1;
        }
        assert(keys@.take(k as int) =~= keys@);
        Ok(table)
    }
}


/// Faces with different textures get different offsets: distinct textures
/// have distinct ranks among the textures in the order they first appear.
pub proof fn law_distinct_textures_get_distinct_offsets(ranks: Seq<Seq<char>>, a: Seq<char>, b: Seq<char>)
    requires
        ranks.no_duplicates(),
        ranks.contains(a),
        ranks.contains(b),
        a != b,
    ensures
        ranks.index_of(a) != ranks.index_of(b),
{
}

} // verus!
