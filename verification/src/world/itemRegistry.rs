use vstd::prelude::*;
use vstd::relations::sorted_by;
use vstd::seq_lib::lemma_sorted_unique;
use super::crafting::{CraftingRecipe, CraftingRegistry, ids_of};
use super::blockRegistry::{pair_order, lemma_pair_order_total, sort_pairs};

verus! {

/// The side of the square that `n` cells make, if they make one.
pub fn SquareSide(n: usize) -> (r: Option<u32>)
    ensures
        match r {
            Some(s) => s * s == n,
            None => forall|s: int| 0 <= s ==> #[trigger] (s * s) != n,
        },
{
    let mut s: u64 = 0;
    loop
        invariant
            s * s <= n,
            s < 0x1_0000_0000,
        ensures
            s * s <= n < (s + 1) * (s + 1),
            s < 0x1_0000_0000,
        decreases n - s * s,
    {
        let next: u128 = s as u128 + 1;
        assert(next * next <= 0x1_0000_0000_0000_0000) by (nonlinear_arith)
            requires
                next <= 0x1_0000_0000,
        ;
        if next * next > n as u128 {
            break;
        }
        assert(next < 0x1_0000_0000) by (nonlinear_arith)
            requires
                next * next <= n,
                n <= usize::MAX,
                usize::MAX < 0x1_0000_0000_0000_0000,
        ;
        assert(next * next > s * s) by (nonlinear_arith)
            requires
                next == s + 1,
                s >= 0,
        ;
        s = next as u64;
    }
    if s * s == n as u64 {
        Some(s as u32)
    } else {
        assert forall|k: int| 0 <= k implies #[trigger] (k * k) != n by {
            if k <= s {
                assert(k * k <= s * s) by (nonlinear_arith)
                    requires
                        0 <= k <= s,
                ;
                if k * k == n {
                    assert(k == s) by (nonlinear_arith)
                        requires
                            0 <= k <= s,
                            k * k == s * s,
                    ;
                }
            } else {
                assert(k * k >= (s + 1) * (s + 1)) by (nonlinear_arith)
                    requires
                        k >= s + 1,
                        s >= 0,
                ;
            }
        }
        None
    }
}


/// What an item's description file says, as plain values; a field is `None`
/// where the file lacks it.
pub struct ItemDescription {
    pub ID: Option<u64>,
    pub Name: Option<String>,
    pub Enabled: Option<bool>,
    /// Whether every custom attribute has a value of an accepted kind.
    pub AttributesValid: bool,
    /// How many custom attributes the item has.
    pub AttributeCount: usize,
    pub PlaceableBlock: Option<String>,
    pub StackSize: Option<u64>,
    pub CraftingRecipe: Option<Vec<u64>>,
    pub Texture: Option<String>,
}

/// Why a set of item descriptions was refused; the id is the item's.
#[derive(Debug, Clone, Copy, PartialEq, Eq, Structural)]
pub enum ItemReadError {
    MissingId,
    DuplicateId(u8),
    MissingName(u8),
    DuplicateName(u8),
    MissingEnabled(u8),
    InvalidAttribute(u8),
    StackedAttributes(u8),
    RecipeNotSquare(u8),
    InvalidRecipe(u8),
}

/// A registered item: its id, name, stack size and texture, and the index of
/// the description it was read from.
pub struct ItemEntry {
    pub ID: u8,
    pub Name: String,
    pub StackSize: u32,
    pub Texture: Option<String>,
    pub Source: usize,
}

/// The items read from a set of descriptions, in the order they were
/// registered, with the blocks they place (by name, to be checked against the
/// block registry) and the counts of items and atlas textures.
pub struct ItemRegistry {
    pub Entries: Vec<ItemEntry>,
    pub PlaceBlocks: Vec<(u8, String)>,
    pub NumRegisteredItems: u32,
    pub NumRegisteredTextures: u32,
}

/// A registered item, by views.
pub struct ItemView {
    pub ID: u8,
    pub Name: Seq<char>,
    pub StackSize: u32,
    pub Texture: Option<Seq<char>>,
    pub Source: int,
}

/// What has been read so far: the items, the blocks they place, and the
/// number of atlas textures used.
#[verifier::ext_equal]
pub struct ItemProgress {
    pub entries: Seq<ItemView>,
    pub places: Seq<(u8, Seq<char>)>,
    pub textures: int,
}

/// A crafting recipe by its item ids and its rows and columns.
pub open spec fn recipe_view(r: CraftingRecipe) -> (Seq<u8>, u32, u32) {
    (ids_of(r.grid()), r.rows(), r.cols())
}

/// The recipes of a crafting registry, by views.
pub open spec fn recipe_views(reg: CraftingRegistry) -> Map<u8, (Seq<u8>, u32, u32)> {
    reg.recipes().map_values(|r: CraftingRecipe| recipe_view(r))
}

pub open spec fn item_view(e: ItemEntry) -> ItemView {
    ItemView {
        ID: e.ID,
        Name: e.Name@,
        StackSize: e.StackSize,
        Texture: match e.Texture {
            Some(t) => Some(t@),
            None => None,
        },
        Source: e.Source as int,
    }
}

impl ItemRegistry {
    /// The table as read so far.
    pub open spec fn progress(&self) -> ItemProgress {
        ItemProgress {
            entries: self.Entries@.map_values(|e: ItemEntry| item_view(e)),
            places: self.PlaceBlocks@.map_values(|p: (u8, String)| (p.0, p.1@)),
            textures: self.NumRegisteredTextures as int,
        }
    }
}

pub open spec fn no_items() -> ItemProgress {
    ItemProgress { entries: Seq::empty(), places: Seq::empty(), textures: 0 }
}

/// Whether a registered item has id `id`.
pub open spec fn item_id_taken(p: ItemProgress, id: u8) -> bool {
    exists|k: int| 0 <= k < p.entries.len() && #[trigger] p.entries[k].ID == id
}

/// Whether a registered item is called `name`.
pub open spec fn item_name_taken(p: ItemProgress, name: Seq<char>) -> bool {
    exists|k: int| 0 <= k < p.entries.len() && #[trigger] p.entries[k].Name == name
}

/// The recipe cells as item ids (each value cut to its low byte).
pub open spec fn recipe_ids(vals: Seq<u64>) -> Seq<u8> {
    vals.map_values(|v: u64| v as u8)
}

/// Whether `n` cells make a square.
pub open spec fn is_square(n: int) -> bool {
    exists|s: int| 0 <= s && #[trigger] (s * s) == n
}

/// The side of the square that `n` cells make.
pub open spec fn square_side(n: int) -> int {
    choose|s: int| 0 <= s && #[trigger] (s * s) == n
}

/// Reads the enabled item `d` (number `src` in the input) with id `id` and
/// name `name` after `p`, with the recipes `rec` registered: its custom
/// attributes, the block it places, its stack size, its recipe and its texture.
pub open spec fn read_enabled_item(
    p: ItemProgress,
    rec: Map<u8, (Seq<u8>, u32, u32)>,
    d: ItemDescription,
    id: u8,
    name: Seq<char>,
    src: int,
) -> (Result<ItemProgress, ItemReadError>, Map<u8, (Seq<u8>, u32, u32)>) {
    if !d.AttributesValid {
        (Err(ItemReadError::InvalidAttribute(id)), rec)
    } else {
        let places = match d.PlaceableBlock {
            Some(b) => p.places.push((id, b@)),
            None => p.places,
        };
        let stacked = match d.StackSize {
            Some(size) => size as u32 > 1 && d.AttributeCount > 0,
            None => false,
        };
        let stackSize: u32 = match d.StackSize {
            Some(size) => size as u32,
            None => if d.AttributeCount > 0 { 1 } else { 64 },
        };
        if stacked {
            (Err(ItemReadError::StackedAttributes(id)), rec)
        } else {
            let recipe: Result<Map<u8, (Seq<u8>, u32, u32)>, ItemReadError> = match d.CraftingRecipe {
                None => Ok(rec),
                Some(vals) => if !is_square(vals@.len() as int) {
                    Err(ItemReadError::RecipeNotSquare(id))
                } else if square_side(vals@.len() as int) == 0 {
                    Err(ItemReadError::InvalidRecipe(id))
                } else {
                    let side = square_side(vals@.len() as int) as u32;
                    Ok(rec.insert(id, (recipe_ids(vals@), side, side)))
                },
            };
            match recipe {
                Err(e) => (Err(e), rec),
                Ok(rec2) => (
                    Ok(ItemProgress {
                        entries: p.entries.push(ItemView {
                            ID: id,
                            Name: name,
                            StackSize: stackSize,
                            Texture: match d.Texture {
                                Some(t) => Some(t@),
                                None => None,
                            },
                            Source: src,
                        }),
                        places: places,
                        textures: p.textures + 1,
                    }),
                    rec2,
                ),
            }
        }
    }
}

/// Reads one item description (number `src` in the input) after `p`, with
/// the recipes `rec` registered; answers the outcome and the recipes then.
pub open spec fn read_item(
    p: ItemProgress,
    rec: Map<u8, (Seq<u8>, u32, u32)>,
    d: ItemDescription,
    src: int,
) -> (Result<ItemProgress, ItemReadError>, Map<u8, (Seq<u8>, u32, u32)>) {
    match d.ID {
        None => (Err(ItemReadError::MissingId), rec),
        Some(raw) => {
            let id = raw as u8;
            if item_id_taken(p, id) {
                (Err(ItemReadError::DuplicateId(id)), rec)
            } else {
                match d.Name {
                    None => (Err(ItemReadError::MissingName(id)), rec),
                    Some(name) => if item_name_taken(p, name@) {
                        (Err(ItemReadError::DuplicateName(id)), rec)
                    } else {
                        match d.Enabled {
                            None => (Err(ItemReadError::MissingEnabled(id)), rec),
                            Some(false) => (Ok(p), rec),
                            Some(true) => read_enabled_item(p, rec, d, id, name@, src),
                        }
                    },
                }
            }
        },
    }
}

/// Reads the descriptions `descs` in the order `order`, from the recipes
/// `rec`, stopping at the first refusal.
pub open spec fn read_items(
    descs: Seq<ItemDescription>,
    order: Seq<(u64, usize)>,
    rec: Map<u8, (Seq<u8>, u32, u32)>,
) -> (Result<ItemProgress, ItemReadError>, Map<u8, (Seq<u8>, u32, u32)>)
    decreases order.len(),
{
    if order.len() == 0 {
        (Ok(no_items()), rec)
    } else {
        let before = read_items(descs, order.drop_last(), rec);
        match before.0 {
            Err(e) => before,
            Ok(p) => read_item(p, before.1, descs[order.last().1 as int], order.last().1 as int),
        }
    }
}

/// The sort key of each item description (its id; 0 where it has none)
/// beside its index.
pub open spec fn item_keys(descs: Seq<ItemDescription>) -> Seq<(u64, usize)> {
    Seq::new(descs.len(), |i: int| (match descs[i].ID { Some(v) => v, None => 0 }, i as usize))
}

/// The order in which the item descriptions are read: by id, and in input
/// order among equal ids.
pub open spec fn item_order(descs: Seq<ItemDescription>) -> Seq<(u64, usize)> {
    item_keys(descs).sort_by(pair_order())
}

/// Whether reading `d` after `p` fails outright: when its name is taken (the
/// report of that looks up the item's own id, which is not registered).
pub open spec fn item_read_fails(p: ItemProgress, d: ItemDescription) -> bool {
    &&& d.ID matches Some(raw)
    &&& !item_id_taken(p, raw as u8)
    &&& d.Name matches Some(name)
    &&& item_name_taken(p, name@)
}


/// Whether some registered item has id `id`.
fn ItemIdTaken(table: &ItemRegistry, id: u8) -> (r: bool)
    ensures
        r == item_id_taken(table.progress(), id),
{
    let mut k: usize = 0;
    while k < table.Entries.len()
        invariant
            k <= table.Entries@.len(),
            forall|j: int| 0 <= j < k ==> table.Entries@[j].ID != id,
        decreases table.Entries@.len() - k,
    {
        if table.Entries[k].ID == id {
            assert(table.progress().entries[k as int].ID == id);
            return true;
        }
        k += 1;
    }
    assert(!item_id_taken(table.progress(), id)) by {
        if item_id_taken(table.progress(), id) {
            let j = choose|j: int| 0 <= j < table.progress().entries.len() && #[trigger] table.progress().entries[j].ID == id;
            assert(table.Entries@[j].ID == id);
        }
    }
    false
}

/// Whether some registered item is called `name`.
fn ItemNameTaken(table: &ItemRegistry, name: &String) -> (r: bool)
    ensures
        r == item_name_taken(table.progress(), name@),
{
    let mut k: usize = 0;
    while k < table.Entries.len()
        invariant
            k <= table.Entries@.len(),
            forall|j: int| 0 <= j < k ==> table.Entries@[j].Name@ != name@,
        decreases table.Entries@.len() - k,
    {
        if table.Entries[k].Name == *name {
            assert(table.progress().entries[k as int].Name == name@);
            return true;
        }
        k += 1;
    }
    assert(!item_name_taken(table.progress(), name@)) by {
        if item_name_taken(table.progress(), name@) {
            let j = choose|j: int| 0 <= j < table.progress().entries.len() && #[trigger] table.progress().entries[j].Name == name@;
            assert(table.Entries@[j].Name@ == name@);
        }
    }
    false
}

proof fn lemma_square_side_unique(n: int, s: int)
    requires
        0 <= s,
        s * s == n,
    ensures
        is_square(n),
        square_side(n) == s,
{
    assert(is_square(n));
    let t = square_side(n);
    assert(0 <= t && t * t == n);
    if t < s {
        assert(t * t < s * s) by (nonlinear_arith)
            requires
                0 <= t < s,
        ;
    } else if t > s {
        assert(s * s < t * t) by (nonlinear_arith)
            requires
                0 <= s < t,
        ;
    }
}

/// Reads item description `d` (number `src` in the input) into `table`,
/// registering its recipe with `craftingRegistry`.
fn ReadItem(table: &mut ItemRegistry, craftingRegistry: &mut CraftingRegistry, d: &ItemDescription, src: usize) -> (r: Result<(), ItemReadError>)
    requires
        !item_read_fails(old(table).progress(), *d),
        old(craftingRegistry).wf(),
        old(table).NumRegisteredTextures + 1 < u32::MAX,
        old(table).NumRegisteredItems == old(table).Entries@.len(),
        old(table).Entries@.len() + 1 < u32::MAX,
    ensures
        final(craftingRegistry).wf(),
        final(table).NumRegisteredItems == final(table).Entries@.len(),
        read_item(old(table).progress(), recipe_views(*old(craftingRegistry)), *d, src as int).1
            == recipe_views(*final(craftingRegistry)),
        match read_item(old(table).progress(), recipe_views(*old(craftingRegistry)), *d, src as int).0 {
            Ok(p) => r is Ok && final(table).progress() == p,
            Err(e) => r == Err::<(), ItemReadError>(e),
        },
{
    let ghost p = table.progress();
    let raw = match d.ID {
        Some(v) => v,
        None => {
            return Err(ItemReadError::MissingId);
        },
    };
    let id = raw as u8;
    if ItemIdTaken(table, id) {
        return Err(ItemReadError::DuplicateId(id));
    }
    let name = match &d.Name {
        Some(n) => n,
        None => {
            return Err(ItemReadError::MissingName(id));
        },
    };
    if ItemNameTaken(table, name) {
        return Err(ItemReadError::DuplicateName(id));
    }
    let enabled = match d.Enabled {
        Some(e) => e,
        None => {
            return Err(ItemReadError::MissingEnabled(id));
        },
    };
    if !enabled {
        return Ok(());
    }
    if !d.AttributesValid {
        return Err(ItemReadError::InvalidAttribute(id));
    }
    match &d.PlaceableBlock {
        Some(b) => {
            table.PlaceBlocks.push((id, b.clone()));
            assert(table.progress().places =~= p.places.push((id, b@)));
        },
        None => {},
    }
    let mut stackSize: u32 = 64;
    match d.StackSize {
        Some(size) => {
            let sz = size as u32;
            if sz > 1 && d.AttributeCount > 0 {
                return Err(ItemReadError::StackedAttributes(id));
            }
            stackSize = sz;
        },
        None => {
            if d.AttributeCount > 0 {
                stackSize = 1;
            }
        },
    }
    match &d.CraftingRecipe {
        Some(vals) => {
            let side = match SquareSide(vals.len()) {
                Some(s) => s,
                None => {
                    assert(!is_square(vals@.len() as int));
                    return Err(ItemReadError::RecipeNotSquare(id));
                },
            };
            proof {
                lemma_square_side_unique(vals@.len() as int, side as int);
            }
            let mut grid: Vec<u8> = Vec::new();
            let mut i: usize = 0;
            while i < vals.len()
                invariant
                    i <= vals@.len(),
                    grid@ == recipe_ids(vals@).take(i as int),
                decreases vals@.len() - i,
            {
                grid.push(vals[i] as u8);
                assert(grid@ =~= recipe_ids(vals@).take(i + 1));
                i += 1;
            }
            assert(grid@ =~= recipe_ids(vals@));
            match CraftingRecipe::New(grid, side, side) {
                Ok(recipe) => {
                    let ghost before = *craftingRegistry;
                    craftingRegistry.AddRecipe(id, recipe);
                    assert(recipe_views(*craftingRegistry) =~= recipe_views(before).insert(id, recipe_view(recipe)));
                },
                Err(_) => {
                    return Err(ItemReadError::InvalidRecipe(id));
                },
            }
        },
        None => {},
    }
    let texture = match &d.Texture {
        Some(t) => Some(t.clone()),
        None => None,
    };
    let entry = ItemEntry { ID: id, Name: name.clone(), StackSize: stackSize, Texture: texture, Source: src };
    table.Entries.push(entry);
    table.NumRegisteredTextures = table.NumRegisteredTextures + 1;
    table.NumRegisteredItems = table.NumRegisteredItems + 1;
    assert(table.progress().entries =~= p.entries.push(item_view(entry)));
    Ok(())
}


/// Reading one item adds at most one item and one texture.
proof fn lemma_read_item_growth(p: ItemProgress, rec: Map<u8, (Seq<u8>, u32, u32)>, d: ItemDescription, src: int)
    requires
        read_item(p, rec, d, src).0 is Ok,
    ensures
        read_item(p, rec, d, src).0->Ok_0.entries.len() <= p.entries.len() + 1,
        read_item(p, rec, d, src).0->Ok_0.textures <= p.textures + 1,
{
}

/// Once reading a prefix of `order` is refused, reading all of it ends the
/// same way.
proof fn lemma_read_items_refusal_stays(
    descs: Seq<ItemDescription>,
    order: Seq<(u64, usize)>,
    rec: Map<u8, (Seq<u8>, u32, u32)>,
    j: int,
)
    requires
        0 <= j <= order.len(),
        read_items(descs, order.take(j), rec).0 is Err,
    ensures
        read_items(descs, order, rec) == read_items(descs, order.take(j), rec),
    decreases order.len() - j,
{
    if j < order.len() {
        assert(order.take(j + 1).drop_last() =~= order.take(j));
        lemma_read_items_refusal_stays(descs, order, rec, j + 1);
    } else {
        assert(order.take(j) =~= order);
    }
}

impl ItemRegistry {
    /// An empty registry: no items, no placed blocks, no textures.
    pub fn New() -> (r: ItemRegistry)
        ensures
            r.progress() == no_items(),
            r.NumRegisteredItems == 0,
    {
        let r = ItemRegistry { Entries: Vec::new(), PlaceBlocks: Vec::new(), NumRegisteredItems: 0, NumRegisteredTextures: 0 };
        assert(r.progress() =~= no_items());
        r
    }

    /// Reads the item descriptions `descs` in order of id (input order among
    /// equal ids), registering their crafting recipes with `craftingRegistry`:
    /// an item is refused, and with it the rest of the set, when it lacks an
    /// id, a name or the enabled flag, reuses a registered id, has a custom
    /// attribute of no accepted kind, stacks above one while having custom
    /// attributes, or has a recipe whose cells do not make a non-empty square;
    /// a disabled item is skipped. The stack size is the one given, else 1 for
    /// an item with custom attributes and 64 otherwise; each item takes one
    /// atlas texture. Left out, as inputs on which reading panics: a
    /// description without an id among two or more (they are sorted by id
    /// first, which unwraps each id), and reaching an item whose name is taken
    /// (the report of the duplicate looks up the item's own id, which is not
    /// registered yet).
    pub fn ReadItemAttributes(descs: Vec<ItemDescription>, craftingRegistry: &mut CraftingRegistry) -> (r: Result<ItemRegistry, ItemReadError>)
        requires
            old(craftingRegistry).wf(),
            descs@.len() >= 2 ==> forall|i: int| 0 <= i < descs@.len() ==> (#[trigger] descs@[i]).ID is Some,
            descs@.len() + 2 < u32::MAX,
            forall|k: int| 0 <= k < descs@.len() ==> (read_items(descs@, #[trigger] item_order(descs@).take(k), recipe_views(*old(craftingRegistry))).0 matches Ok(p)
                ==> !item_read_fails(p, descs@[item_order(descs@)[k].1 as int])),
        ensures
            final(craftingRegistry).wf(),
            recipe_views(*final(craftingRegistry)) == read_items(descs@, item_order(descs@), recipe_views(*old(craftingRegistry))).1,
            match read_items(descs@, item_order(descs@), recipe_views(*old(craftingRegistry))).0 {
                Ok(p) => r matches Ok(t) && t.progress() == p && t.NumRegisteredItems == t.Entries@.len(),
                Err(e) => r == Err::<ItemRegistry, ItemReadError>(e),
            },
    {
        let ghost rec0 = recipe_views(*craftingRegistry);
        let mut keys: Vec<(u64, usize)> = Vec::new();
        let mut i: usize = 0;
        while i < descs.len()
            invariant
                i <= descs@.len(),
                keys@ == item_keys(descs@).take(i as int),
            decreases descs@.len() - i,
        {
            let key = match descs[i].ID {
                Some(v) => v,
                None => 0,
            };
            keys.push((key, i));
            assert(keys@ =~= item_keys(descs@).take(i + 1));
            i += 1;
        }
        assert(keys@ =~= item_keys(descs@));
        sort_pairs(&mut keys);
        proof {
            broadcast use vstd::seq_lib::group_to_multiset_ensures;
            lemma_pair_order_total();
            item_keys(descs@).lemma_sort_by_ensures(pair_order());
            assert(keys@.len() == keys@.to_multiset().len());
            lemma_sorted_unique(keys@, item_order(descs@), pair_order());
            assert forall|k: int| 0 <= k < keys@.len() implies #[trigger] keys@[k].1 < descs@.len() by {
                assert(keys@.contains(keys@[k]));
                assert(item_keys(descs@).contains(keys@[k]));
            }
        }
        let mut table = ItemRegistry { Entries: Vec::new(), PlaceBlocks: Vec::new(), NumRegisteredItems: 0, NumRegisteredTextures: 0 };
        assert(table.progress() =~= no_items());
        assert(keys@.take(0) =~= Seq::<(u64, usize)>::empty());
        let mut k: usize = 0;
        while k < keys.len()
            invariant
                k <= keys@.len(),
                keys@ == item_order(descs@),
                keys@.len() == descs@.len(),
                forall|j: int| 0 <= j < keys@.len() ==> #[trigger] keys@[j].1 < descs@.len(),
                descs@.len() + 2 < u32::MAX,
                forall|j: int| 0 <= j < descs@.len() ==> (read_items(descs@, #[trigger] item_order(descs@).take(j), rec0).0 matches Ok(p)
                    ==> !item_read_fails(p, descs@[item_order(descs@)[j].1 as int])),
                read_items(descs@, keys@.take(k as int), rec0) == (Ok::<ItemProgress, ItemReadError>(table.progress()), recipe_views(*craftingRegistry)),
                craftingRegistry.wf(),
                rec0 == recipe_views(*old(craftingRegistry)),
                table.NumRegisteredItems == table.Entries@.len(),
                table.Entries@.len() <= k,
                table.NumRegisteredTextures <= k,
            decreases keys@.len() - k,
        {
            let src = keys[k].1;
            assert(keys@.take(k + 1).drop_last() =~= keys@.take(k as int));
            assert(read_items(descs@, item_order(descs@).take(k as int), rec0).0 == Ok::<ItemProgress, ItemReadError>(table.progress()));
            let ghost before = table.progress();
            let ghost before_rec = recipe_views(*craftingRegistry);
            let outcome = ReadItem(&mut table, craftingRegistry, &descs[src], src);
            proof {
                assert(keys@.take(k + 1).last() == keys@[k as int]);
                assert(read_items(descs@, keys@.take(k + 1), rec0) == read_item(before, before_rec, descs@[src as int], src as int));
            }
            match outcome {
                Ok(()) => {
                    proof {
                        lemma_read_item_growth(before, before_rec, descs@[src as int], src as int);
                    }
                },
                Err(e) => {
                    proof {
                        lemma_read_items_refusal_stays(descs@, keys@, rec0, k + 1);
                    }
                    return Err(e);
                },
            }
            k += 1;
        }
        assert(keys@.take(k as int) =~= keys@);
        Ok(table)
    }
}

/// Reading item descriptions registers items with distinct ids, each with
/// one atlas texture: the registry counts as many textures as items, and no
/// two items share an id.
pub proof fn law_items_have_distinct_ids_and_a_texture_each(
    descs: Seq<ItemDescription>,
    order: Seq<(u64, usize)>,
    rec: Map<u8, (Seq<u8>, u32, u32)>,
)
    requires
        read_items(descs, order, rec).0 is Ok,
    ensures
        read_items(descs, order, rec).0->Ok_0.textures == read_items(descs, order, rec).0->Ok_0.entries.len(),
        forall|a: int, b: int|
            0 <= a < b < read_items(descs, order, rec).0->Ok_0.entries.len() ==> #[trigger] read_items(
                descs,
                order,
                rec,
            ).0->Ok_0.entries[a].ID != #[trigger] read_items(descs, order, rec).0->Ok_0.entries[b].ID,
    decreases order.len(),
{
    if order.len() > 0 {
        let before = read_items(descs, order.drop_last(), rec);
        law_items_have_distinct_ids_and_a_texture_each(descs, order.drop_last(), rec);
        let p0 = before.0->Ok_0;
        let p = read_items(descs, order, rec).0->Ok_0;
        let d = descs[order.last().1 as int];
        if p.entries.len() != p0.entries.len() {
            assert(p.entries == p0.entries.push(p.entries.last()));
            let id = d.ID->Some_0 as u8;
            assert(p.entries.last().ID == id);
            assert(!item_id_taken(p0, id));
            assert forall|a: int, b: int| 0 <= a < b < p.entries.len() implies #[trigger] p.entries[a].ID
                != #[trigger] p.entries[b].ID by {
                assert(p.entries[a] == p0.entries[a]);
                if b < p0.entries.len() {
                    assert(p.entries[b] == p0.entries[b]);
                } else if p.entries[a].ID == id {
                    assert(p0.entries[a].ID == id);
                }
            }
        }
    } else {
        assert(read_items(descs, order, rec).0->Ok_0.entries.len() == 0);
    }
}

} // verus!
