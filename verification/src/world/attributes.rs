use vstd::prelude::*;
use super::blockRegistry::{BlockRegistry, EntryView, Progress, air_name, named_pairs};
use super::itemRegistry::{ItemRegistry, ItemView, ItemProgress};
use super::{decimal, append_decimal};

verus! {

/// The id of the first item called `name` among `entries`, if any.
pub open spec fn item_named(entries: Seq<ItemView>, name: Seq<char>) -> Option<u8>
    decreases entries.len(),
{
    if entries.len() == 0 {
        None
    } else if entries[0].Name == name {
        Some(entries[0].ID)
    } else {
        item_named(entries.drop_first(), name)
    }
}

/// The id of the first block called `name` among `entries`, if any.
pub open spec fn block_in(entries: Seq<EntryView>, name: Seq<char>) -> Option<u8>
    decreases entries.len(),
{
    if entries.len() == 0 {
        None
    } else if entries[0].Name == name {
        Some(entries[0].ID)
    } else {
        block_in(entries.drop_first(), name)
    }
}

/// The id of the block called `name`: air is id 0.
pub open spec fn block_named(entries: Seq<EntryView>, name: Seq<char>) -> Option<u8> {
    if name == air_name() {
        Some(0u8)
    } else {
        block_in(entries, name)
    }
}

/// Resolves each (owner id, name) pair of `pairs` with `lookup`, in order:
/// the (owner id, found id) pairs, or the owner id of the first pair whose
/// name `lookup` does not know.
pub open spec fn resolve(pairs: Seq<(u8, Seq<char>)>, lookup: spec_fn(Seq<char>) -> Option<u8>) -> Result<Seq<(u8, u8)>, u8>
    decreases pairs.len(),
{
    if pairs.len() == 0 {
        Ok(Seq::empty())
    } else {
        match resolve(pairs.drop_last(), lookup) {
            Err(owner) => Err(owner),
            Ok(done) => match lookup(pairs.last().1) {
                Some(id) => Ok(done.push((pairs.last().0, id))),
                None => Err(pairs.last().0),
            },
        }
    }
}

/// Why blocks and items could not be linked: the block or item (by id)
/// names an item or block that is not registered.
#[derive(Debug, Clone, Copy, PartialEq, Eq, Structural)]
pub enum LinkError {
    InvalidDropItem(u8),
    InvalidEffectiveTool(u8),
    InvalidPlaceableBlock(u8),
}

/// The links between blocks and items: (block, item) pairs of the item each
/// block drops and of the tool that mines it best, and (item, block) pairs of
/// the block each item places.
pub struct AttributeLinks {
    pub DropItems: Vec<(u8, u8)>,
    pub EffectiveTools: Vec<(u8, u8)>,
    pub PlaceBlocks: Vec<(u8, u8)>,
}

/// The id of the first entry of `items` called `name`, if any.
fn FindItem(items: &ItemRegistry, name: &String) -> (r: Option<u8>)
    ensures
        r == item_named(items.progress().entries, name@),
{
    let ghost entries = items.progress().entries;
    assert(entries.skip(0) =~= entries);
    let mut k: usize = 0;
    while k < items.Entries.len()
        invariant
            k <= items.Entries@.len(),
            entries == items.progress().entries,
            item_named(entries, name@) == item_named(entries.skip(k as int), name@),
        decreases items.Entries@.len() - k,
    {
        assert(entries.skip(k as int).drop_first() =~= entries.skip(k + 1));
        if items.Entries[k].Name == *name {
            return Some(items.Entries[k].ID);
        }
        k += 1;
    }
    None
}

/// The id of the block called `name` (air is id 0), if any.
pub(crate) fn FindBlock(blocks: &BlockRegistry, name: &String) -> (r: Option<u8>)
    ensures
        r == block_named(blocks.progress().entries, name@),
{
    let air = "Air".to_owned();
    proof {
        reveal_strlit("Air");
        assert(air@ =~= air_name());
    }
    if *name == air {
        return Some(0);
    }
    let ghost entries = blocks.progress().entries;
    assert(entries.skip(0) =~= entries);
    let mut k: usize = 0;
    while k < blocks.Entries.len()
        invariant
            k <= blocks.Entries@.len(),
            entries == blocks.progress().entries,
            name@ != air_name(),
            block_named(entries, name@) == block_in(entries.skip(k as int), name@),
        decreases blocks.Entries@.len() - k,
    {
        assert(entries.skip(k as int).drop_first() =~= entries.skip(k + 1));
        if blocks.Entries[k].Name == *name {
            return Some(blocks.Entries[k].ID);
        }
        k += 1;
    }
    None
}


/// The name registered for block id `id`: the empty name for air (id 0),
/// and otherwise the name of the first block with that id, if any.
pub open spec fn block_name_of(entries: Seq<EntryView>, id: u8) -> Option<Seq<char>> {
    if id == 0 {
        Some(Seq::<char>::empty())
    } else {
        name_with_id(entries, id)
    }
}

/// The name of the first block of `entries` with id `id`, if any.
pub open spec fn name_with_id(entries: Seq<EntryView>, id: u8) -> Option<Seq<char>>
    decreases entries.len(),
{
    if entries.len() == 0 {
        None
    } else if entries[0].ID == id {
        Some(entries[0].Name)
    } else {
        name_with_id(entries.drop_first(), id)
    }
}

/// The message for a block id `id` that is not registered.
pub open spec fn unknown_block_id_text(id: u8) -> Seq<char> {
    "Block id of "@ + decimal(id as nat) + " not found in block registry. Be sure that it exists or is actually enabled"@
}

/// The message for a block id that is not registered, the id written in
/// decimal.
fn unknown_block_id_error(id: u8) -> (r: String)
    ensures
        r@ == unknown_block_id_text(id),
{
    let mut msg = String::from_str("Block id of ");
    append_decimal(&mut msg, id as u32);
    msg.append(" not found in block registry. Be sure that it exists or is actually enabled");
    assert(msg@ =~= unknown_block_id_text(id));
    msg
}

impl BlockRegistry {
    /// The name of block `id` (see `block_name_of`), or a message saying
    /// that no such block is registered.
    pub fn GetNameOfID(&self, id: u8) -> (r: Result<String, String>)
        ensures
            match block_name_of(self.progress().entries, id) {
                Some(name) => r matches Ok(s) && s@ == name,
                None => r matches Err(msg) && msg@ == unknown_block_id_text(id),
            },
    {
        if id == 0 {
            return Ok(String::new());
        }
        let ghost entries = self.progress().entries;
        assert(entries.skip(0) =~= entries);
        let mut k: usize = 0;
        while k < self.Entries.len()
            invariant
                k <= self.Entries@.len(),
                entries == self.progress().entries,
                id != 0,
                block_name_of(entries, id) == name_with_id(entries.skip(k as int), id),
            decreases self.Entries@.len() - k,
        {
            assert(entries.skip(k as int).drop_first() =~= entries.skip(k + 1));
            if self.Entries[k].ID == id {
                return Ok(self.Entries[k].Name.clone());
            }
            k += 1;
        }
        Err(unknown_block_id_error(id))
    }

    /// The id of the block called `name` (air is id 0); the name must be
    /// registered.
    pub fn NameToID(&self, name: &String) -> (r: u8)
        requires
            block_named(self.progress().entries, name@) is Some,
        ensures
            block_named(self.progress().entries, name@) == Some(r),
    {
        match FindBlock(self, name) {
            Some(id) => id,
            None => 0,
        }
    }

    /// Whether a block called `name` is registered (air always is).
    pub fn HasBlock(&self, name: &String) -> (r: bool)
        ensures
            r == block_named(self.progress().entries, name@) is Some,
    {
        FindBlock(self, name).is_some()
    }
}

impl ItemRegistry {
    /// The id of the item called `name`; the name must be registered.
    pub fn NameToID(&self, name: &String) -> (r: u8)
        requires
            item_named(self.progress().entries, name@) is Some,
        ensures
            item_named(self.progress().entries, name@) == Some(r),
    {
        match FindItem(self, name) {
            Some(id) => id,
            None => 0,
        }
    }

    /// Whether an item called `name` is registered.
    pub fn HasItem(&self, name: &String) -> (r: bool)
        ensures
            r == item_named(self.progress().entries, name@) is Some,
    {
        FindItem(self, name).is_some()
    }
}

/// Looks names up among the items of `items`.
pub open spec fn item_lookup(items: ItemProgress) -> spec_fn(Seq<char>) -> Option<u8> {
    |name: Seq<char>| item_named(items.entries, name)
}

/// Looks names up among the blocks of `blocks` (and air).
pub open spec fn block_lookup(blocks: Progress) -> spec_fn(Seq<char>) -> Option<u8> {
    |name: Seq<char>| block_named(blocks.entries, name)
}

proof fn lemma_resolve_step(pairs: Seq<(u8, Seq<char>)>, lookup: spec_fn(Seq<char>) -> Option<u8>, k: int)
    requires
        0 <= k < pairs.len(),
    ensures
        resolve(pairs.take(k + 1), lookup) == match resolve(pairs.take(k), lookup) {
            Err(owner) => Err(owner),
            Ok(done) => match lookup(pairs[k].1) {
                Some(id) => Ok(done.push((pairs[k].0, id))),
                None => Err(pairs[k].0),
            },
        },
{
    assert(pairs.take(k + 1).drop_last() =~= pairs.take(k));
}

/// Resolves the item names of `pairs` among the items of `items`.
fn ResolveItems(pairs: &Vec<(u8, String)>, items: &ItemRegistry) -> (r: Result<Vec<(u8, u8)>, u8>)
    ensures
        match resolve(named_pairs(pairs@), item_lookup(items.progress())) {
            Ok(done) => r matches Ok(v) && v@ == done,
            Err(owner) => r == Err::<Vec<(u8, u8)>, u8>(owner),
        },
{
    let ghost ps = named_pairs(pairs@);
    let ghost lookup = item_lookup(items.progress());
    let mut done: Vec<(u8, u8)> = Vec::new();
    let mut k: usize = 0;
    assert(ps.take(0) =~= Seq::<(u8, Seq<char>)>::empty());
    while k < pairs.len()
        invariant
            k <= pairs@.len(),
            ps == named_pairs(pairs@),
            lookup == item_lookup(items.progress()),
            resolve(ps.take(k as int), lookup) == Ok::<Seq<(u8, u8)>, u8>(done@),
        decreases pairs@.len() - k,
    {
        proof {
            lemma_resolve_step(ps, lookup, k as int);
        }
        match FindItem(items, &pairs[k].1) {
            Some(id) => {
                done.push((pairs[k].0, id));
            },
            None => {
                assert(resolve(ps.take(k + 1), lookup) == Err::<Seq<(u8, u8)>, u8>(pairs@[k as int].0));
                proof {
                    lemma_resolve_refusal_stays(ps, lookup, k + 1);
                }
                return Err(pairs[k].0);
            },
        }
        k += 1;
    }
    assert(ps.take(k as int) =~= ps);
    Ok(done)
}

/// Resolves the block names of `pairs` among the blocks of `blocks`.
fn ResolveBlocks(pairs: &Vec<(u8, String)>, blocks: &BlockRegistry) -> (r: Result<Vec<(u8, u8)>, u8>)
    ensures
        match resolve(named_pairs(pairs@), block_lookup(blocks.progress())) {
            Ok(done) => r matches Ok(v) && v@ == done,
            Err(owner) => r == Err::<Vec<(u8, u8)>, u8>(owner),
        },
{
    let ghost ps = named_pairs(pairs@);
    let ghost lookup = block_lookup(blocks.progress());
    let mut done: Vec<(u8, u8)> = Vec::new();
    let mut k: usize = 0;
    assert(ps.take(0) =~= Seq::<(u8, Seq<char>)>::empty());
    while k < pairs.len()
        invariant
            k <= pairs@.len(),
            ps == named_pairs(pairs@),
            lookup == block_lookup(blocks.progress()),
            resolve(ps.take(k as int), lookup) == Ok::<Seq<(u8, u8)>, u8>(done@),
        decreases pairs@.len() - k,
    {
        proof {
            lemma_resolve_step(ps, lookup, k as int);
        }
        match FindBlock(blocks, &pairs[k].1) {
            Some(id) => {
                done.push((pairs[k].0, id));
            },
            None => {
                assert(resolve(ps.take(k + 1), lookup) == Err::<Seq<(u8, u8)>, u8>(pairs@[k as int].0));
                proof {
                    lemma_resolve_refusal_stays(ps, lookup, k + 1);
                }
                return Err(pairs[k].0);
            },
        }
        k += 1;
    }
    assert(ps.take(k as int) =~= ps);
    Ok(done)
}

proof fn lemma_resolve_refusal_stays(pairs: Seq<(u8, Seq<char>)>, lookup: spec_fn(Seq<char>) -> Option<u8>, j: int)
    requires
        0 <= j <= pairs.len(),
        resolve(pairs.take(j), lookup) is Err,
    ensures
        resolve(pairs, lookup) == resolve(pairs.take(j), lookup),
    decreases pairs.len() - j,
{
    if j < pairs.len() {
        lemma_resolve_step(pairs, lookup, j);
        lemma_resolve_refusal_stays(pairs, lookup, j + 1);
    } else {
        assert(pairs.take(j) =~= pairs);
    }
}

/// Links the blocks and items read from their descriptions: each item a
/// block drops and each tool that mines a block best, named by the block,
/// must be a registered item; each block an item places must be a registered
/// block (or air). The first name that is not found, in that order, refuses
/// the whole.
pub fn LinkAttributes(blocks: &BlockRegistry, items: &ItemRegistry) -> (r: Result<AttributeLinks, LinkError>)
    ensures
        match resolve(blocks.progress().drops, item_lookup(items.progress())) {
            Err(b) => r == Err::<AttributeLinks, LinkError>(LinkError::InvalidDropItem(b)),
            Ok(drops) => match resolve(blocks.progress().tools, item_lookup(items.progress())) {
                Err(b) => r == Err::<AttributeLinks, LinkError>(LinkError::InvalidEffectiveTool(b)),
                Ok(tools) => match resolve(items.progress().places, block_lookup(blocks.progress())) {
                    Err(i) => r == Err::<AttributeLinks, LinkError>(LinkError::InvalidPlaceableBlock(i)),
                    Ok(places) => r matches Ok(links) && links.DropItems@ == drops && links.EffectiveTools@ == tools
                        && links.PlaceBlocks@ == places,
                },
            },
        },
{
    let drops = match ResolveItems(&blocks.DropItems, items) {
        Ok(v) => v,
        Err(b) => {
            return Err(LinkError::InvalidDropItem(b));
        },
    };
    let tools = match ResolveItems(&blocks.EffectiveTools, items) {
        Ok(v) => v,
        Err(b) => {
            return Err(LinkError::InvalidEffectiveTool(b));
        },
    };
    let places = match ResolveBlocks(&items.PlaceBlocks, blocks) {
        Ok(v) => v,
        Err(i) => {
            return Err(LinkError::InvalidPlaceableBlock(i));
        },
    };
    Ok(AttributeLinks { DropItems: drops, EffectiveTools: tools, PlaceBlocks: places })
}

} // verus!
