use vstd::prelude::*;
use super::itemRegistry::ItemRegistry;
use super::attributes::item_named;

verus! {

/// The identifier of an item type.
#[derive(Clone, Copy, Debug, PartialEq, Eq, Hash, Structural)]
pub struct ItemID {
    pub ID: u8,
}

impl ItemID {
    pub fn New(id: u8) -> (r: Self)
        ensures
            r.ID == id,
    {
        Self { ID: id }
    }
}

/// An item: its type. (Item types' custom attributes stay with the item
/// registry, outside this library.)
#[derive(Clone, Copy, Debug, PartialEq, Eq, Structural)]
pub struct Item {
    pub ItemID: ItemID,
}

impl Item {
    /// The item of registered type `itemID`.
    pub fn FromID(itemID: u8, itemRegistry: &ItemRegistry) -> (r: Self)
        requires
            exists|k: int| 0 <= k < itemRegistry.progress().entries.len() && #[trigger] itemRegistry.progress().entries[k].ID == itemID,
        ensures
            r.ItemID.ID == itemID,
    {
        Item { ItemID: ItemID::New(itemID) }
    }

    /// The item of the registered type called `itemName`.
    pub fn FromName(itemName: &String, itemRegistry: &ItemRegistry) -> (r: Self)
        requires
            item_named(itemRegistry.progress().entries, itemName@) is Some,
        ensures
            item_named(itemRegistry.progress().entries, itemName@) == Some(r.ItemID.ID),
    {
        let id = itemRegistry.NameToID(itemName);
        Item { ItemID: ItemID::New(id) }
    }
}

/// A count of items of one type.
#[derive(Clone, Copy, Debug, PartialEq, Eq, Structural)]
pub struct ItemStack {
    pub Item: Item,
    pub Count: u32,
}

/// Whether pushing `item` on `s` adds it: it is of the stack's type and the
/// count has not gone past `stackSize`.
pub open spec fn pushes(s: ItemStack, item: Item, stackSize: u32) -> bool {
    item.ItemID == s.Item.ItemID && s.Count <= stackSize
}

/// The stack after pushing `item` on `s`: one more item where it is added.
pub open spec fn after_push(s: ItemStack, item: Item, stackSize: u32) -> ItemStack {
    if pushes(s, item, stackSize) {
        ItemStack { Item: s.Item, Count: (s.Count + 1) as u32 }
    } else {
        s
    }
}

/// The stack after popping `s`: one item fewer, unless it is empty.
pub open spec fn after_pop(s: ItemStack) -> ItemStack {
    if s.Count > 0 {
        ItemStack { Item: s.Item, Count: (s.Count - 1) as u32 }
    } else {
        s
    }
}

impl ItemStack {
    /// A stack of one `item`.
    pub fn New(item: Item) -> (r: Self)
        ensures
            r.Item == item,
            r.Count == 1,
    {
        Self { Item: item, Count: 1 }
    }

    /// Adds `item` to the stack if it is of the stack's type and the count
    /// has not gone past `stackSize`, the stack size that the item registry
    /// gives the stack's item type; answers whether it was added.
    pub fn Push(&mut self, item: &Item, stackSize: u32) -> (r: bool)
        requires
            old(self).Count <= stackSize ==> old(self).Count < u32::MAX,
        ensures
            r == pushes(*old(self), *item, stackSize),
            *final(self) == after_push(*old(self), *item, stackSize),
    {
        if item.ItemID == self.Item.ItemID && self.Count <= stackSize {
            self.Count += 1;
            return true;
        }
        false
    }

    /// Takes one item off the stack if it is not empty; answers whether one was taken.
    pub fn Pop(&mut self) -> (r: bool)
        ensures
            r == (old(self).Count > 0),
            *final(self) == after_pop(*old(self)),
    {
        if self.Count <= 0 {
            return false;
        }
        self.Count -= 1;
        true
    }
}

/// Popping the item that a push added leaves the stack as it was.
pub proof fn law_pop_undoes_push(s: ItemStack, item: Item, stackSize: u32)
    requires
        pushes(s, item, stackSize),
        s.Count < u32::MAX,
    ensures
        after_pop(after_push(s, item, stackSize)) == s,
{
}

} // verus!
