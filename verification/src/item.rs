//! Items and the ordered, exclusively-owned bags that hold them.

use vstd::prelude::*;

verus! {

/// What using an item does.
#[derive(Clone, Debug)]
pub enum ItemEffect {
    ChangeHealth(i32),
    Message(String),
}

/// Body locations an item can be worn on.
#[derive(Clone, Copy, Debug, PartialEq, Eq, Structural)]
pub enum WearLoc {
    Head,
    Torso,
    Legs,
    Shoulders,
    Hands,
    Hand,
}

/// A carried object. Its identity is its position within an inventory.
#[derive(Clone, Debug)]
pub struct Item {
    pub name: String,
    pub description: String,
    pub on_use: Vec<ItemEffect>,
    pub wearable: Vec<WearLoc>,
    pub consumable: bool,
}

impl Item {
    /// A plain item with no effects, not wearable, not consumable.
    pub fn new(name: String, description: String) -> (it: Item)
        ensures
            it.name@ == name@,
            it.description@ == description@,
            it.on_use@ =~= Seq::<ItemEffect>::empty(),
            it.wearable@ =~= Seq::<WearLoc>::empty(),
            !it.consumable,
    {
        Item { name, description, on_use: Vec::new(), wearable: Vec::new(), consumable: false }
    }

    /// A consumable potion restoring three health when used.
    pub fn healing_potion() -> (it: Item)
        ensures
            it.name@ == "healing potion"@,
            it.description@ == "It's a healing potion!"@,
            it.on_use@.len() == 1,
            it.on_use@[0] matches ItemEffect::ChangeHealth(n) && n == 3,
            it.wearable@ =~= Seq::<WearLoc>::empty(),
            it.consumable,
    {
        let mut on_use: Vec<ItemEffect> = Vec::new();
        on_use.push(ItemEffect::ChangeHealth(3));
        Item {
            name: "healing potion".to_owned(),
            description: "It's a healing potion!".to_owned(),
            on_use,
            wearable: Vec::new(),
            consumable: true,
        }
    }
}

/// An ordered bag of items. An item belongs to exactly one inventory at a
/// time: transfers move, they never copy.
#[derive(Clone, Debug)]
pub struct Inventory {
    pub items: Vec<Item>,
}

impl View for Inventory {
    type V = Seq<Item>;

    open spec fn view(&self) -> Seq<Item> {
        self.items@
    }
}

impl Inventory {
    /// An empty inventory.
    pub fn new() -> (inv: Inventory)
        ensures
            inv@ =~= Seq::<Item>::empty(),
    {
        Inventory { items: Vec::new() }
    }

    /// Appends an item at the end of the bag.
    pub fn add_item(&mut self, item: Item)
        ensures
            final(self)@ == old(self)@.push(item),
    {
        self.items.push(item);
    }

    /// Removes and returns the item at `idx`, shifting later items down.
    pub fn remove_item(&mut self, idx: i32) -> (it: Item)
        requires
            0 <= idx < old(self)@.len(),
        ensures
            it == old(self)@[idx as int],
            final(self)@ == old(self)@.remove(idx as int),
    {
        self.items.remove(idx as usize)
    }

    /// A reference to the item at `idx`.
    pub fn get_item(&self, idx: i32) -> (it: &Item)
        requires
            0 <= idx < self@.len(),
        ensures
            *it == self@[idx as int],
    {
        &self.items[idx as usize]
    }

    /// The number of items held.
    pub fn len(&self) -> (n: usize)
        ensures
            n == self@.len(),
    {
        self.items.len()
    }
}

/// Moves the item at `idx` out of `src` and appends it to `dst`: exactly one
/// item leaves exactly one bag and enters exactly one other, so the total
/// count over the two bags is conserved.
pub fn transfer_item(src: &mut Inventory, dst: &mut Inventory, idx: i32)
    requires
        0 <= idx < old(src)@.len(),
    ensures
        final(src)@ == old(src)@.remove(idx as int),
        final(dst)@ == old(dst)@.push(old(src)@[idx as int]),
        final(src)@.len() + final(dst)@.len() == old(src)@.len() + old(dst)@.len(),
{
    let it = src.remove_item(idx);
    dst.add_item(it);
}

} // verus!
