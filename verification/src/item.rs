use vstd::prelude::*;

verus! {

/// Items are named by a string key such as `"planks"`.
pub type ItemId = String;

/// Broad family an item belongs to.
#[derive(Debug, Clone, Copy, PartialEq, Eq, Structural)]
pub enum ItemCategory {
    Material,
    Weapon,
    Armor,
    Accessory,
    Consumable,
    Food,
    Drink,
}

/// How rare an item is, from most to least common.
#[derive(Debug, Clone, Copy, PartialEq, Eq, Structural, Hash)]
pub enum Rarity {
    Common,
    Uncommon,
    Rare,
    VeryRare,
}

/// Position of a rarity in the order most common first.
pub open spec fn rarity_rank(r: Rarity) -> int {
    match r {
        Rarity::Common => 0,
        Rarity::Uncommon => 1,
        Rarity::Rare => 2,
        Rarity::VeryRare => 3,
    }
}

/// Executable form of `rarity_rank`.
pub fn rarity_order(r: Rarity) -> (n: u8)
    ensures
        n == rarity_rank(r),
{
    match r {
        Rarity::Common => 0,
        Rarity::Uncommon => 1,
        Rarity::Rare => 2,
        Rarity::VeryRare => 3,
    }
}

/// Stat bonuses granted by a piece of gear while it is equipped.
#[derive(Debug, Clone, Copy, PartialEq, Eq, Structural)]
pub struct GearStats {
    pub hp: i32,
    pub strength: i32,
    pub dexterity: i32,
    pub intellect: i32,
}

/// Extra behaviour attached to an item definition.
#[derive(Debug, Clone)]
pub struct ItemProperties {
    pub gear_stats: Option<GearStats>,
}

/// Static description of an item kind.
#[derive(Debug, Clone)]
pub struct ItemDef {
    pub id: ItemId,
    pub name: String,
    pub category: ItemCategory,
    pub rarity: Rarity,
    pub gold_value: u32,
    pub tags: Vec<String>,
    pub properties: ItemProperties,
}

/// The first definition in `defs` whose id is `id`, if any.
pub open spec fn find_def(defs: Seq<ItemDef>, id: Seq<char>) -> Option<ItemDef>
    decreases defs.len(),
{
    if defs.len() == 0 {
        None
    } else if defs[0].id@ == id {
        Some(defs[0])
    } else {
        find_def(defs.drop_first(), id)
    }
}

/// All item definitions known to the game.
#[derive(Debug, Clone)]
pub struct ItemRegistry {
    pub items: Vec<ItemDef>,
}

impl ItemRegistry {
    /// The definition registered under `id`, if any.
    pub open spec fn lookup(&self, id: Seq<char>) -> Option<ItemDef> {
        find_def(self.items@, id)
    }

    /// Looks up the definition registered under `id`.
    pub fn get(&self, id: &ItemId) -> (r: Option<&ItemDef>)
        ensures
            match r {
                Some(d) => self.lookup(id@) == Some(*d),
                None => self.lookup(id@) is None,
            },
    {
        let mut i: usize = 0;
        assert(self.items@.subrange(0, self.items@.len() as int) =~= self.items@);
        while i < self.items.len()
            invariant
                i <= self.items.len(),
                find_def(self.items@, id@) == find_def(self.items@.subrange(i as int, self.items@.len() as int), id@),
            decreases self.items.len() - i,
        {
            let ghost rest = self.items@.subrange(i as int, self.items@.len() as int);
            assert(rest.drop_first() =~= self.items@.subrange(i + 1, self.items@.len() as int));
            if self.items[i].id == *id {
                return Some(&self.items[i]);
            }
            i += 1;
        }
        None
    }
}

} // verus!
