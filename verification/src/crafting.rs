use vstd::prelude::*;

use crate::item::ItemId;
use crate::time::{self, skipped_start, unit_remaining, units_done, DurationMs, Timestamp, SECOND};

verus! {

// ── Categories ────────────────────────────────────────────────────────────

#[derive(Debug, Clone, Copy, PartialEq, Eq, Structural, Hash)]
pub enum CraftingCategory {
    Weapons,
    Armor,
    Accessories,
    Consumables,
    Food,
    Drinks,
}

impl CraftingCategory {
    pub fn label(self) -> (s: &'static str)
        ensures
            s@ == match self {
                CraftingCategory::Weapons => "Weapons"@,
                CraftingCategory::Armor => "Armor"@,
                CraftingCategory::Accessories => "Accessories"@,
                CraftingCategory::Consumables => "Consumables"@,
                CraftingCategory::Food => "Food"@,
                CraftingCategory::Drinks => "Drinks"@,
            },
    {
        match self {
            CraftingCategory::Weapons => "Weapons",
            CraftingCategory::Armor => "Armor",
            CraftingCategory::Accessories => "Accessories",
            CraftingCategory::Consumables => "Consumables",
            CraftingCategory::Food => "Food",
            CraftingCategory::Drinks => "Drinks",
        }
    }

    /// Every category, in tab order.
    pub fn all() -> (cats: [CraftingCategory; 6])
        ensures
            cats@ == seq![
                CraftingCategory::Weapons,
                CraftingCategory::Armor,
                CraftingCategory::Accessories,
                CraftingCategory::Consumables,
                CraftingCategory::Food,
                CraftingCategory::Drinks,
            ],
    {
        let cats = [
            CraftingCategory::Weapons,
            CraftingCategory::Armor,
            CraftingCategory::Accessories,
            CraftingCategory::Consumables,
            CraftingCategory::Food,
            CraftingCategory::Drinks,
        ];
        assert(cats@ =~= seq![
            CraftingCategory::Weapons,
            CraftingCategory::Armor,
            CraftingCategory::Accessories,
            CraftingCategory::Consumables,
            CraftingCategory::Food,
            CraftingCategory::Drinks,
        ]);
        cats
    }
}

// ── Recipes ───────────────────────────────────────────────────────────────

#[derive(Debug, Clone)]
pub struct CraftingRecipe {
    pub id: String,
    pub name: String,
    pub category: CraftingCategory,
    /// One or more ingredients with quantity per crafted unit.
    pub inputs: Vec<(ItemId, u32)>,
    pub output_id: ItemId,
    pub output_qty: u32,
    pub duration_per_unit: DurationMs,
}

// ── Active task ───────────────────────────────────────────────────────────

#[derive(Debug, Clone)]
pub struct CraftingTask {
    pub recipe_id: String,
    pub total_units: u32,
    pub completed_units: u32,
    pub started_at: Timestamp,
    pub duration_per_unit: DurationMs,
}

impl CraftingTask {
    /// How many units the timer says should be done at `now` (capped at total).
    pub fn expected_units_done_at(&self, now: Timestamp) -> (n: u32)
        requires
            self.duration_per_unit > 0,
        ensures
            n == units_done(self.started_at, self.duration_per_unit, self.total_units, now),
    {
        let elapsed = now.saturating_sub(self.started_at);
        let units = elapsed / self.duration_per_unit;
        if units >= self.total_units as u64 {
            self.total_units
        } else {
            units as u32
        }
    }

    /// How many units the timer says should be done so far (capped at total),
    /// judged by the system clock.
    pub fn expected_units_done(&self) -> (n: u32)
        requires
            self.duration_per_unit > 0,
        ensures
            n <= self.total_units,
            exists|t: Timestamp|
                #[trigger] units_done(self.started_at, self.duration_per_unit, self.total_units, t) == n,
    {
        let t = time::now();
        let n = self.expected_units_done_at(t);
        assert(units_done(self.started_at, self.duration_per_unit, self.total_units, t) == n);
        n
    }

    pub fn is_batch_done(&self) -> (b: bool)
        ensures
            b == (self.completed_units >= self.total_units),
    {
        self.completed_units >= self.total_units
    }

    /// Time remaining at `now` until the next unit completes (ms); 0 if the batch is done.
    pub fn next_unit_remaining_ms_at(&self, now: Timestamp) -> (ms: DurationMs)
        requires
            self.completed_units < self.total_units ==> (self.completed_units + 1) * self.duration_per_unit
                <= u64::MAX,
        ensures
            ms == unit_remaining(self.started_at, self.duration_per_unit, self.completed_units, self.total_units, now),
    {
        if self.is_batch_done() {
            return 0;
        }
        let elapsed = now.saturating_sub(self.started_at);
        let next_completion = (self.completed_units as u64 + 1) * self.duration_per_unit;
        next_completion.saturating_sub(elapsed)
    }

    /// Time remaining until the next unit completes (ms), judged by the system
    /// clock; 0 if the batch is done.
    pub fn next_unit_remaining_ms(&self) -> (ms: DurationMs)
        requires
            self.completed_units < self.total_units ==> (self.completed_units + 1) * self.duration_per_unit
                <= u64::MAX,
        ensures
            self.completed_units >= self.total_units ==> ms == 0,
            ms <= (self.completed_units + 1) * self.duration_per_unit,
    {
        let t = time::now();
        self.next_unit_remaining_ms_at(t)
    }
}

// ── Crafting state — single shared slot ──────────────────────────────────

#[derive(Debug, Clone)]
pub struct CraftingState {
    pub bench: Option<CraftingTask>,
}

impl Default for CraftingState {
    fn default() -> (s: Self)
        ensures
            s.bench is None,
    {
        CraftingState { bench: None }
    }
}

impl CraftingState {
    pub fn is_busy(&self) -> (b: bool)
        ensures
            b == self.bench is Some,
    {
        self.bench.is_some()
    }

    /// Starts a batch at time `now` unless the bench is busy; returns whether it started.
    pub fn start_at(
        &mut self,
        recipe_id: String,
        total_units: u32,
        duration_per_unit: DurationMs,
        now: Timestamp,
    ) -> (started: bool)
        ensures
            started == old(self).bench is None,
            !started ==> *final(self) == *old(self),
            started ==> final(self).bench == Some(
                CraftingTask { recipe_id, total_units, completed_units: 0, started_at: now, duration_per_unit },
            ),
    {
        if self.is_busy() {
            return false;
        }
        self.bench = Some(CraftingTask {
            recipe_id,
            total_units,
            completed_units: 0,
            started_at: now,
            duration_per_unit,
        });
        true
    }

    /// Starts a batch now unless the bench is busy; returns whether it started.
    pub fn start(&mut self, recipe_id: String, total_units: u32, duration_per_unit: DurationMs) -> (started: bool)
        ensures
            started == old(self).bench is None,
            !started ==> *final(self) == *old(self),
            started ==> (final(self).bench matches Some(task) && task.recipe_id == recipe_id
                && task.total_units == total_units && task.completed_units == 0
                && task.duration_per_unit == duration_per_unit),
    {
        let t = time::now();
        self.start_at(recipe_id, total_units, duration_per_unit, t)
    }

    /// Back-dates the running task (as seen at `now`) so its whole batch reads as finished.
    pub fn dev_skip_at(&mut self, now: Timestamp)
        requires
            old(self).bench matches Some(task) ==> task.duration_per_unit * task.total_units + 1 <= u64::MAX,
        ensures
            old(self).bench is None ==> *final(self) == *old(self),
            old(self).bench matches Some(task) ==> final(self).bench == Some(
                CraftingTask {
                    started_at: skipped_start(task.duration_per_unit, task.total_units, now) as u64,
                    ..task
                },
            ),
    {
        if let Some(task) = &mut self.bench {
            let needed = task.duration_per_unit * task.total_units as u64 + 1;
            task.started_at = now.saturating_sub(needed);
        }
    }

    /// Whether `dev_skip` can back-date the running task: the batch's
    /// length, plus one millisecond, fits a `u64`.
    pub fn can_skip(&self) -> (b: bool)
        ensures
            b == (self.bench matches Some(task) ==> task.duration_per_unit * task.total_units + 1 <= u64::MAX),
    {
        match &self.bench {
            Some(task) => {
                let d = task.duration_per_unit as u128;
                let n = task.total_units as u128;
                proof {
                    assert(d * n <= 0xffff_ffff_ffff_ffffu128 * 0xffff_ffffu128) by (nonlinear_arith)
                        requires
                            d <= 0xffff_ffff_ffff_ffffu128,
                            n <= 0xffff_ffffu128,
                    ;
                }
                d * n + 1 <= 0xffff_ffff_ffff_ffffu128
            },
            None => true,
        }
    }

    /// Back-dates the running task so its whole batch reads as finished.
    pub fn dev_skip(&mut self)
        requires
            old(self).bench matches Some(task) ==> task.duration_per_unit * task.total_units + 1 <= u64::MAX,
        ensures
            old(self).bench is None ==> *final(self) == *old(self),
            old(self).bench matches Some(task) ==> (final(self).bench matches Some(t) && t == (
            CraftingTask { started_at: t.started_at, ..task })),
            old(self).bench matches Some(task) ==> exists|now: Timestamp|
                #[trigger] skipped_start(task.duration_per_unit, task.total_units, now) == final(self).bench->0.started_at,
    {
        let t = time::now();
        self.dev_skip_at(t);
        proof {
            if old(self).bench is Some {
                let task = old(self).bench->0;
                assert(skipped_start(task.duration_per_unit, task.total_units, t) == self.bench->0.started_at);
            }
        }
    }
}

// ── Recipe data ───────────────────────────────────────────────────────────

/// The ingredient list of a recipe, by item id and quantity.
pub open spec fn inputs_view(inputs: Seq<(ItemId, u32)>) -> Seq<(Seq<char>, u32)> {
    inputs.map_values(|e: (ItemId, u32)| (e.0@, e.1))
}

/// A recipe that crafts one unit of the item named like the recipe itself.
pub open spec fn is_recipe(
    r: CraftingRecipe,
    id: Seq<char>,
    name: Seq<char>,
    category: CraftingCategory,
    inputs: Seq<(Seq<char>, u32)>,
    duration_per_unit: int,
) -> bool {
    &&& r.id@ == id
    &&& r.name@ == name
    &&& r.category == category
    &&& inputs_view(r.inputs@) == inputs
    &&& r.output_id@ == id
    &&& r.output_qty == 1
    &&& r.duration_per_unit == duration_per_unit
}

fn input(id: &str, qty: u32) -> (e: (ItemId, u32))
    ensures
        e.0@ == id@,
        e.1 == qty,
{
    (id.to_string(), qty)
}

fn recipe(
    id: &str,
    name: &str,
    category: CraftingCategory,
    inputs: Vec<(ItemId, u32)>,
    duration_per_unit: DurationMs,
) -> (r: CraftingRecipe)
    ensures
        r.id@ == id@,
        r.name@ == name@,
        r.category == category,
        r.inputs == inputs,
        r.output_id@ == id@,
        r.output_qty == 1,
        r.duration_per_unit == duration_per_unit,
{
    CraftingRecipe {
        id: id.to_string(),
        name: name.to_string(),
        category,
        inputs,
        output_id: id.to_string(),
        output_qty: 1,
        duration_per_unit,
    }
}

/// The game's crafting recipe book, recipe by recipe.
pub open spec fn is_crafting_book(b: Seq<CraftingRecipe>) -> bool {
    &&& b.len() == 17
    &&& is_recipe(b[0], "wooden_club"@, "Wooden Club"@, CraftingCategory::Weapons, seq![("planks"@, 3u32)], 45 * SECOND)
    &&& is_recipe(b[1], "hunters_bow"@, "Hunter's Bow"@, CraftingCategory::Weapons, seq![("planks"@, 2u32), ("kindling"@, 1u32)], 60 * SECOND)
    &&& is_recipe(b[2], "herbalists_staff"@, "Herbalist's Staff"@, CraftingCategory::Weapons, seq![("planks"@, 2u32), ("crushed_herbs"@, 2u32)], 60 * SECOND)
    &&& is_recipe(b[3], "bark_vest"@, "Bark Vest"@, CraftingCategory::Armor, seq![("planks"@, 4u32)], 60 * SECOND)
    &&& is_recipe(b[4], "herb_cloak"@, "Herb Cloak"@, CraftingCategory::Armor, seq![("dried_herbs"@, 3u32), ("planks"@, 1u32)], 90 * SECOND)
    &&& is_recipe(b[5], "berry_pendant"@, "Berry Pendant"@, CraftingCategory::Accessories, seq![("dried_berries"@, 5u32), ("kindling"@, 1u32)], 45 * SECOND)
    &&& is_recipe(b[6], "heartwood_charm"@, "Heartwood Charm"@, CraftingCategory::Accessories, seq![("heartwood"@, 1u32), ("planks"@, 2u32)], 120 * SECOND)
    &&& is_recipe(b[7], "hearty_stew"@, "Hearty Stew"@, CraftingCategory::Food, seq![("dried_herbs"@, 2u32), ("dried_berries"@, 1u32), ("kindling"@, 1u32)], 60 * SECOND)
    &&& is_recipe(b[8], "berry_tart"@, "Berry Tart"@, CraftingCategory::Food, seq![("dried_berries"@, 3u32), ("planks"@, 1u32)], 45 * SECOND)
    &&& is_recipe(b[9], "herb_bread"@, "Herb Bread"@, CraftingCategory::Food, seq![("dried_herbs"@, 2u32), ("kindling"@, 2u32)], 45 * SECOND)
    &&& is_recipe(b[10], "berry_cordial"@, "Berry Cordial"@, CraftingCategory::Drinks, seq![("berry_juice"@, 2u32), ("dried_berries"@, 1u32)], 45 * SECOND)
    &&& is_recipe(b[11], "herbal_tea"@, "Herbal Tea"@, CraftingCategory::Drinks, seq![("crushed_herbs"@, 1u32), ("kindling"@, 1u32)], 30 * SECOND)
    &&& is_recipe(b[12], "minor_healing_potion"@, "Minor Healing Potion"@, CraftingCategory::Consumables, seq![("crushed_herbs"@, 2u32), ("berry_juice"@, 1u32)], 30 * SECOND)
    &&& is_recipe(b[13], "healing_potion"@, "Healing Potion"@, CraftingCategory::Consumables, seq![("crushed_herbs"@, 4u32), ("berry_juice"@, 2u32)], 60 * SECOND)
    &&& is_recipe(b[14], "strength_tonic"@, "Strength Tonic"@, CraftingCategory::Consumables, seq![("crushed_herbs"@, 2u32), ("kindling"@, 1u32)], 45 * SECOND)
    &&& is_recipe(b[15], "swiftfoot_elixir"@, "Swiftfoot Elixir"@, CraftingCategory::Consumables, seq![("crushed_herbs"@, 2u32), ("berry_juice"@, 1u32)], 45 * SECOND)
    &&& is_recipe(b[16], "magespark_draught"@, "Magespark Draught"@, CraftingCategory::Consumables, seq![("crushed_herbs"@, 3u32), ("dried_herbs"@, 1u32)], 45 * SECOND)
}

/// The crafting recipes of the first phase of the game.
#[verifier::rlimit(50)]
pub fn register_recipes() -> (book: Vec<CraftingRecipe>)
    ensures
        is_crafting_book(book@),
{
    let mut book: Vec<CraftingRecipe> = Vec::new();
    let mut inputs: Vec<(ItemId, u32)> = Vec::new();
    inputs.push(input("planks", 3));
    assert(inputs_view(inputs@) =~= seq![("planks"@, 3u32)]);
    book.push(recipe("wooden_club", "Wooden Club", CraftingCategory::Weapons, inputs, 45 * SECOND));
    let mut inputs: Vec<(ItemId, u32)> = Vec::new();
    inputs.push(input("planks", 2)); inputs.push(input("kindling", 1));
    assert(inputs_view(inputs@) =~= seq![("planks"@, 2u32), ("kindling"@, 1u32)]);
    book.push(recipe("hunters_bow", "Hunter's Bow", CraftingCategory::Weapons, inputs, 60 * SECOND));
    let mut inputs: Vec<(ItemId, u32)> = Vec::new();
    inputs.push(input("planks", 2)); inputs.push(input("crushed_herbs", 2));
    assert(inputs_view(inputs@) =~= seq![("planks"@, 2u32), ("crushed_herbs"@, 2u32)]);
    book.push(recipe("herbalists_staff", "Herbalist's Staff", CraftingCategory::Weapons, inputs, 60 * SECOND));
    let mut inputs: Vec<(ItemId, u32)> = Vec::new();
    inputs.push(input("planks", 4));
    assert(inputs_view(inputs@) =~= seq![("planks"@, 4u32)]);
    book.push(recipe("bark_vest", "Bark Vest", CraftingCategory::Armor, inputs, 60 * SECOND));
    let mut inputs: Vec<(ItemId, u32)> = Vec::new();
    inputs.push(input("dried_herbs", 3)); inputs.push(input("planks", 1));
    assert(inputs_view(inputs@) =~= seq![("dried_herbs"@, 3u32), ("planks"@, 1u32)]);
    book.push(recipe("herb_cloak", "Herb Cloak", CraftingCategory::Armor, inputs, 90 * SECOND));
    let mut inputs: Vec<(ItemId, u32)> = Vec::new();
    inputs.push(input("dried_berries", 5)); inputs.push(input("kindling", 1));
    assert(inputs_view(inputs@) =~= seq![("dried_berries"@, 5u32), ("kindling"@, 1u32)]);
    book.push(recipe("berry_pendant", "Berry Pendant", CraftingCategory::Accessories, inputs, 45 * SECOND));
    let mut inputs: Vec<(ItemId, u32)> = Vec::new();
    inputs.push(input("heartwood", 1)); inputs.push(input("planks", 2));
    assert(inputs_view(inputs@) =~= seq![("heartwood"@, 1u32), ("planks"@, 2u32)]);
    book.push(recipe("heartwood_charm", "Heartwood Charm", CraftingCategory::Accessories, inputs, 120 * SECOND));
    let mut inputs: Vec<(ItemId, u32)> = Vec::new();
    inputs.push(input("dried_herbs", 2)); inputs.push(input("dried_berries", 1)); inputs.push(input("kindling", 1));
    assert(inputs_view(inputs@) =~= seq![("dried_herbs"@, 2u32), ("dried_berries"@, 1u32), ("kindling"@, 1u32)]);
    book.push(recipe("hearty_stew", "Hearty Stew", CraftingCategory::Food, inputs, 60 * SECOND));
    let mut inputs: Vec<(ItemId, u32)> = Vec::new();
    inputs.push(input("dried_berries", 3)); inputs.push(input("planks", 1));
    assert(inputs_view(inputs@) =~= seq![("dried_berries"@, 3u32), ("planks"@, 1u32)]);
    book.push(recipe("berry_tart", "Berry Tart", CraftingCategory::Food, inputs, 45 * SECOND));
    let mut inputs: Vec<(ItemId, u32)> = Vec::new();
    inputs.push(input("dried_herbs", 2)); inputs.push(input("kindling", 2));
    assert(inputs_view(inputs@) =~= seq![("dried_herbs"@, 2u32), ("kindling"@, 2u32)]);
    book.push(recipe("herb_bread", "Herb Bread", CraftingCategory::Food, inputs, 45 * SECOND));
    let mut inputs: Vec<(ItemId, u32)> = Vec::new();
    inputs.push(input("berry_juice", 2)); inputs.push(input("dried_berries", 1));
    assert(inputs_view(inputs@) =~= seq![("berry_juice"@, 2u32), ("dried_berries"@, 1u32)]);
    book.push(recipe("berry_cordial", "Berry Cordial", CraftingCategory::Drinks, inputs, 45 * SECOND));
    let mut inputs: Vec<(ItemId, u32)> = Vec::new();
    inputs.push(input("crushed_herbs", 1)); inputs.push(input("kindling", 1));
    assert(inputs_view(inputs@) =~= seq![("crushed_herbs"@, 1u32), ("kindling"@, 1u32)]);
    book.push(recipe("herbal_tea", "Herbal Tea", CraftingCategory::Drinks, inputs, 30 * SECOND));
    let mut inputs: Vec<(ItemId, u32)> = Vec::new();
    inputs.push(input("crushed_herbs", 2)); inputs.push(input("berry_juice", 1));
    assert(inputs_view(inputs@) =~= seq![("crushed_herbs"@, 2u32), ("berry_juice"@, 1u32)]);
    book.push(recipe("minor_healing_potion", "Minor Healing Potion", CraftingCategory::Consumables, inputs, 30 * SECOND));
    let mut inputs: Vec<(ItemId, u32)> = Vec::new();
    inputs.push(input("crushed_herbs", 4)); inputs.push(input("berry_juice", 2));
    assert(inputs_view(inputs@) =~= seq![("crushed_herbs"@, 4u32), ("berry_juice"@, 2u32)]);
    book.push(recipe("healing_potion", "Healing Potion", CraftingCategory::Consumables, inputs, 60 * SECOND));
    let mut inputs: Vec<(ItemId, u32)> = Vec::new();
    inputs.push(input("crushed_herbs", 2)); inputs.push(input("kindling", 1));
    assert(inputs_view(inputs@) =~= seq![("crushed_herbs"@, 2u32), ("kindling"@, 1u32)]);
    book.push(recipe("strength_tonic", "Strength Tonic", CraftingCategory::Consumables, inputs, 45 * SECOND));
    let mut inputs: Vec<(ItemId, u32)> = Vec::new();
    inputs.push(input("crushed_herbs", 2)); inputs.push(input("berry_juice", 1));
    assert(inputs_view(inputs@) =~= seq![("crushed_herbs"@, 2u32), ("berry_juice"@, 1u32)]);
    book.push(recipe("swiftfoot_elixir", "Swiftfoot Elixir", CraftingCategory::Consumables, inputs, 45 * SECOND));
    let mut inputs: Vec<(ItemId, u32)> = Vec::new();
    inputs.push(input("crushed_herbs", 3)); inputs.push(input("dried_herbs", 1));
    assert(inputs_view(inputs@) =~= seq![("crushed_herbs"@, 3u32), ("dried_herbs"@, 1u32)]);
    book.push(recipe("magespark_draught", "Magespark Draught", CraftingCategory::Consumables, inputs, 45 * SECOND));
    book
}

} // verus!
