use vstd::prelude::*;

use crate::crafting::CraftingRecipe;
use crate::inventory::{count_of, Inventory};
use crate::item::ItemId;
use crate::refining::{RefiningRecipe, StationKind};

verus! {

/// Whether the inventory holds every ingredient of the recipe for one unit.
pub fn recipe_is_craftable(recipe: &CraftingRecipe, inventory: &Inventory) -> (b: bool)
    ensures
        b == (forall|i: int|
            0 <= i < recipe.inputs@.len() ==> count_of(inventory@, #[trigger] recipe.inputs@[i].0@)
                >= recipe.inputs@[i].1),
{
    inventory.has_all(recipe.inputs.as_slice())
}

/// Fewest whole units any of the first `n` ingredients allows (ingredients
/// needing zero are ignored), starting from `u32::MAX` when none limits.
pub open spec fn fewest_units(inventory: Map<Seq<char>, u32>, inputs: Seq<(ItemId, u32)>, n: int) -> int
    decreases n,
{
    if n <= 0 || n > inputs.len() {
        u32::MAX as int
    } else {
        let rest = fewest_units(inventory, inputs, n - 1);
        let e = inputs[n - 1];
        if e.1 == 0 {
            rest
        } else {
            let possible = count_of(inventory, e.0@) / e.1;
            if possible < rest {
                possible as int
            } else {
                rest
            }
        }
    }
}

/// Whether one of the first `n` ingredients is needed at all (a positive quantity).
pub open spec fn limited(inputs: Seq<(ItemId, u32)>, n: int) -> bool
    decreases n,
{
    if n <= 0 || n > inputs.len() {
        false
    } else {
        limited(inputs, n - 1) || inputs[n - 1].1 > 0
    }
}

/// How many units of a recipe the inventory can pay for: the fewest whole
/// units any needed ingredient allows; zero when no ingredient is needed.
pub open spec fn affordable_units(inventory: Map<Seq<char>, u32>, inputs: Seq<(ItemId, u32)>) -> int {
    if limited(inputs, inputs.len() as int) {
        fewest_units(inventory, inputs, inputs.len() as int)
    } else {
        0
    }
}

/// Among the first `n` ingredients, when one is needed, the fewest units is
/// what some needed ingredient allows.
proof fn lemma_fewest_attained(inventory: Map<Seq<char>, u32>, inputs: Seq<(ItemId, u32)>, n: int)
    requires
        0 <= n <= inputs.len(),
        limited(inputs, n),
    ensures
        exists|i: int|
            0 <= i < n && inputs[i].1 > 0 && fewest_units(inventory, inputs, n) == (count_of(
                inventory,
                #[trigger] inputs[i].0@,
            ) as int) / (inputs[i].1 as int),
    decreases n,
{
    let e = inputs[n - 1];
    let rest = fewest_units(inventory, inputs, n - 1);
    lemma_fewest_units_bounded(inventory, inputs, n - 1);
    if limited(inputs, n - 1) {
        lemma_fewest_attained(inventory, inputs, n - 1);
        let j = choose|i: int|
            0 <= i < n - 1 && inputs[i].1 > 0 && rest == (count_of(inventory, #[trigger] inputs[i].0@) as int) / (
            inputs[i].1 as int);
        if e.1 > 0 && count_of(inventory, e.0@) / e.1 < rest {
            assert(fewest_units(inventory, inputs, n) == (count_of(inventory, inputs[n - 1].0@) as int) / (
            inputs[n - 1].1 as int));
        } else {
            assert(fewest_units(inventory, inputs, n) == rest);
            assert(fewest_units(inventory, inputs, n) == (count_of(inventory, inputs[j].0@) as int) / (
            inputs[j].1 as int));
        }
    } else {
        assert(e.1 > 0);
        assert(rest == u32::MAX) by {
            lemma_fewest_unlimited(inventory, inputs, n - 1);
        }
        assert(fewest_units(inventory, inputs, n) == (count_of(inventory, inputs[n - 1].0@) as int) / (
        inputs[n - 1].1 as int));
    }
}

proof fn lemma_fewest_unlimited(inventory: Map<Seq<char>, u32>, inputs: Seq<(ItemId, u32)>, n: int)
    requires
        0 <= n <= inputs.len(),
        !limited(inputs, n),
    ensures
        fewest_units(inventory, inputs, n) == u32::MAX,
    decreases n,
{
    if n > 0 {
        lemma_fewest_unlimited(inventory, inputs, n - 1);
    }
}

proof fn lemma_fewest_units_bounded(inventory: Map<Seq<char>, u32>, inputs: Seq<(ItemId, u32)>, n: int)
    ensures
        0 <= fewest_units(inventory, inputs, n) <= u32::MAX,
    decreases n,
{
    if n > 0 && n <= inputs.len() {
        lemma_fewest_units_bounded(inventory, inputs, n - 1);
    }
}

/// Maximum number of units the player can afford to craft for a recipe.
pub fn max_craft_quantity(inventory: &Inventory, recipe: &CraftingRecipe) -> (n: u32)
    ensures
        n == affordable_units(inventory@, recipe.inputs@),
{
    let mut min_max: u32 = u32::MAX;
    let mut limits = false;
    let mut i: usize = 0;
    while i < recipe.inputs.len()
        invariant
            i <= recipe.inputs@.len(),
            min_max == fewest_units(inventory@, recipe.inputs@, i as int),
            limits == limited(recipe.inputs@, i as int),
        decreases recipe.inputs.len() - i,
    {
        let qty = recipe.inputs[i].1;
        if qty != 0 {
            let have = inventory.count(&recipe.inputs[i].0);
            let possible = have / qty;
            if possible < min_max {
                min_max = possible;
            }
            limits = true;
        }
        i += 1;
    }
    if limits {
        min_max
    } else {
        0
    }
}

/// Maximum number of units the player can afford to craft for a recipe, as
/// shown on the crafting details panel.
pub fn max_craft_quantity_for_recipe(inventory: &Inventory, recipe: &CraftingRecipe) -> (n: u32)
    ensures
        n == affordable_units(inventory@, recipe.inputs@),
{
    max_craft_quantity(inventory, recipe)
}

/// Maximum number of units the player can afford to refine for a recipe.
pub fn max_quantity_for_recipe(inventory: &Inventory, recipe: &RefiningRecipe) -> (n: u32)
    ensures
        recipe.input_qty == 0 ==> n == 0,
        recipe.input_qty > 0 ==> n == count_of(inventory@, recipe.input_id@) / recipe.input_qty,
{
    if recipe.input_qty == 0 {
        return 0;
    }
    inventory.count(&recipe.input_id) / recipe.input_qty
}

/// What the stock affords is a count between zero and `u32::MAX`.
pub proof fn lemma_affordable_bounded(inventory: Map<Seq<char>, u32>, inputs: Seq<(ItemId, u32)>)
    ensures
        0 <= affordable_units(inventory, inputs) <= u32::MAX,
{
    lemma_fewest_units_bounded(inventory, inputs, inputs.len() as int);
}

/// Affording the computed number of units never asks for more of any
/// ingredient than the inventory holds.
pub proof fn lemma_affordable_within_stock(inventory: Map<Seq<char>, u32>, inputs: Seq<(ItemId, u32)>, i: int)
    requires
        0 <= i < inputs.len(),
    ensures
        affordable_units(inventory, inputs) * inputs[i].1 <= count_of(inventory, inputs[i].0@),
{
    lemma_fewest_below(inventory, inputs, inputs.len() as int, i);
    let m = affordable_units(inventory, inputs);
    let q = inputs[i].1 as int;
    let c = count_of(inventory, inputs[i].0@) as int;
    lemma_fewest_units_bounded(inventory, inputs, inputs.len() as int);
    if q > 0 {
        assert(m <= c / q);
        assert(m * q <= (c / q) * q) by (nonlinear_arith)
            requires
                0 <= m <= c / q,
                q > 0,
        ;
        assert((c / q) * q <= c) by (nonlinear_arith)
            requires
                q > 0,
                c >= 0,
        ;
    } else {
        assert(m * q == 0) by (nonlinear_arith)
            requires
                q == 0,
        ;
    }
}

/// When the inventory can pay for at least one unit, every ingredient is on hand.
pub proof fn lemma_affordable_means_craftable(inventory: Map<Seq<char>, u32>, inputs: Seq<(ItemId, u32)>)
    requires
        affordable_units(inventory, inputs) >= 1,
    ensures
        forall|i: int| 0 <= i < inputs.len() ==> count_of(inventory, #[trigger] inputs[i].0@) >= inputs[i].1,
{
    assert forall|i: int| 0 <= i < inputs.len() implies count_of(inventory, #[trigger] inputs[i].0@) >= inputs[i].1 by {
        lemma_affordable_within_stock(inventory, inputs, i);
        let m = affordable_units(inventory, inputs);
        let q = inputs[i].1 as int;
        assert(m * q >= q) by (nonlinear_arith)
            requires
                m >= 1,
                q >= 0,
        ;
    }
}

/// When some ingredient is needed, one more unit than the computed number
/// would ask for more of a needed ingredient than the inventory holds: the
/// number is the largest batch the inventory pays for.
pub proof fn lemma_affordable_is_largest(inventory: Map<Seq<char>, u32>, inputs: Seq<(ItemId, u32)>)
    requires
        limited(inputs, inputs.len() as int),
    ensures
        exists|i: int|
            0 <= i < inputs.len() && inputs[i].1 > 0 && (affordable_units(inventory, inputs) + 1) * (
            inputs[i].1 as int) > count_of(inventory, #[trigger] inputs[i].0@),
{
    lemma_fewest_attained(inventory, inputs, inputs.len() as int);
    let i = choose|i: int|
        0 <= i < inputs.len() && inputs[i].1 > 0 && fewest_units(inventory, inputs, inputs.len() as int) == (
        count_of(inventory, #[trigger] inputs[i].0@) as int) / (inputs[i].1 as int);
    let c = count_of(inventory, inputs[i].0@) as int;
    let q = inputs[i].1 as int;
    assert((c / q + 1) * q > c) by (nonlinear_arith)
        requires
            q > 0,
            c >= 0,
    ;
}

proof fn lemma_fewest_below(inventory: Map<Seq<char>, u32>, inputs: Seq<(ItemId, u32)>, n: int, i: int)
    requires
        0 <= i < n <= inputs.len(),
    ensures
        inputs[i].1 > 0 ==> fewest_units(inventory, inputs, n) <= (count_of(inventory, inputs[i].0@) as int) / (inputs[i].1 as int),
    decreases n,
{
    if i < n - 1 {
        lemma_fewest_below(inventory, inputs, n - 1, i);
    }
}

// ── Labels ──────────────────────────────────────────────────────────────

/// Five-column station label used in the side panel.
pub fn short_station(kind: StationKind) -> (s: &'static str)
    ensures
        s@ == match kind {
            StationKind::Workbench => "Bench"@,
            StationKind::Furnace => "Furn "@,
            StationKind::Alchemy => "Alch "@,
            StationKind::Loom => "Loom "@,
        },
{
    match kind {
        StationKind::Workbench => "Bench",
        StationKind::Furnace => "Furn ",
        StationKind::Alchemy => "Alch ",
        StationKind::Loom => "Loom ",
    }
}

} // verus!
