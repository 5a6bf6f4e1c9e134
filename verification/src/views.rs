use vstd::prelude::*;

use crate::crafting::{CraftingCategory, CraftingRecipe, CraftingState};
use crate::gathering::{GatherLocation, GatherTask, GatheringState};
use crate::input::{grid_move, grid_moved, Key};
use crate::inventory::{count_of, Inventory};
use crate::refining::{RefiningRecipe, RefiningState, RefiningStation, StationKind};
use crate::workshop::{affordable_units, max_craft_quantity, max_quantity_for_recipe};

verus! {

// ── Refining: station grid, recipe list and batch size ────────────────────

/// Indices of the recipes among the first `n` of the book made at `kind`, in book order.
pub open spec fn station_recipes(book: Seq<RefiningRecipe>, kind: StationKind, n: int) -> Seq<int>
    decreases n,
{
    if n <= 0 || n > book.len() {
        Seq::empty()
    } else {
        let prev = station_recipes(book, kind, n - 1);
        if book[n - 1].station == kind {
            prev.push(n - 1)
        } else {
            prev
        }
    }
}

/// Indices of the book's recipes made at `kind`, in book order.
pub open spec fn for_station(book: Seq<RefiningRecipe>, kind: StationKind) -> Seq<int> {
    station_recipes(book, kind, book.len() as int)
}

/// Every index listed for a station names a recipe of the book made there.
pub proof fn lemma_station_recipes(book: Seq<RefiningRecipe>, kind: StationKind, n: int)
    requires
        0 <= n <= book.len(),
    ensures
        forall|j: int|
            0 <= j < station_recipes(book, kind, n).len() ==> 0 <= #[trigger] station_recipes(book, kind, n)[j] < n
                && book[station_recipes(book, kind, n)[j]].station == kind,
    decreases n,
{
    if n > 0 {
        lemma_station_recipes(book, kind, n - 1);
    }
}

/// The recipes of the book made at one station, as indices in book order.
pub fn recipes_for_station(book: &Vec<RefiningRecipe>, kind: StationKind) -> (idx: Vec<usize>)
    ensures
        idx@.map_values(|i: usize| i as int) == for_station(book@, kind),
{
    let mut idx: Vec<usize> = Vec::new();
    let mut i: usize = 0;
    while i < book.len()
        invariant
            i <= book@.len(),
            idx@.map_values(|j: usize| j as int) == station_recipes(book@, kind, i as int),
        decreases book.len() - i,
    {
        if book[i].station == kind {
            idx.push(i);
        }
        i += 1;
        proof {
            assert(idx@.map_values(|j: usize| j as int) =~= station_recipes(book@, kind, i as int));
        }
    }
    idx
}

/// Units of a refining recipe the inventory can pay for.
pub open spec fn refine_cap(inventory: Map<Seq<char>, u32>, recipe: RefiningRecipe) -> int {
    if recipe.input_qty == 0 {
        0
    } else {
        (count_of(inventory, recipe.input_id@) / recipe.input_qty) as int
    }
}

#[derive(Debug, Clone, Copy, PartialEq, Eq, Structural)]
pub enum RefiningScreen {
    Stations,
    AtStation,
}

/// Where the refining view stands: the station grid, or one station with a
/// recipe and a batch size picked.
#[derive(Debug, Clone, Copy, PartialEq, Eq, Structural)]
pub struct RefiningView {
    pub screen: RefiningScreen,
    pub selected_station: usize,
    pub current_station: usize,
    pub selected_recipe: usize,
    pub quantity: u32,
}

/// What a key on the refining view led to. Recipes are named by their
/// index in the recipe book.
#[derive(Debug, Clone, Copy, PartialEq, Eq, Structural)]
pub enum RefiningOutcome {
    Nothing,
    /// The station already runs a batch.
    Busy(StationKind),
    /// The batch size, or what the inventory affords, is zero.
    NotEnough(usize),
    /// A batch of this recipe and size started.
    Started(usize, u32),
}

impl RefiningView {
    pub fn new() -> (v: Self)
        ensures
            v == (RefiningView {
                screen: RefiningScreen::Stations,
                selected_station: 0,
                current_station: 0,
                selected_recipe: 0,
                quantity: 1,
            }),
    {
        RefiningView { screen: RefiningScreen::Stations, selected_station: 0, current_station: 0, selected_recipe: 0, quantity: 1 }
    }
}

/// Whether the view stands at a station that exists and has recipes.
pub open spec fn at_working_station(v: RefiningView, stations: Seq<RefiningStation>, book: Seq<RefiningRecipe>) -> bool {
    &&& v.screen is AtStation
    &&& v.current_station < stations.len()
    &&& for_station(book, stations[v.current_station as int].kind).len() > 0
}

/// The keys that read the selected recipe find one, and growing the batch
/// by five stays within a `u32`.
pub open spec fn refining_key_safe(v: RefiningView, stations: Seq<RefiningStation>, book: Seq<RefiningRecipe>, key: Key) -> bool {
    at_working_station(v, stations, book) ==> {
        &&& (key is Right || key is PageDown || key is End || key is Enter) ==> v.selected_recipe
            < for_station(book, stations[v.current_station as int].kind).len()
        &&& key is PageDown ==> v.quantity + 5 <= u32::MAX
    }
}

/// The refining view and outcome after a key. `busy` tells whether the
/// current station already runs a batch.
pub open spec fn refining_after(
    v: RefiningView,
    stations: Seq<RefiningStation>,
    book: Seq<RefiningRecipe>,
    inventory: Map<Seq<char>, u32>,
    busy: bool,
    key: Key,
) -> (RefiningView, RefiningOutcome) {
    match v.screen {
        RefiningScreen::Stations => match key {
            Key::Left | Key::Right | Key::Up | Key::Down => (
                RefiningView { selected_station: grid_moved(v.selected_station as int, key) as usize, ..v },
                RefiningOutcome::Nothing,
            ),
            Key::Enter => if v.selected_station < stations.len() && stations[v.selected_station as int].unlocked {
                (
                    RefiningView {
                        screen: RefiningScreen::AtStation,
                        current_station: v.selected_station,
                        selected_recipe: 0,
                        quantity: 1,
                        ..v
                    },
                    RefiningOutcome::Nothing,
                )
            } else {
                (v, RefiningOutcome::Nothing)
            },
            _ => (v, RefiningOutcome::Nothing),
        },
        RefiningScreen::AtStation => if !at_working_station(v, stations, book) {
            (v, RefiningOutcome::Nothing)
        } else {
            let kind = stations[v.current_station as int].kind;
            let list = for_station(book, kind);
            let sel = v.selected_recipe as int;
            let q = v.quantity as int;
            let cap = refine_cap(inventory, book[list[sel]]);
            match key {
                Key::Up => if sel > 0 {
                    (RefiningView { selected_recipe: (sel - 1) as usize, quantity: 1, ..v }, RefiningOutcome::Nothing)
                } else {
                    (v, RefiningOutcome::Nothing)
                },
                Key::Down => if sel + 1 < list.len() {
                    (RefiningView { selected_recipe: (sel + 1) as usize, quantity: 1, ..v }, RefiningOutcome::Nothing)
                } else {
                    (v, RefiningOutcome::Nothing)
                },
                Key::Left => if q > 1 {
                    (RefiningView { quantity: (q - 1) as u32, ..v }, RefiningOutcome::Nothing)
                } else {
                    (v, RefiningOutcome::Nothing)
                },
                Key::Right => if q < cap {
                    (RefiningView { quantity: (q + 1) as u32, ..v }, RefiningOutcome::Nothing)
                } else {
                    (v, RefiningOutcome::Nothing)
                },
                Key::PageUp => (RefiningView { quantity: if q > 5 { (q - 5) as u32 } else { 1 }, ..v }, RefiningOutcome::Nothing),
                Key::PageDown => (
                    RefiningView { quantity: if q + 5 < cap { (q + 5) as u32 } else { cap as u32 }, ..v },
                    RefiningOutcome::Nothing,
                ),
                Key::Home => (RefiningView { quantity: 1, ..v }, RefiningOutcome::Nothing),
                Key::End => (RefiningView { quantity: if cap > 1 { cap as u32 } else { 1 }, ..v }, RefiningOutcome::Nothing),
                Key::Enter => if busy {
                    (v, RefiningOutcome::Busy(kind))
                } else if q == 0 || cap == 0 {
                    (v, RefiningOutcome::NotEnough(list[sel] as usize))
                } else {
                    (RefiningView { quantity: 1, ..v }, RefiningOutcome::Started(list[sel] as usize, v.quantity))
                },
                _ => (v, RefiningOutcome::Nothing),
            }
        },
    }
}

/// The station the view stands at, when it exists.
pub open spec fn current_kind(v: RefiningView, stations: Seq<RefiningStation>) -> StationKind {
    stations[v.current_station as int].kind
}

/// Whether a started batch of `recipe` with `units` units is what the
/// refining state now runs at `kind`, everything else unchanged.
pub open spec fn refining_started(
    before: RefiningState,
    after: RefiningState,
    kind: StationKind,
    recipe: RefiningRecipe,
    units: u32,
) -> bool {
    &&& after == before.with_slot(kind, after.slot_of(kind))
    &&& after.slot_of(kind) matches Some(task) && task.recipe_id == recipe.id && task.station == kind
        && task.total_units == units && task.completed_units == 0 && task.duration_per_unit
        == recipe.duration_per_unit
}

/// Handles a key on the refining view: arrows move over the station grid,
/// Enter opens an unlocked station; at a station, Up/Down pick a recipe,
/// Left/Right/PageUp/PageDown/Home/End set the batch size within what the
/// inventory affords, and Enter starts the batch when the station is free.
pub fn handle_refining_input(
    view: &mut RefiningView,
    refining: &mut RefiningState,
    inventory: &Inventory,
    stations: &Vec<RefiningStation>,
    book: &Vec<RefiningRecipe>,
    key: Key,
) -> (outcome: RefiningOutcome)
    requires
        refining_key_safe(*old(view), stations@, book@, key),
    ensures
        ({
            let busy = at_working_station(*old(view), stations@, book@) && old(refining).slot_of(
                current_kind(*old(view), stations@),
            ) is Some;
            (*final(view), outcome) == refining_after(*old(view), stations@, book@, inventory@, busy, key)
        }),
        outcome matches RefiningOutcome::Started(i, units) ==> i < book@.len() && refining_started(
            *old(refining),
            *final(refining),
            current_kind(*old(view), stations@),
            book@[i as int],
            units,
        ),
        !(outcome is Started) ==> *final(refining) == *old(refining),
{
    match view.screen {
        RefiningScreen::Stations => {
            match key {
                Key::Left | Key::Right | Key::Up | Key::Down => {
                    view.selected_station = grid_move(view.selected_station, key);
                },
                Key::Enter => {
                    let idx = view.selected_station;
                    if idx < stations.len() && stations[idx].unlocked {
                        view.current_station = idx;
                        view.selected_recipe = 0;
                        view.quantity = 1;
                        view.screen = RefiningScreen::AtStation;
                    }
                },
                _ => {},
            }
            RefiningOutcome::Nothing
        },
        RefiningScreen::AtStation => {
            let station_idx = view.current_station;
            if station_idx >= stations.len() {
                return RefiningOutcome::Nothing;
            }
            let kind = stations[station_idx].kind;
            let recipes = recipes_for_station(book, kind);
            proof {
                lemma_station_recipes(book@, kind, book@.len() as int);
                assert(recipes@.len() == for_station(book@, kind).len());
            }
            if recipes.len() == 0 {
                return RefiningOutcome::Nothing;
            }
            match key {
                Key::Up => {
                    if view.selected_recipe > 0 {
                        view.selected_recipe = view.selected_recipe - 1;
                        view.quantity = 1;
                    }
                    RefiningOutcome::Nothing
                },
                Key::Down => {
                    if view.selected_recipe < recipes.len() - 1 {
                        view.selected_recipe = view.selected_recipe + 1;
                        view.quantity = 1;
                    }
                    RefiningOutcome::Nothing
                },
                Key::Left => {
                    if view.quantity > 1 {
                        view.quantity = view.quantity - 1;
                    }
                    RefiningOutcome::Nothing
                },
                Key::Right => {
                    let ri = recipes[view.selected_recipe];
                    proof {
                        assert(ri as int == for_station(book@, kind)[view.selected_recipe as int]);
                    }
                    let max = max_quantity_for_recipe(inventory, &book[ri]);
                    if view.quantity < max {
                        view.quantity = view.quantity + 1;
                    }
                    RefiningOutcome::Nothing
                },
                Key::PageUp => {
                    if view.quantity > 5 {
                        view.quantity = view.quantity - 5;
                    } else {
                        view.quantity = 1;
                    }
                    RefiningOutcome::Nothing
                },
                Key::PageDown => {
                    let ri = recipes[view.selected_recipe];
                    proof {
                        assert(ri as int == for_station(book@, kind)[view.selected_recipe as int]);
                    }
                    let max = max_quantity_for_recipe(inventory, &book[ri]);
                    let grown = view.quantity + 5;
                    view.quantity = if grown < max {
                        grown
                    } else {
                        max
                    };
                    RefiningOutcome::Nothing
                },
                Key::Home => {
                    view.quantity = 1;
                    RefiningOutcome::Nothing
                },
                Key::End => {
                    let ri = recipes[view.selected_recipe];
                    proof {
                        assert(ri as int == for_station(book@, kind)[view.selected_recipe as int]);
                    }
                    let max = max_quantity_for_recipe(inventory, &book[ri]);
                    view.quantity = if max > 1 {
                        max
                    } else {
                        1
                    };
                    RefiningOutcome::Nothing
                },
                Key::Enter => {
                    let ri = recipes[view.selected_recipe];
                    proof {
                        assert(ri as int == for_station(book@, kind)[view.selected_recipe as int]);
                    }
                    let recipe = &book[ri];
                    let qty = view.quantity;
                    let max = max_quantity_for_recipe(inventory, recipe);
                    if refining.is_busy(kind) {
                        RefiningOutcome::Busy(kind)
                    } else if qty == 0 || max == 0 {
                        RefiningOutcome::NotEnough(ri)
                    } else {
                        let started = refining.start(kind, recipe.id.clone(), qty, recipe.duration_per_unit);
                        if started {
                            view.quantity = 1;
                            RefiningOutcome::Started(ri, qty)
                        } else {
                            RefiningOutcome::Nothing
                        }
                    }
                },
                _ => RefiningOutcome::Nothing,
            }
        },
    }
}

// ── Crafting: category tabs, recipe list and batch size ───────────────────

/// Indices of the recipes among the first `n` of the book in category `cat`, in book order.
pub open spec fn category_recipes(book: Seq<CraftingRecipe>, cat: CraftingCategory, n: int) -> Seq<int>
    decreases n,
{
    if n <= 0 || n > book.len() {
        Seq::empty()
    } else {
        let prev = category_recipes(book, cat, n - 1);
        if book[n - 1].category == cat {
            prev.push(n - 1)
        } else {
            prev
        }
    }
}

/// Indices of the book's recipes in category `cat`, in book order.
pub open spec fn in_category(book: Seq<CraftingRecipe>, cat: CraftingCategory) -> Seq<int> {
    category_recipes(book, cat, book.len() as int)
}

/// Every index listed for a category names a recipe of the book in it.
pub proof fn lemma_category_recipes(book: Seq<CraftingRecipe>, cat: CraftingCategory, n: int)
    requires
        0 <= n <= book.len(),
    ensures
        forall|j: int|
            0 <= j < category_recipes(book, cat, n).len() ==> 0 <= #[trigger] category_recipes(book, cat, n)[j] < n
                && book[category_recipes(book, cat, n)[j]].category == cat,
    decreases n,
{
    if n > 0 {
        lemma_category_recipes(book, cat, n - 1);
    }
}

/// The recipes of the book in one category, as indices in book order.
pub fn crafting_recipes_in(book: &Vec<CraftingRecipe>, cat: CraftingCategory) -> (idx: Vec<usize>)
    ensures
        idx@.map_values(|i: usize| i as int) == in_category(book@, cat),
{
    let mut idx: Vec<usize> = Vec::new();
    let mut i: usize = 0;
    while i < book.len()
        invariant
            i <= book@.len(),
            idx@.map_values(|j: usize| j as int) == category_recipes(book@, cat, i as int),
        decreases book.len() - i,
    {
        if book[i].category == cat {
            idx.push(i);
        }
        i += 1;
        proof {
            assert(idx@.map_values(|j: usize| j as int) =~= category_recipes(book@, cat, i as int));
        }
    }
    idx
}

/// The category on tab `i` (tabs in the order of `CraftingCategory::all`).
pub open spec fn category_at(i: int) -> CraftingCategory {
    if i == 0 {
        CraftingCategory::Weapons
    } else if i == 1 {
        CraftingCategory::Armor
    } else if i == 2 {
        CraftingCategory::Accessories
    } else if i == 3 {
        CraftingCategory::Consumables
    } else if i == 4 {
        CraftingCategory::Food
    } else {
        CraftingCategory::Drinks
    }
}

/// Where the crafting view stands: a category tab, a recipe in it and a batch size.
#[derive(Debug, Clone, Copy, PartialEq, Eq, Structural)]
pub struct CraftingView {
    pub selected_category: usize,
    pub selected_recipe: usize,
    pub quantity: u32,
}

impl CraftingView {
    pub fn new() -> (v: Self)
        ensures
            v == (CraftingView { selected_category: 0, selected_recipe: 0, quantity: 1 }),
    {
        CraftingView { selected_category: 0, selected_recipe: 0, quantity: 1 }
    }
}

/// What a key on the crafting view led to. Recipes are named by their
/// index in the recipe book.
#[derive(Debug, Clone, Copy, PartialEq, Eq, Structural)]
pub enum CraftingOutcome {
    Nothing,
    /// The bench already runs a batch.
    Busy,
    /// The batch size, or what the inventory affords, is zero.
    NotEnough(usize),
    /// A batch of this recipe and size started.
    Started(usize, u32),
}

/// The tab shown: the selected one, or the last when the selection runs past it.
pub open spec fn shown_tab(v: CraftingView) -> int {
    if v.selected_category < 5 {
        v.selected_category as int
    } else {
        5
    }
}

/// Growing the batch by five stays within a `u32` whenever PageDown reads a recipe.
pub open spec fn crafting_key_safe(v: CraftingView, book: Seq<CraftingRecipe>, key: Key) -> bool {
    key is PageDown && v.selected_recipe < in_category(book, category_at(shown_tab(v))).len() ==> v.quantity + 5
        <= u32::MAX
}

/// The crafting view and outcome after a key (`shift` held or not); `busy`
/// tells whether the bench already runs a batch.
pub open spec fn crafting_after(
    v: CraftingView,
    book: Seq<CraftingRecipe>,
    inventory: Map<Seq<char>, u32>,
    busy: bool,
    key: Key,
    shift: bool,
) -> (CraftingView, CraftingOutcome) {
    let cur = shown_tab(v);
    let list = in_category(book, category_at(cur));
    let sel = v.selected_recipe as int;
    let q = v.quantity as int;
    let found = sel < list.len();
    let cap = affordable_units(inventory, book[list[sel]].inputs@);
    match key {
        Key::Tab => (
            CraftingView {
                selected_category: (if shift {
                    (cur + 5) % 6
                } else {
                    (cur + 1) % 6
                }) as usize,
                selected_recipe: 0,
                quantity: 1,
            },
            CraftingOutcome::Nothing,
        ),
        Key::BackTab => (
            CraftingView { selected_category: ((cur + 5) % 6) as usize, selected_recipe: 0, quantity: 1 },
            CraftingOutcome::Nothing,
        ),
        Key::Up => if sel > 0 {
            (CraftingView { selected_recipe: (sel - 1) as usize, quantity: 1, ..v }, CraftingOutcome::Nothing)
        } else {
            (v, CraftingOutcome::Nothing)
        },
        Key::Down => if list.len() > 0 && sel + 1 < list.len() {
            (CraftingView { selected_recipe: (sel + 1) as usize, quantity: 1, ..v }, CraftingOutcome::Nothing)
        } else {
            (v, CraftingOutcome::Nothing)
        },
        Key::Left => if q > 1 {
            (CraftingView { quantity: (q - 1) as u32, ..v }, CraftingOutcome::Nothing)
        } else {
            (v, CraftingOutcome::Nothing)
        },
        Key::Right => if found && q < cap {
            (CraftingView { quantity: (q + 1) as u32, ..v }, CraftingOutcome::Nothing)
        } else {
            (v, CraftingOutcome::Nothing)
        },
        Key::PageUp => (CraftingView { quantity: if q > 5 { (q - 5) as u32 } else { 1 }, ..v }, CraftingOutcome::Nothing),
        Key::PageDown => if found {
            (CraftingView { quantity: if q + 5 < cap { (q + 5) as u32 } else { cap as u32 }, ..v }, CraftingOutcome::Nothing)
        } else {
            (v, CraftingOutcome::Nothing)
        },
        Key::Home => (CraftingView { quantity: 1, ..v }, CraftingOutcome::Nothing),
        Key::End => if found {
            (CraftingView { quantity: if cap > 1 { cap as u32 } else { 1 }, ..v }, CraftingOutcome::Nothing)
        } else {
            (v, CraftingOutcome::Nothing)
        },
        Key::Enter => if !found {
            (v, CraftingOutcome::Nothing)
        } else if busy {
            (v, CraftingOutcome::Busy)
        } else if q == 0 || cap == 0 {
            (v, CraftingOutcome::NotEnough(list[sel] as usize))
        } else {
            (CraftingView { quantity: 1, ..v }, CraftingOutcome::Started(list[sel] as usize, v.quantity))
        },
        _ => (v, CraftingOutcome::Nothing),
    }
}

/// Handles a key on the crafting view: Tab / Shift+Tab / BackTab cycle the
/// category tabs, Up/Down pick a recipe, Left/Right/PageUp/PageDown/Home/End
/// set the batch size within what the inventory affords, and Enter starts
/// the batch when the bench is free.
pub fn handle_crafting_input(
    view: &mut CraftingView,
    crafting: &mut CraftingState,
    inventory: &Inventory,
    book: &Vec<CraftingRecipe>,
    key: Key,
    shift: bool,
) -> (outcome: CraftingOutcome)
    requires
        crafting_key_safe(*old(view), book@, key),
    ensures
        (*final(view), outcome) == crafting_after(*old(view), book@, inventory@, old(crafting).bench is Some, key, shift),
        outcome matches CraftingOutcome::Started(i, units) ==> i < book@.len() && (final(crafting).bench matches Some(
            task,
        ) && task.recipe_id == book@[i as int].id && task.total_units == units && task.completed_units == 0
            && task.duration_per_unit == book@[i as int].duration_per_unit),
        !(outcome is Started) ==> *final(crafting) == *old(crafting),
{
    let categories = CraftingCategory::all();
    let cur_cat_idx: usize = if view.selected_category < 5 {
        view.selected_category
    } else {
        5
    };
    let cur_cat = categories[cur_cat_idx];
    let recipes = crafting_recipes_in(book, cur_cat);
    proof {
        assert(cur_cat == category_at(cur_cat_idx as int));
        lemma_category_recipes(book@, cur_cat, book@.len() as int);
        assert(recipes@.len() == in_category(book@, cur_cat).len());
    }
    let sel = view.selected_recipe;
    match key {
        Key::Tab => {
            view.selected_category = if shift {
                (cur_cat_idx + 5) % 6
            } else {
                (cur_cat_idx + 1) % 6
            };
            view.selected_recipe = 0;
            view.quantity = 1;
            CraftingOutcome::Nothing
        },
        Key::BackTab => {
            view.selected_category = (cur_cat_idx + 5) % 6;
            view.selected_recipe = 0;
            view.quantity = 1;
            CraftingOutcome::Nothing
        },
        Key::Up => {
            if sel > 0 {
                view.selected_recipe = sel - 1;
                view.quantity = 1;
            }
            CraftingOutcome::Nothing
        },
        Key::Down => {
            if recipes.len() > 0 && sel < recipes.len() - 1 {
                view.selected_recipe = sel + 1;
                view.quantity = 1;
            }
            CraftingOutcome::Nothing
        },
        Key::Left => {
            if view.quantity > 1 {
                view.quantity = view.quantity - 1;
            }
            CraftingOutcome::Nothing
        },
        Key::Right => {
            if sel < recipes.len() {
                let ri = recipes[sel];
                proof {
                    assert(ri as int == in_category(book@, cur_cat)[sel as int]);
                }
                let max = max_craft_quantity(inventory, &book[ri]);
                if view.quantity < max {
                    view.quantity = view.quantity + 1;
                }
            }
            CraftingOutcome::Nothing
        },
        Key::PageUp => {
            if view.quantity > 5 {
                view.quantity = view.quantity - 5;
            } else {
                view.quantity = 1;
            }
            CraftingOutcome::Nothing
        },
        Key::PageDown => {
            if sel < recipes.len() {
                let ri = recipes[sel];
                proof {
                    assert(ri as int == in_category(book@, cur_cat)[sel as int]);
                }
                let max = max_craft_quantity(inventory, &book[ri]);
                let grown = view.quantity + 5;
                view.quantity = if grown < max {
                    grown
                } else {
                    max
                };
            }
            CraftingOutcome::Nothing
        },
        Key::Home => {
            view.quantity = 1;
            CraftingOutcome::Nothing
        },
        Key::End => {
            if sel < recipes.len() {
                let ri = recipes[sel];
                proof {
                    assert(ri as int == in_category(book@, cur_cat)[sel as int]);
                }
                let max = max_craft_quantity(inventory, &book[ri]);
                view.quantity = if max > 1 {
                    max
                } else {
                    1
                };
            }
            CraftingOutcome::Nothing
        },
        Key::Enter => {
            if sel >= recipes.len() {
                return CraftingOutcome::Nothing;
            }
            let ri = recipes[sel];
            proof {
                assert(ri as int == in_category(book@, cur_cat)[sel as int]);
            }
            let recipe = &book[ri];
            let qty = view.quantity;
            let max = max_craft_quantity(inventory, recipe);
            if crafting.is_busy() {
                CraftingOutcome::Busy
            } else if qty == 0 || max == 0 {
                CraftingOutcome::NotEnough(ri)
            } else {
                let started = crafting.start(recipe.id.clone(), qty, recipe.duration_per_unit);
                if started {
                    view.quantity = 1;
                    CraftingOutcome::Started(ri, qty)
                } else {
                    CraftingOutcome::Nothing
                }
            }
        },
        _ => CraftingOutcome::Nothing,
    }
}

// ── Gathering: location grid and expedition length ────────────────────────

#[derive(Debug, Clone, Copy, PartialEq, Eq, Structural)]
pub enum GatheringScreen {
    Grounds,
    AtLocation,
}

/// A fade between the grounds and a location, with the frames it has left.
#[derive(Debug, Clone, Copy, PartialEq, Eq, Structural)]
pub enum Transition {
    Idle,
    EnteringLocation(u32),
    LeavingLocation(u32),
}

/// Frames a fade between the grounds and a location lasts.
pub const TRANSITION_FRAMES: u32 = 8;

/// Where the gathering view stands: the grounds or one location, with the
/// card and expedition length picked, and any fade under way.
#[derive(Debug, Clone, Copy, PartialEq, Eq, Structural)]
pub struct GatheringView {
    pub screen: GatheringScreen,
    pub transition: Transition,
    pub selected_location: usize,
    pub current_location: usize,
    pub selected_duration: usize,
}

/// What a key on the gathering view led to.
#[derive(Debug, Clone, Copy, PartialEq, Eq, Structural)]
pub enum GatheringOutcome {
    Nothing,
    /// An expedition to location `.0` with length `.1` left from slot `.2`.
    Started(usize, usize, usize),
    /// Every gathering slot is out.
    AllSlotsFull,
}

impl GatheringView {
    pub fn new() -> (v: Self)
        ensures
            v == (GatheringView {
                screen: GatheringScreen::Grounds,
                transition: Transition::Idle,
                selected_location: 0,
                current_location: 0,
                selected_duration: 0,
            }),
    {
        GatheringView {
            screen: GatheringScreen::Grounds,
            transition: Transition::Idle,
            selected_location: 0,
            current_location: 0,
            selected_duration: 0,
        }
    }
}

/// The first empty slot at or after `i`.
pub open spec fn first_free_from(slots: Seq<Option<GatherTask>>, i: int) -> Option<int>
    decreases slots.len() - i,
{
    if i < 0 || i >= slots.len() {
        None
    } else if slots[i] is None {
        Some(i)
    } else {
        first_free_from(slots, i + 1)
    }
}

/// The first empty gathering slot, if any.
pub open spec fn first_free(slots: Seq<Option<GatherTask>>) -> Option<int> {
    first_free_from(slots, 0)
}

proof fn lemma_first_free_from(slots: Seq<Option<GatherTask>>, i: int, r: Option<int>)
    requires
        0 <= i <= slots.len(),
        forall|j: int| i <= j < slots.len() && (r is None || j < r->0) ==> slots[j] is Some,
        r matches Some(k) ==> i <= k < slots.len() && slots[k] is None,
    ensures
        first_free_from(slots, i) == r,
    decreases slots.len() - i,
{
    if i < slots.len() && slots[i] is Some {
        lemma_first_free_from(slots, i + 1, r);
    }
}

/// The gathering view and outcome after a key; `free` is the first empty
/// gathering slot.
pub open spec fn gathering_after(
    v: GatheringView,
    locations: Seq<GatherLocation>,
    free: Option<int>,
    key: Key,
) -> (GatheringView, GatheringOutcome) {
    if !(v.transition is Idle) {
        (v, GatheringOutcome::Nothing)
    } else {
        match v.screen {
            GatheringScreen::Grounds => match key {
                Key::Left | Key::Right | Key::Up | Key::Down => (
                    GatheringView { selected_location: grid_moved(v.selected_location as int, key) as usize, ..v },
                    GatheringOutcome::Nothing,
                ),
                Key::Enter => if v.selected_location < locations.len() && locations[v.selected_location as int].unlocked {
                    (
                        GatheringView {
                            current_location: v.selected_location,
                            selected_duration: 0,
                            transition: Transition::EnteringLocation(TRANSITION_FRAMES),
                            ..v
                        },
                        GatheringOutcome::Nothing,
                    )
                } else {
                    (v, GatheringOutcome::Nothing)
                },
                _ => (v, GatheringOutcome::Nothing),
            },
            GatheringScreen::AtLocation => if v.current_location >= locations.len() {
                (v, GatheringOutcome::Nothing)
            } else {
                let n = locations[v.current_location as int].durations@.len();
                let d = v.selected_duration as int;
                match key {
                    Key::Up => if d > 0 {
                        (GatheringView { selected_duration: (d - 1) as usize, ..v }, GatheringOutcome::Nothing)
                    } else {
                        (v, GatheringOutcome::Nothing)
                    },
                    Key::Down => if d < n - 1 {
                        (GatheringView { selected_duration: (d + 1) as usize, ..v }, GatheringOutcome::Nothing)
                    } else {
                        (v, GatheringOutcome::Nothing)
                    },
                    Key::Enter => match free {
                        Some(slot) => if d < n {
                            (v, GatheringOutcome::Started(v.current_location, v.selected_duration, slot as usize))
                        } else {
                            (v, GatheringOutcome::Nothing)
                        },
                        None => (v, GatheringOutcome::AllSlotsFull),
                    },
                    _ => (v, GatheringOutcome::Nothing),
                }
            },
        }
    }
}

/// Handles a key on the gathering view (ignored during a fade): arrows move
/// over the grounds' grid and Enter walks into an unlocked location; at a
/// location, Up/Down pick the expedition length and Enter sends it out from
/// the first empty slot.
pub fn handle_gathering_input(
    view: &mut GatheringView,
    gathering: &mut GatheringState,
    locations: &Vec<GatherLocation>,
    key: Key,
) -> (outcome: GatheringOutcome)
    ensures
        (*final(view), outcome) == gathering_after(*old(view), locations@, first_free(old(gathering).slots@), key),
        outcome matches GatheringOutcome::Started(l, d, slot) ==> {
            &&& l < locations@.len() && d < locations@[l as int].durations@.len()
            &&& final(gathering).max_slots == old(gathering).max_slots
            &&& final(gathering).slots@.len() == old(gathering).slots@.len()
            &&& forall|i: int|
                0 <= i < old(gathering).slots@.len() && i != slot ==> final(gathering).slots@[i] == old(
                    gathering,
                ).slots@[i]
            &&& final(gathering).slots@[slot as int] matches Some(task) && task.location_id
                == locations@[l as int].id && task.duration_index == d && task.duration_ms
                == locations@[l as int].durations@[d as int].duration_ms
        },
        !(outcome is Started) ==> *final(gathering) == *old(gathering),
{
    let ghost free = first_free(gathering.slots@);
    if !matches!(view.transition, Transition::Idle) {
        return GatheringOutcome::Nothing;
    }
    match view.screen {
        GatheringScreen::Grounds => {
            match key {
                Key::Left | Key::Right | Key::Up | Key::Down => {
                    view.selected_location = grid_move(view.selected_location, key);
                },
                Key::Enter => {
                    let idx = view.selected_location;
                    if idx < locations.len() && locations[idx].unlocked {
                        view.current_location = idx;
                        view.selected_duration = 0;
                        view.transition = Transition::EnteringLocation(TRANSITION_FRAMES);
                    }
                },
                _ => {},
            }
            GatheringOutcome::Nothing
        },
        GatheringScreen::AtLocation => {
            let loc_idx = view.current_location;
            if loc_idx >= locations.len() {
                return GatheringOutcome::Nothing;
            }
            let location = &locations[loc_idx];
            match key {
                Key::Up => {
                    if view.selected_duration > 0 {
                        view.selected_duration = view.selected_duration - 1;
                    }
                    GatheringOutcome::Nothing
                },
                Key::Down => {
                    let max = location.durations.len().saturating_sub(1);
                    if view.selected_duration < max {
                        view.selected_duration = view.selected_duration + 1;
                    }
                    GatheringOutcome::Nothing
                },
                Key::Enter => {
                    let first = gathering.first_empty_slot();
                    proof {
                        match first {
                            Some(k) => lemma_first_free_from(gathering.slots@, 0, Some(k as int)),
                            None => lemma_first_free_from(gathering.slots@, 0, None),
                        }
                    }
                    match first {
                        Some(slot) => {
                            let dur_idx = view.selected_duration;
                            if dur_idx < location.durations.len() {
                                let started = gathering.start(
                                    slot,
                                    location.id.clone(),
                                    dur_idx,
                                    location.durations[dur_idx].duration_ms,
                                );
                                if started {
                                    GatheringOutcome::Started(loc_idx, dur_idx, slot)
                                } else {
                                    GatheringOutcome::Nothing
                                }
                            } else {
                                GatheringOutcome::Nothing
                            }
                        },
                        None => GatheringOutcome::AllSlotsFull,
                    }
                },
                _ => GatheringOutcome::Nothing,
            }
        },
    }
}

/// The screen drawn: during a fade, the one being left.
pub fn effective_gathering_screen(view: &GatheringView) -> (s: GatheringScreen)
    ensures
        s == match view.transition {
            Transition::Idle => view.screen,
            Transition::EnteringLocation(_) => GatheringScreen::Grounds,
            Transition::LeavingLocation(_) => GatheringScreen::AtLocation,
        },
{
    match view.transition {
        Transition::Idle => view.screen,
        Transition::EnteringLocation(_) => GatheringScreen::Grounds,
        Transition::LeavingLocation(_) => GatheringScreen::AtLocation,
    }
}

/// The view one frame later: a fade counts down, and when it has no frames
/// left the view arrives on the other screen.
pub open spec fn ticked(v: GatheringView) -> GatheringView {
    match v.transition {
        Transition::Idle => v,
        Transition::EnteringLocation(n) => if n > 0 {
            GatheringView { transition: Transition::EnteringLocation((n - 1) as u32), ..v }
        } else {
            GatheringView { transition: Transition::Idle, screen: GatheringScreen::AtLocation, ..v }
        },
        Transition::LeavingLocation(n) => if n > 0 {
            GatheringView { transition: Transition::LeavingLocation((n - 1) as u32), ..v }
        } else {
            GatheringView { transition: Transition::Idle, screen: GatheringScreen::Grounds, ..v }
        },
    }
}

impl GatheringView {
    /// Advances a fade by one frame.
    pub fn tick(&mut self)
        ensures
            *final(self) == ticked(*old(self)),
    {
        match self.transition {
            Transition::Idle => {},
            Transition::EnteringLocation(n) => {
                if n > 0 {
                    self.transition = Transition::EnteringLocation(n - 1);
                } else {
                    self.transition = Transition::Idle;
                    self.screen = GatheringScreen::AtLocation;
                }
            },
            Transition::LeavingLocation(n) => {
                if n > 0 {
                    self.transition = Transition::LeavingLocation(n - 1);
                } else {
                    self.transition = Transition::Idle;
                    self.screen = GatheringScreen::Grounds;
                }
            },
        }
    }
}

// ── Inventory grid ────────────────────────────────────────────────────────

/// The selected tile of the inventory grid, and how many columns it last had.
#[derive(Debug, Clone, Copy, PartialEq, Eq, Structural)]
pub struct InventoryView {
    pub selected: usize,
    pub last_grid_cols: usize,
}

/// The selected tile after an arrow, Home or End key on a grid of `count`
/// tiles (nothing moves on an empty grid).
pub open spec fn inventory_selected_after(v: InventoryView, count: int, key: Key) -> int {
    if count == 0 {
        v.selected as int
    } else {
        let cols = if v.last_grid_cols > 1 {
            v.last_grid_cols as int
        } else {
            1
        };
        let cur = if v.selected < count - 1 {
            v.selected as int
        } else {
            count - 1
        };
        match key {
            Key::Left => if cur > 0 {
                cur - 1
            } else {
                v.selected as int
            },
            Key::Right => if cur + 1 < count {
                cur + 1
            } else {
                v.selected as int
            },
            Key::Up => if cur >= cols {
                cur - cols
            } else {
                v.selected as int
            },
            Key::Down => if cur + cols < count {
                cur + cols
            } else {
                v.selected as int
            },
            Key::Home => 0,
            Key::End => count - 1,
            _ => v.selected as int,
        }
    }
}

/// Moves the selection over the inventory grid of `count` tiles laid out in
/// rows of `last_grid_cols` (at least one).
pub fn handle_inventory_input(view: &mut InventoryView, count: usize, key: Key)
    ensures
        final(view).last_grid_cols == old(view).last_grid_cols,
        final(view).selected == inventory_selected_after(*old(view), count as int, key),
{
    if count == 0 {
        return;
    }
    let cols = if view.last_grid_cols > 1 {
        view.last_grid_cols
    } else {
        1
    };
    let current = if view.selected < count - 1 {
        view.selected
    } else {
        count - 1
    };
    match key {
        Key::Left => {
            if current > 0 {
                view.selected = current - 1;
            }
        },
        Key::Right => {
            if current < count - 1 {
                view.selected = current + 1;
            }
        },
        Key::Up => {
            if current >= cols {
                view.selected = current - cols;
            }
        },
        Key::Down => {
            if cols < count - current {
                view.selected = current + cols;
            }
        },
        Key::Home => {
            view.selected = 0;
        },
        Key::End => {
            view.selected = count - 1;
        },
        _ => {},
    }
}

/// On a grid of `count` tiles, a selection on a tile stays on a tile.
pub proof fn lemma_inventory_selection_inside(v: InventoryView, count: int, key: Key)
    requires
        0 <= v.selected < count,
    ensures
        0 <= inventory_selected_after(v, count, key) < count,
{
}

/// The view after `n` frames.
pub open spec fn ticked_n(v: GatheringView, n: nat) -> GatheringView
    decreases n,
{
    if n == 0 {
        v
    } else {
        ticked(ticked_n(v, (n - 1) as nat))
    }
}

/// A fade with `n` frames left is over after `n + 1` frames: it ends on the
/// location when entering and on the grounds when leaving.
pub proof fn lemma_fade_arrives(v: GatheringView, n: u32)
    requires
        v.transition == Transition::EnteringLocation(n) || v.transition == Transition::LeavingLocation(n),
    ensures
        ticked_n(v, (n + 1) as nat).transition is Idle,
        v.transition is EnteringLocation ==> ticked_n(v, (n + 1) as nat).screen is AtLocation,
        v.transition is LeavingLocation ==> ticked_n(v, (n + 1) as nat).screen is Grounds,
{
    lemma_fade_counts_down(v, n, n as nat);
}

proof fn lemma_fade_counts_down(v: GatheringView, n: u32, k: nat)
    requires
        v.transition == Transition::EnteringLocation(n) || v.transition == Transition::LeavingLocation(n),
        k <= n,
    ensures
        v.transition is EnteringLocation ==> ticked_n(v, k) == (GatheringView {
            transition: Transition::EnteringLocation((n - k) as u32),
            ..v
        }),
        v.transition is LeavingLocation ==> ticked_n(v, k) == (GatheringView {
            transition: Transition::LeavingLocation((n - k) as u32),
            ..v
        }),
    decreases k,
{
    if k > 0 {
        lemma_fade_counts_down(v, n, (k - 1) as nat);
    }
}

/// Whether `handle_refining_input` may take `key` (`refining_key_safe`).
pub fn refining_key_is_safe(view: &RefiningView, stations: &Vec<RefiningStation>, book: &Vec<RefiningRecipe>, key: Key) -> (b: bool)
    ensures
        b == refining_key_safe(*view, stations@, book@, key),
{
    if view.screen != RefiningScreen::AtStation || view.current_station >= stations.len() {
        return true;
    }
    let idx = recipes_for_station(book, stations[view.current_station].kind);
    let n = idx.len();
    assert(n == for_station(book@, stations@[view.current_station as int].kind).len());
    if n == 0 {
        return true;
    }
    let reads = key == Key::Right || key == Key::PageDown || key == Key::End || key == Key::Enter;
    (!reads || view.selected_recipe < n) && (key != Key::PageDown || view.quantity <= u32::MAX - 5)
}

/// Whether `handle_crafting_input` may take `key` (`crafting_key_safe`).
pub fn crafting_key_is_safe(view: &CraftingView, book: &Vec<CraftingRecipe>, key: Key) -> (b: bool)
    ensures
        b == crafting_key_safe(*view, book@, key),
{
    let categories = CraftingCategory::all();
    let idx: usize = if view.selected_category < 5 {
        view.selected_category
    } else {
        5
    };
    let recipes = crafting_recipes_in(book, categories[idx]);
    proof {
        assert(categories[idx as int] == category_at(idx as int));
        assert(recipes@.len() == in_category(book@, category_at(shown_tab(*view))).len());
    }
    key != Key::PageDown || view.selected_recipe >= recipes.len() || view.quantity <= u32::MAX - 5
}

/// Enter on the crafting view starts a batch exactly when a recipe is
/// selected, the bench is free, the batch size is positive and the stock
/// affords at least one unit; the batch has the selected recipe and size,
/// and the size goes back to one. Otherwise the view stays as it was.
pub proof fn lemma_enter_starts_batch(
    v: CraftingView,
    book: Seq<CraftingRecipe>,
    inventory: Map<Seq<char>, u32>,
    busy: bool,
    shift: bool,
)
    ensures
        ({
            let list = in_category(book, category_at(shown_tab(v)));
            let sel = v.selected_recipe as int;
            let t = crafting_after(v, book, inventory, busy, Key::Enter, shift);
            &&& t.1 is Started <==> (sel < list.len() && !busy && v.quantity > 0 && affordable_units(
                inventory,
                book[list[sel]].inputs@,
            ) > 0)
            &&& t.1 is Started ==> t.1 == CraftingOutcome::Started(list[sel] as usize, v.quantity) && t.0 == (
            CraftingView { quantity: 1, ..v })
            &&& !(t.1 is Started) ==> t.0 == v
        }),
{
    let list = in_category(book, category_at(shown_tab(v)));
    crate::workshop::lemma_affordable_bounded(inventory, book[list[v.selected_recipe as int]].inputs@);
}

} // verus!
