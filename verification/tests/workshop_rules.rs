use last_light_game::crafting::{self, CraftingCategory, CraftingRecipe, CraftingState, CraftingTask};
use last_light_game::gathering::{
    merge_drops, pick_weighted, register_locations, DropEntry, DropTable, GatheringState, RollDraws,
};
use last_light_game::inventory::Inventory;
use last_light_game::refining::{self, RefiningState, RefiningTask, StationKind};
use last_light_game::time::SECOND;
use last_light_game::ui::item_icon_bytes;
use last_light_game::input::char_to_view_index;
use last_light_game::workshop::{
    max_craft_quantity, max_craft_quantity_for_recipe, max_quantity_for_recipe,
    recipe_is_craftable, short_station,
};

fn id(s: &str) -> String {
    s.to_string()
}

fn task(total: u32, completed: u32, started_at: u64, per_unit: u64) -> CraftingTask {
    CraftingTask {
        recipe_id: id("wooden_club"),
        total_units: total,
        completed_units: completed,
        started_at,
        duration_per_unit: per_unit,
    }
}

// ── crafting ──

#[test]
fn crafting_category_labels_and_order() {
    let all = CraftingCategory::all();
    let labels: Vec<&str> = all.iter().map(|c| c.label()).collect();
    assert_eq!(labels, vec!["Weapons", "Armor", "Accessories", "Consumables", "Food", "Drinks"]);
}

#[test]
fn crafting_units_done_by_time() {
    let t = task(5, 0, 1_000, 100);
    assert_eq!(t.expected_units_done_at(500), 0);
    assert_eq!(t.expected_units_done_at(1_099), 0);
    assert_eq!(t.expected_units_done_at(1_250), 2);
    assert_eq!(t.expected_units_done_at(99_999), 5);
    assert!(!t.is_batch_done());
    assert!(task(5, 5, 0, 1).is_batch_done());
}

#[test]
fn crafting_next_unit_remaining() {
    let t = task(5, 2, 1_000, 100);
    assert_eq!(t.next_unit_remaining_ms_at(1_250), 50);
    assert_eq!(t.next_unit_remaining_ms_at(1_400), 0);
    assert_eq!(t.next_unit_remaining_ms_at(0), 300);
    assert_eq!(task(3, 3, 0, 100).next_unit_remaining_ms_at(0), 0);
}

#[test]
fn crafting_bench_takes_one_task() {
    let mut bench = CraftingState::default();
    assert!(!bench.is_busy());
    assert!(bench.start_at(id("hunters_bow"), 3, 60 * SECOND, 5_000));
    assert!(bench.is_busy());
    let t = bench.bench.as_ref().unwrap();
    assert_eq!((t.total_units, t.completed_units, t.started_at), (3, 0, 5_000));
    assert!(!bench.start_at(id("bark_vest"), 1, SECOND, 6_000));
    assert_eq!(bench.bench.as_ref().unwrap().recipe_id, "hunters_bow");
    let mut live = CraftingState::default();
    assert!(live.start(id("bark_vest"), 2, SECOND));
    assert!(!live.start(id("bark_vest"), 2, SECOND));
}

#[test]
fn crafting_dev_skip_finishes_batch() {
    let mut bench = CraftingState::default();
    bench.start_at(id("hunters_bow"), 3, 100, 10_000);
    bench.dev_skip_at(20_000);
    let t = bench.bench.as_ref().unwrap();
    assert_eq!(t.started_at, 20_000 - 301);
    assert_eq!(t.expected_units_done_at(20_000), 3);
    let mut idle = CraftingState::default();
    idle.dev_skip_at(5);
    assert!(idle.bench.is_none());
}

#[test]
fn crafting_recipe_book() {
    let book = crafting::register_recipes();
    assert_eq!(book.len(), 17);
    assert_eq!(book[0].id, "wooden_club");
    assert_eq!(book[0].inputs, vec![(id("planks"), 3)]);
    assert_eq!(book[0].duration_per_unit, 45 * SECOND);
    let stew = book.iter().find(|r| r.id == "hearty_stew").unwrap();
    assert_eq!(stew.category, CraftingCategory::Food);
    assert_eq!(stew.inputs.len(), 3);
    assert!(book.iter().all(|r| r.output_id == r.id && r.output_qty == 1));
}

// ── refining ──

#[test]
fn refining_station_slots() {
    let mut st = RefiningState::default();
    assert!(st.start_at(StationKind::Workbench, id("wood_to_planks"), 4, 30 * SECOND, 100));
    assert!(st.is_busy(StationKind::Workbench));
    assert!(!st.is_busy(StationKind::Loom));
    assert!(!st.start_at(StationKind::Workbench, id("wood_to_kindling"), 1, SECOND, 200));
    assert!(st.start_at(StationKind::Loom, id("x"), 1, SECOND, 200));
    assert_eq!(st.slot(StationKind::Workbench).as_ref().unwrap().recipe_id, "wood_to_planks");
    *st.slot_mut(StationKind::Loom) = None;
    assert!(!st.is_busy(StationKind::Loom));
    assert_eq!(StationKind::Alchemy.label(), "Alchemy Table");
}

#[test]
fn refining_dev_skip_backdates_all() {
    let mut st = RefiningState::default();
    st.start_at(StationKind::Workbench, id("a"), 2, 10, 1_000);
    st.start_at(StationKind::Furnace, id("b"), 1, 5_000, 1_000);
    st.dev_skip_at(2_000);
    assert_eq!(st.workbench.as_ref().unwrap().started_at, 2_000 - 21);
    assert_eq!(st.furnace.as_ref().unwrap().started_at, 0);
    assert!(st.alchemy.is_none());
}

#[test]
fn refining_task_timing() {
    let t = RefiningTask {
        recipe_id: id("wood_to_planks"),
        station: StationKind::Workbench,
        total_units: 3,
        completed_units: 1,
        started_at: 0,
        duration_per_unit: 30,
    };
    assert_eq!(t.expected_units_done_at(65), 2);
    assert_eq!(t.next_unit_remaining_ms_at(45), 15);
}

#[test]
fn refining_data() {
    let stations = refining::register_stations();
    assert_eq!(stations.len(), 4);
    assert!(stations[0].unlocked);
    assert!(stations[1..].iter().all(|s| !s.unlocked));
    let recipes = refining::register_recipes();
    assert_eq!(recipes.len(), 6);
    let juice = &recipes[5];
    assert_eq!((juice.input_id.as_str(), juice.input_qty, juice.output_id.as_str(), juice.output_qty), ("berries", 2, "berry_juice", 1));
    assert_eq!(recipes[1].output_qty, 2);
    assert_eq!(recipes[1].duration_per_unit, 10 * SECOND);
}

// ── affordability ──

fn recipe(inputs: Vec<(String, u32)>) -> CraftingRecipe {
    CraftingRecipe {
        id: id("r"),
        name: id("R"),
        category: CraftingCategory::Food,
        inputs,
        output_id: id("r"),
        output_qty: 1,
        duration_per_unit: SECOND,
    }
}

#[test]
fn affordable_craft_quantity() {
    let mut inv = Inventory::new();
    inv.add(&id("planks"), 7);
    inv.add(&id("kindling"), 2);
    let r = recipe(vec![(id("planks"), 3), (id("kindling"), 1)]);
    assert_eq!(max_craft_quantity(&inv, &r), 2);
    assert_eq!(max_craft_quantity_for_recipe(&inv, &r), 2);
    assert!(recipe_is_craftable(&r, &inv));
    let none = recipe(vec![(id("heartwood"), 1)]);
    assert_eq!(max_craft_quantity(&inv, &none), 0);
    assert!(!recipe_is_craftable(&none, &inv));
    let free = recipe(vec![(id("planks"), 0)]);
    assert_eq!(max_craft_quantity(&inv, &free), 0);
    assert_eq!(max_craft_quantity(&inv, &recipe(vec![])), 0);
}

#[test]
fn a_full_stack_affords_the_largest_batch() {
    let mut inv = Inventory::new();
    inv.add(&id("planks"), u32::MAX);
    let r = recipe(vec![(id("planks"), 1), (id("kindling"), 0)]);
    assert_eq!(max_craft_quantity(&inv, &r), u32::MAX);
}

#[test]
fn units_done_caps_at_the_batch_size() {
    // 2^32 + 1 whole units of 1 ms have passed: the count is the batch size.
    let t = task(u32::MAX, 0, 0, 1);
    assert_eq!(t.expected_units_done_at((1u64 << 32) + 1), u32::MAX);
    let r = RefiningTask {
        recipe_id: id("wood_to_planks"),
        station: StationKind::Workbench,
        total_units: 7,
        completed_units: 0,
        started_at: 0,
        duration_per_unit: 1,
    };
    assert_eq!(r.expected_units_done_at((1u64 << 32) + 1), 7);
}

#[test]
fn affordable_refine_quantity() {
    let mut inv = Inventory::new();
    inv.add(&id("berries"), 5);
    let recipes = refining::register_recipes();
    assert_eq!(max_quantity_for_recipe(&inv, &recipes[5]), 2);
    assert_eq!(max_quantity_for_recipe(&inv, &recipes[4]), 5);
    assert_eq!(max_quantity_for_recipe(&inv, &recipes[0]), 0);
}

#[test]
fn station_short_labels_and_keys() {
    assert_eq!(short_station(StationKind::Workbench), "Bench");
    assert_eq!(short_station(StationKind::Furnace), "Furn ");
    assert_eq!(char_to_view_index('1'), Some(0));
    assert_eq!(char_to_view_index('8'), Some(7));
    assert_eq!(char_to_view_index('9'), None);
    assert_eq!(char_to_view_index('a'), None);
}

// ── gathering ──

fn entry(item: &str, min: u32, max: u32, weight: u32) -> DropEntry {
    DropEntry { item_id: id(item), min_qty: min, max_qty: max, weight }
}

#[test]
fn merging_drops_sums_each_item_once() {
    let merged = merge_drops(vec![(id("wood"), 2), (id("herbs"), 1), (id("wood"), 3), (id("berries"), 1), (id("herbs"), 4)]);
    assert_eq!(merged, vec![(id("wood"), 5), (id("herbs"), 5), (id("berries"), 1)]);
    assert_eq!(merge_drops(vec![]), vec![]);
}

#[test]
fn weighted_pick_uses_running_weights() {
    let pool = vec![entry("a", 1, 1, 20), entry("b", 1, 1, 0), entry("c", 1, 1, 70)];
    assert_eq!(pick_weighted(&pool, 0), Some(0));
    assert_eq!(pick_weighted(&pool, 19), Some(0));
    assert_eq!(pick_weighted(&pool, 20), Some(2));
    assert_eq!(pick_weighted(&pool, 89), Some(2));
    assert_eq!(pick_weighted(&pool, 90), None);
}

#[test]
fn rolling_a_table() {
    let table = DropTable {
        guaranteed: vec![entry("wood", 3, 5, 0), entry("stone", 0, 0, 0)],
        random_pool: vec![entry("berries", 1, 2, 70), entry("never", 9, 1, 0)],
        random_picks: 3,
    };
    let mut saw_high = false;
    for _ in 0..300 {
        let drops = table.roll();
        let wood = drops.iter().find(|(i, _)| i == "wood").unwrap().1;
        assert!((3..=5).contains(&wood));
        if wood > 3 {
            saw_high = true;
        }
        let berries = drops.iter().find(|(i, _)| i == "berries").map(|d| d.1).unwrap_or(0);
        assert!((3..=6).contains(&berries));
        assert!(drops.iter().all(|(i, q)| *q > 0 && i != "stone" && i != "never"));
        assert!(drops.len() <= 2);
    }
    assert!(saw_high);
}

#[test]
fn rolling_with_given_draws() {
    let table = DropTable {
        guaranteed: vec![entry("wood", 1, 3, 0), entry("herbs", 0, 2, 0)],
        random_pool: vec![entry("berries", 1, 2, 0), entry("wood", 1, 5, 10), entry("heartwood", 1, 1, 5)],
        random_picks: 3,
    };
    let draws = RollDraws { guaranteed: vec![2, 0], picks: vec![(3, 4), (12, 1), (9, 1)] };
    assert_eq!(table.roll_with(&draws), vec![(id("wood"), 7), (id("heartwood"), 1)]);
    let other = RollDraws { guaranteed: vec![1, 2], picks: vec![(14, 1), (0, 5), (10, 1)] };
    assert_eq!(table.roll_with(&other), vec![(id("wood"), 6), (id("herbs"), 2), (id("heartwood"), 2)]);
    let quiet = DropTable { guaranteed: vec![entry("wood", 2, 2, 0)], random_pool: vec![entry("berries", 1, 1, 0)], random_picks: 4 };
    let draws = RollDraws { guaranteed: vec![2], picks: vec![] };
    assert_eq!(quiet.roll_with(&draws), vec![(id("wood"), 2)]);
    for _ in 0..50 {
        assert_eq!(quiet.roll(), vec![(id("wood"), 2)]);
    }
}

#[test]
fn gathering_slots() {
    let mut g = GatheringState::new();
    assert_eq!(g.slots.len(), 1);
    assert!(g.has_empty_slot());
    assert_eq!(g.first_empty_slot(), Some(0));
    assert!(g.start_at(0, id("whispering_woods"), 1, 45 * SECOND, 1_000));
    assert!(!g.has_empty_slot());
    assert_eq!(g.first_empty_slot(), None);
    assert!(!g.start_at(0, id("whispering_woods"), 0, SECOND, 2_000));
    assert!(!g.start_at(3, id("whispering_woods"), 0, SECOND, 2_000));
    g.add_slot();
    assert_eq!(g.slots.len(), 1);
    g.max_slots = 2;
    g.add_slot();
    g.add_slot();
    assert_eq!(g.slots.len(), 2);
    assert_eq!(g.first_empty_slot(), Some(1));
    let t = g.complete(0).unwrap();
    assert_eq!((t.duration_index, t.started_at, t.duration_ms), (1, 1_000, 45 * SECOND));
    assert!(g.complete(0).is_none());
    assert!(g.complete(7).is_none());
    assert!(g.start(1, id("whispering_woods"), 0, 10 * SECOND));
    let task = g.slots[1].as_ref().unwrap();
    assert!(task.remaining_ms() <= task.started_at + task.duration_ms);
    assert!(!task.is_complete());
    assert_eq!(GatheringState::default().max_slots, 1);
}

#[test]
fn whispering_woods() {
    let locs = register_locations();
    assert_eq!(locs.len(), 1);
    let w = &locs[0];
    assert_eq!(w.id, "whispering_woods");
    assert!(w.unlocked);
    assert_eq!(w.durations.len(), 3);
    assert_eq!(w.durations[0].duration_ms, 10 * SECOND);
    assert_eq!(w.durations[2].duration_ms, 180 * SECOND);
    let deep = &w.durations[2].drop_table;
    assert_eq!(deep.guaranteed.len(), 3);
    assert_eq!(deep.random_pool[0].item_id, "heartwood");
    assert_eq!(deep.random_pool[0].weight, 5);
    for d in &w.durations {
        let drops = d.drop_table.roll();
        assert!(drops.iter().any(|(i, _)| i == "wood"));
    }
}

#[test]
fn every_ingredient_can_be_had_and_every_item_has_an_icon() {
    let craft = crafting::register_recipes();
    let refine = refining::register_recipes();
    let locations = register_locations();
    let mut dropped: Vec<String> = Vec::new();
    for loc in &locations {
        for d in &loc.durations {
            for e in d.drop_table.guaranteed.iter().chain(d.drop_table.random_pool.iter()) {
                dropped.push(e.item_id.clone());
            }
        }
    }
    for r in &craft {
        for (input, _) in &r.inputs {
            let refined = refine.iter().any(|x| &x.output_id == input);
            assert!(refined || dropped.contains(input), "{input} cannot be had");
        }
        if r.category != CraftingCategory::Consumables {
            assert!(item_icon_bytes(&r.output_id).is_some());
        }
    }
    for x in &refine {
        assert!(item_icon_bytes(&x.output_id).is_some());
    }
    for k in &dropped {
        assert!(item_icon_bytes(k).is_some());
    }
    assert!(item_icon_bytes("minor_healing_potion").is_none());
    assert!(item_icon_bytes("").is_none());
}
