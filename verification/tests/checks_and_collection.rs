use last_light_game::adventurer::register_adventurers;
use last_light_game::crafting::{self, CraftingState, CraftingTask};
use last_light_game::gathering::{collect_expedition_at, register_locations, store_drops, DropEntry, DropTable, GatheringState};
use last_light_game::input::{Key, TextInput};
use last_light_game::inventory::Inventory;
use last_light_game::item::{ItemCategory, ItemDef, ItemProperties, ItemRegistry, Rarity};
use last_light_game::party::{
    roster_key_is_safe, row_return_ok, setup_key_is_safe, AdventureView, PartySetupFocus, RosterFocus,
};
use last_light_game::picture::picture_from_rgba;
use last_light_game::refining::{self, RefiningState, RefiningTask, StationKind};
use last_light_game::summary::totals_fit;
use last_light_game::tavern::{table_seating, TavernData};
use last_light_game::time::{timestamp_or_epoch, SECOND};
use last_light_game::views::{crafting_key_is_safe, refining_key_is_safe, CraftingView, RefiningScreen, RefiningView};

fn id(s: &str) -> String {
    s.to_string()
}

fn entry(item: &str, min: u32, max: u32, weight: u32) -> DropEntry {
    DropEntry { item_id: id(item), min_qty: min, max_qty: max, weight }
}

#[test]
fn pictures_need_exactly_their_pixels() {
    let p = picture_from_rgba(2, 1, vec![1, 2, 3, 4, 5, 6, 7, 8]).unwrap();
    assert_eq!((p.width, p.height), (2, 1));
    assert_eq!(p.rgba, vec![1, 2, 3, 4, 5, 6, 7, 8]);
    assert!(picture_from_rgba(2, 1, vec![0; 9]).is_none());
    assert!(picture_from_rgba(2, 2, vec![0; 8]).is_none());
    assert!(picture_from_rgba(0, 5, Vec::new()).is_some());
}

#[test]
fn clock_before_epoch_reads_as_epoch() {
    assert_eq!(timestamp_or_epoch(Some(1_234)), 1_234);
    assert_eq!(timestamp_or_epoch(None), 0);
}

#[test]
fn rollable_tables() {
    for loc in register_locations() {
        for d in &loc.durations {
            assert!(d.drop_table.is_rollable());
        }
    }
    let bad_range = DropTable { guaranteed: vec![entry("wood", 3, 1, 0)], random_pool: vec![], random_picks: 0 };
    assert!(!bad_range.is_rollable());
    // A pool entry that can never be picked may have any range.
    let unpickable = DropTable { guaranteed: vec![], random_pool: vec![entry("herbs", 5, 1, 0)], random_picks: 3 };
    assert!(unpickable.is_rollable());
    let heavy = DropTable {
        guaranteed: vec![],
        random_pool: vec![entry("a", 1, 1, u32::MAX), entry("b", 1, 1, 1)],
        random_picks: 1,
    };
    assert!(!heavy.is_rollable());
    let big = DropTable { guaranteed: vec![entry("wood", 1, u32::MAX, 0)], random_pool: vec![entry("b", 1, 1, 1)], random_picks: 1 };
    assert!(!big.is_rollable());
    let edge = DropTable { guaranteed: vec![entry("wood", 1, u32::MAX - 1, 0)], random_pool: vec![entry("b", 1, 1, 1)], random_picks: 1 };
    assert!(edge.is_rollable());
}

#[test]
fn stored_drops_cap_at_the_largest_count() {
    let mut inv = Inventory::new();
    inv.add(&id("wood"), u32::MAX - 2);
    inv.add(&id("herbs"), 4);
    store_drops(&mut inv, &vec![(id("wood"), 5), (id("berries"), 2)]);
    assert_eq!(inv.count(&id("wood")), u32::MAX);
    assert_eq!(inv.count(&id("berries")), 2);
    assert_eq!(inv.count(&id("herbs")), 4);
}

#[test]
fn expeditions_come_back_when_done() {
    let locations = register_locations();
    let mut gathering = GatheringState::new();
    let mut inv = Inventory::new();
    assert!(gathering.start_at(0, id("whispering_woods"), 0, 10 * SECOND, 1_000));
    assert!(collect_expedition_at(&mut gathering, &mut inv, &locations, 0, 5_000).is_none());
    assert!(gathering.slots[0].is_some());
    let drops = collect_expedition_at(&mut gathering, &mut inv, &locations, 0, 11_000).unwrap();
    assert!(gathering.slots[0].is_none());
    let wood = drops.iter().find(|(k, _)| k == "wood").map(|(_, q)| *q).unwrap();
    assert!((1..=2).contains(&wood));
    assert_eq!(inv.count(&id("wood")), wood);
    for (k, q) in &drops {
        assert!(k == "wood" || k == "herbs");
        assert_eq!(inv.count(k), *q);
    }
    // An unknown location frees the slot and brings nothing back.
    assert!(gathering.start_at(0, id("nowhere"), 0, 10, 0));
    let none = collect_expedition_at(&mut gathering, &mut inv, &locations, 0, 10).unwrap();
    assert!(none.is_empty());
    assert!(gathering.slots[0].is_none());
    assert!(collect_expedition_at(&mut gathering, &mut inv, &locations, 3, 10).is_none());
}

#[test]
fn visitors_come_in_when_due_and_seated() {
    let mut tavern = TavernData::new_at(0);
    assert!(!tavern.admit_visitor_at(29_999));
    assert_eq!(tavern.visitors.len(), 0);
    assert!(tavern.admit_visitor_at(30_000));
    assert_eq!(tavern.visitors.len(), 1);
    tavern.upgrades.tables = 0;
    tavern.next_visitor_at = 0;
    assert!(!tavern.admit_visitor_at(50_000));
    assert_eq!(tavern.visitors.len(), 1);
}

#[test]
fn key_checks_match_the_screens_needs() {
    let book = crafting::register_recipes();
    let mut v = CraftingView::new();
    assert!(crafting_key_is_safe(&v, &book, Key::PageDown));
    v.quantity = u32::MAX - 4;
    assert!(!crafting_key_is_safe(&v, &book, Key::PageDown));
    assert!(crafting_key_is_safe(&v, &book, Key::Enter));
    v.selected_recipe = 99;
    assert!(crafting_key_is_safe(&v, &book, Key::PageDown));

    let stations = refining::register_stations();
    let rbook = refining::register_recipes();
    let mut r = RefiningView::new();
    assert!(refining_key_is_safe(&r, &stations, &rbook, Key::Enter));
    r.screen = RefiningScreen::AtStation;
    r.selected_recipe = 6;
    assert!(!refining_key_is_safe(&r, &stations, &rbook, Key::Enter));
    assert!(refining_key_is_safe(&r, &stations, &rbook, Key::Up));
    r.selected_recipe = 0;
    r.quantity = u32::MAX;
    assert!(!refining_key_is_safe(&r, &stations, &rbook, Key::PageDown));

    let mut t = TextInput::new();
    assert!(t.can_edit());
    t.cursor = 3;
    assert!(!t.can_edit());
}

#[test]
fn skip_checks() {
    let mut c = CraftingState { bench: None };
    assert!(c.can_skip());
    c.bench = Some(CraftingTask { recipe_id: id("x"), total_units: 2, completed_units: 0, started_at: 0, duration_per_unit: 10 });
    assert!(c.can_skip());
    c.bench = Some(CraftingTask { recipe_id: id("x"), total_units: 2, completed_units: 0, started_at: 0, duration_per_unit: u64::MAX / 2 + 1 });
    assert!(!c.can_skip());
    let task = |d: u64| RefiningTask {
        recipe_id: id("r"),
        station: StationKind::Workbench,
        total_units: 3,
        completed_units: 0,
        started_at: 0,
        duration_per_unit: d,
    };
    let mut r = RefiningState { workbench: Some(task(5)), furnace: None, alchemy: None, loom: None };
    assert!(r.can_skip());
    r.loom = Some(task(u64::MAX / 3));
    assert!(!r.can_skip());
}

fn registry() -> ItemRegistry {
    let def = |i: &str, name: &str, cat: ItemCategory, gold: u32| ItemDef {
        id: id(i),
        name: name.to_string(),
        category: cat,
        rarity: Rarity::Common,
        gold_value: gold,
        tags: vec![],
        properties: ItemProperties { gear_stats: None },
    };
    ItemRegistry {
        items: vec![def("wooden_club", "Wooden Club", ItemCategory::Weapon, 10), def("wood", "Wood", ItemCategory::Material, 2)],
    }
}

#[test]
fn totals_and_returns_fit() {
    let reg = registry();
    let mut inv = Inventory::new();
    inv.add(&id("wood"), 100);
    assert!(totals_fit(&inv, &reg));
    inv.add(&id("wooden_club"), u32::MAX / 10 + 1);
    assert!(!totals_fit(&inv, &reg));

    let mut roster = register_adventurers();
    roster[0].equipment.weapon = Some(id("wooden_club"));
    let mut full = Inventory::new();
    full.add(&id("wooden_club"), u32::MAX);
    assert!(!row_return_ok(&full, &roster, 0, 0));
    assert!(row_return_ok(&full, &roster, 0, 1));
    assert!(row_return_ok(&full, &roster, 9, 0));

    let mut v = AdventureView::new();
    v.roster_focus = RosterFocus::Equipment;
    assert!(!roster_key_is_safe(&v, &full, &roster, &reg, Key::Char('x')));
    assert!(roster_key_is_safe(&v, &full, &roster, &reg, Key::Up));
    assert!(roster_key_is_safe(&v, &Inventory::new(), &roster, &reg, Key::Char('x')));

    v.party_slots = [Some(0), None, None];
    v.setup_focus = PartySetupFocus::EquipmentSlots;
    assert!(!setup_key_is_safe(&v, &full, &roster, Key::Enter));
    assert!(setup_key_is_safe(&v, &Inventory::new(), &roster, Key::Enter));
    v.setup_slot = 3;
    assert!(!setup_key_is_safe(&v, &Inventory::new(), &roster, Key::Enter));
}

#[test]
fn stats_fit_for_the_roster() {
    let reg = registry();
    let mut roster = register_adventurers();
    assert!(roster[0].stats_fit(&reg));
    roster[0].base_stats.max_hp = i32::MAX;
    roster[0].level = 2;
    assert!(!roster[0].stats_fit(&reg));
}

#[test]
fn visitors_fill_tables_two_by_two() {
    assert_eq!(table_seating(4, 5), vec![2, 2, 1, 0]);
    assert_eq!(table_seating(2, 9), vec![2, 2]);
    assert_eq!(table_seating(3, 0), vec![0, 0, 0]);
    assert!(table_seating(0, 3).is_empty());
}
