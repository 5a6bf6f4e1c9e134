use last_light_game::adventurer::{register_adventurers, Adventurer};
use last_light_game::gathering::register_locations;
use last_light_game::gear::{
    compatible_items_for_slot, cycle_consumable, cycle_equipment, equip_consumable_from_picker,
    equip_item_from_picker, unequip_consumable, unequip_slot,
};
use last_light_game::inventory::Inventory;
use last_light_game::item::{GearStats, ItemCategory, ItemDef, ItemProperties, ItemRegistry, Rarity};
use last_light_game::summary::{collect_unique_drops, inventory_stats, InventoryStats};
use last_light_game::tavern::{
    available_upgrades, generate_visitor, max_visitors, visitor_from_rolls, TavernData,
    TavernUpgrades, Visitor, VisitorRolls, SEATS_PER_TABLE, STARTING_TABLES,
};
use last_light_game::text::{decimal_string, format_duration, format_gear_stats, format_quantity, wrap_text};
use last_light_game::time::SECOND;
use last_light_game::ui::{
    adventurer_portrait_bytes, enemy_portrait_bytes, item_icon_bytes, map_tile_bytes, str_eq, MapTile,
};

fn id(s: &str) -> String {
    s.to_string()
}

fn def(id: &str, name: &str, category: ItemCategory, rarity: Rarity, gold: u32, tags: &[&str]) -> ItemDef {
    ItemDef {
        id: id.to_string(),
        name: name.to_string(),
        category,
        rarity,
        gold_value: gold,
        tags: tags.iter().map(|t| t.to_string()).collect(),
        properties: ItemProperties { gear_stats: None },
    }
}

fn registry() -> ItemRegistry {
    ItemRegistry {
        items: vec![
            def("wood", "Wood", ItemCategory::Material, Rarity::Common, 1, &[]),
            def("herbs", "Herbs", ItemCategory::Material, Rarity::Common, 2, &[]),
            def("berries", "Berries", ItemCategory::Material, Rarity::Uncommon, 3, &[]),
            def("heartwood", "Heartwood", ItemCategory::Material, Rarity::Rare, 25, &[]),
            def("wooden_club", "Wooden Club", ItemCategory::Weapon, Rarity::Common, 10, &[]),
            def("hunters_bow", "Hunter's Bow", ItemCategory::Weapon, Rarity::Common, 12, &[]),
            def("bark_vest", "Bark Vest", ItemCategory::Armor, Rarity::Common, 12, &[]),
            def("healing_potion", "Healing Potion", ItemCategory::Consumable, Rarity::Common, 8, &["consumable"]),
            def("herbal_tea", "Herbal Tea", ItemCategory::Drink, Rarity::Common, 4, &["consumable"]),
            def("strength_tonic", "Strength Tonic", ItemCategory::Consumable, Rarity::Common, 6, &["consumable"]),
        ],
    }
}

fn owned(inv: &Inventory, roster: &[Adventurer], item: &str) -> u32 {
    let mut n = inv.count(&id(item));
    for a in roster {
        for slot in [&a.equipment.weapon, &a.equipment.armor, &a.equipment.accessory] {
            if slot.as_deref() == Some(item) {
                n += 1;
            }
        }
        n += a.consumables.iter().filter(|c| c.as_deref() == Some(item)).count() as u32;
    }
    n
}

// ── tavern ──

#[test]
fn seats_and_capacity() {
    assert_eq!(max_visitors(STARTING_TABLES), 8);
    assert_eq!(max_visitors(0), 0);
    let t = TavernData::new_at(1_000);
    assert_eq!(t.capacity(), STARTING_TABLES * SEATS_PER_TABLE);
    assert_eq!(t.occupancy(), 0);
    assert_eq!(t.next_visitor_at, 31_000);
    assert!(t.auto_stock);
    assert_eq!(t.room_passive_gold(), 0);
    let d = TavernData::default();
    assert!(!d.auto_stock);
    assert_eq!(d.next_visitor_at, 0);
    assert_eq!(d.upgrades, TavernUpgrades::default());
    let live = TavernData::new();
    assert!(live.next_visitor_at > 30_000);
}

fn visitor(food: Option<&str>, drink: Option<&str>) -> Visitor {
    Visitor {
        name: id("A merchant"),
        food_order: food.map(id),
        drink_order: drink.map(id),
        gold_reward: 5,
        arrived_at: 10_000,
        patience: 60 * SECOND,
        food_served: false,
        drink_served: false,
    }
}

#[test]
fn visitor_service_and_patience() {
    let mut v = visitor(Some("hearty_stew"), Some("herbal_tea"));
    assert!(!v.is_fully_served());
    v.food_served = true;
    assert!(!v.is_fully_served());
    v.drink_served = true;
    assert!(v.is_fully_served());
    assert!(visitor(None, None).is_fully_served());
    assert!(!v.is_patience_expired_at(69_999));
    assert!(v.is_patience_expired_at(70_000));
    assert_eq!(v.time_remaining_at(40_000), 30_000);
    assert_eq!(v.time_remaining_at(80_000), 0);
    assert!(v.is_patience_expired());
    assert_eq!(v.time_remaining(), 0);
}

#[test]
fn visitor_built_from_rolls() {
    let rolls = VisitorRolls {
        name_index: 3,
        food_roll: 10,
        drink_roll: 90,
        food_index: 1,
        drink_index: 1,
        base_gold: 4,
        patience_secs: 100,
    };
    let v = visitor_from_rolls(33, rolls, 7);
    assert_eq!(v.name, "A wandering bard");
    assert_eq!(v.food_order, Some(id("berry_tart")));
    assert_eq!(v.drink_order, None);
    assert_eq!(v.gold_reward, 7);
    assert_eq!(v.patience, 100 * SECOND + 16_500);
    assert_eq!(v.arrived_at, 7);
    let thirsty = visitor_from_rolls(200, VisitorRolls { food_roll: 85, drink_roll: 99, ..rolls }, 0);
    assert_eq!(thirsty.food_order, None);
    assert_eq!(thirsty.drink_order, Some(id("herbal_tea")));
    assert_eq!(thirsty.gold_reward, 9);
}

#[test]
fn generated_visitors_stay_in_range() {
    let mut gold_seen = std::collections::BTreeSet::new();
    for _ in 0..300 {
        let v = generate_visitor(20);
        assert!(v.food_order.is_some() || v.drink_order.is_some());
        assert!((5..=10).contains(&v.gold_reward));
        assert!(v.patience >= 60 * SECOND + 10_000 && v.patience <= 120 * SECOND + 10_000);
        assert_eq!((v.patience - 10_000) % SECOND, 0);
        gold_seen.insert(v.gold_reward);
    }
    assert!(gold_seen.len() > 1);
}

#[test]
fn upgrades_on_offer() {
    let list = available_upgrades(&TavernUpgrades::default());
    let ids: Vec<&str> = list.iter().map(|u| u.id).collect();
    assert_eq!(ids, vec!["table", "kitchen", "cellar", "room"]);
    assert_eq!(list[0].gold_cost, 150);
    assert_eq!(list[1].gold_cost, 50);
    assert_eq!(list[3].gold_cost, 75);
    assert_eq!(list[1].material_cost, vec![(id("planks"), 6), (id("kindling"), 3)]);
    let maxed = TavernUpgrades { tables: 8, kitchen_level: 3, cellar_level: 2, rooms: 4, noticeboard_level: 0 };
    let list = available_upgrades(&maxed);
    assert_eq!(list.len(), 1);
    assert_eq!(list[0].id, "cellar");
    assert_eq!(list[0].gold_cost, 100);
}

#[test]
fn next_visitor_schedule() {
    let mut t = TavernData::new_at(0);
    t.schedule_next_visitor_with(60, 1_000);
    assert_eq!(t.next_visitor_at, 61_000);
    t.reputation = 500;
    t.schedule_next_visitor_with(30, 1_000);
    assert_eq!(t.next_visitor_at, 16_000);
    t.schedule_next_visitor_with(120, 1_000);
    assert_eq!(t.next_visitor_at, 81_000);
    t.schedule_next_visitor();
    assert!(t.next_visitor_at > 15 * SECOND);
}

// ── gear ──

#[test]
fn equip_and_unequip_move_items() {
    let mut inv = Inventory::new();
    inv.add(&id("wooden_club"), 1);
    inv.add(&id("hunters_bow"), 2);
    let mut roster = register_adventurers();
    equip_item_from_picker(&mut inv, &mut roster, 0, 0, &id("wooden_club"));
    assert_eq!(roster[0].equipment.weapon, Some(id("wooden_club")));
    assert_eq!(inv.count(&id("wooden_club")), 0);
    equip_item_from_picker(&mut inv, &mut roster, 0, 0, &id("hunters_bow"));
    assert_eq!(roster[0].equipment.weapon, Some(id("hunters_bow")));
    assert_eq!(inv.count(&id("wooden_club")), 1);
    assert_eq!(inv.count(&id("hunters_bow")), 1);
    // Nothing to equip: the slot is emptied and stays empty.
    equip_item_from_picker(&mut inv, &mut roster, 0, 1, &id("bark_vest"));
    assert_eq!(roster[0].equipment.armor, None);
    // A slot number past the three gear slots puts the item back.
    equip_item_from_picker(&mut inv, &mut roster, 0, 5, &id("hunters_bow"));
    assert_eq!(inv.count(&id("hunters_bow")), 1);
    unequip_slot(&mut inv, &mut roster, 0, 0);
    assert_eq!(roster[0].equipment.weapon, None);
    assert_eq!(inv.count(&id("hunters_bow")), 2);
    unequip_slot(&mut inv, &mut roster, 9, 0);
    assert_eq!(owned(&inv, &roster, "hunters_bow"), 2);
    assert_eq!(owned(&inv, &roster, "wooden_club"), 1);
}

#[test]
fn consumable_slots_move_items() {
    let mut inv = Inventory::new();
    inv.add(&id("healing_potion"), 2);
    let mut roster = register_adventurers();
    roster[1].consumables.clear();
    equip_consumable_from_picker(&mut inv, &mut roster, 1, 2, &id("healing_potion"));
    assert_eq!(roster[1].consumables.len(), 4);
    assert_eq!(roster[1].consumables[2], Some(id("healing_potion")));
    assert_eq!(inv.count(&id("healing_potion")), 1);
    equip_consumable_from_picker(&mut inv, &mut roster, 1, 7, &id("healing_potion"));
    assert_eq!(inv.count(&id("healing_potion")), 1);
    unequip_consumable(&mut inv, &mut roster, 1, 2);
    assert_eq!(roster[1].consumables[2], None);
    assert_eq!(inv.count(&id("healing_potion")), 2);
    assert_eq!(owned(&inv, &roster, "healing_potion"), 2);
}

#[test]
fn cycling_gear_and_consumables() {
    let reg = registry();
    let mut inv = Inventory::new();
    inv.add(&id("wooden_club"), 1);
    inv.add(&id("hunters_bow"), 1);
    inv.add(&id("healing_potion"), 1);
    inv.add(&id("strength_tonic"), 3);
    inv.add(&id("herbal_tea"), 1);
    let mut roster = register_adventurers();
    cycle_equipment(&mut inv, &mut roster, &reg, 0, 0);
    let first = roster[0].equipment.weapon.clone().unwrap();
    assert!(first == "wooden_club" || first == "hunters_bow");
    cycle_equipment(&mut inv, &mut roster, &reg, 0, 1);
    assert_eq!(roster[0].equipment.armor, None);
    assert_eq!(owned(&inv, &roster, "wooden_club") + owned(&inv, &roster, "hunters_bow"), 2);

    cycle_consumable(&mut inv, &mut roster, &reg, 0, 0);
    assert_eq!(roster[0].consumables[0], Some(id("healing_potion")));
    cycle_consumable(&mut inv, &mut roster, &reg, 0, 0);
    assert_eq!(roster[0].consumables[0], Some(id("strength_tonic")));
    cycle_consumable(&mut inv, &mut roster, &reg, 0, 0);
    assert_eq!(roster[0].consumables[0], Some(id("healing_potion")));
    assert_eq!(owned(&inv, &roster, "healing_potion"), 1);
    assert_eq!(owned(&inv, &roster, "strength_tonic"), 3);
    assert_eq!(inv.count(&id("herbal_tea")), 1);
}

#[test]
fn cycling_switches_to_the_other_weapon() {
    let reg = registry();
    let mut inv = Inventory::new();
    inv.add(&id("wooden_club"), 1);
    inv.add(&id("hunters_bow"), 1);
    let mut roster = register_adventurers();
    cycle_equipment(&mut inv, &mut roster, &reg, 0, 0);
    let first = roster[0].equipment.weapon.clone().unwrap();
    cycle_equipment(&mut inv, &mut roster, &reg, 0, 0);
    let second = roster[0].equipment.weapon.clone().unwrap();
    assert_ne!(first, second);
    assert_eq!(inv.count(&first), 1);
    assert_eq!(inv.count(&second), 0);
    cycle_equipment(&mut inv, &mut roster, &reg, 0, 0);
    assert_eq!(roster[0].equipment.weapon, Some(first.clone()));
    // With one weapon held, cycling puts the same one back on.
    inv.remove(&second, 1);
    cycle_equipment(&mut inv, &mut roster, &reg, 0, 0);
    assert_eq!(roster[0].equipment.weapon, Some(first));
}

#[test]
fn picker_lists_sorted_by_name() {
    let reg = registry();
    let mut inv = Inventory::new();
    inv.add(&id("wooden_club"), 1);
    inv.add(&id("hunters_bow"), 2);
    inv.add(&id("bark_vest"), 0);
    inv.add(&id("strength_tonic"), 1);
    inv.add(&id("herbal_tea"), 2);
    assert_eq!(compatible_items_for_slot(&inv, &reg, 0), vec![(id("hunters_bow"), 2), (id("wooden_club"), 1)]);
    assert_eq!(compatible_items_for_slot(&inv, &reg, 1), vec![]);
    assert_eq!(compatible_items_for_slot(&inv, &reg, 3), vec![(id("herbal_tea"), 2), (id("strength_tonic"), 1)]);
}

// ── summaries ──

#[test]
fn inventory_summary() {
    let reg = registry();
    let mut inv = Inventory::new();
    inv.add(&id("wood"), 10);
    inv.add(&id("heartwood"), 2);
    inv.add(&id("mystery"), 5);
    assert_eq!(inventory_stats(&inv, &reg), InventoryStats { unique: 3, total: 17, value: 60 });
}

#[test]
fn finds_of_the_woods() {
    let reg = registry();
    let woods = &register_locations()[0];
    let finds = collect_unique_drops(woods, &reg);
    let names: Vec<(&str, Rarity)> = finds.iter().map(|(n, r)| (n.as_str(), *r)).collect();
    assert_eq!(
        names,
        vec![("Wood", Rarity::Common), ("Herbs", Rarity::Common), ("Berries", Rarity::Uncommon), ("Heartwood", Rarity::Rare)]
    );
}

// ── text ──

#[test]
fn number_formats() {
    assert_eq!(decimal_string(0), "0");
    assert_eq!(decimal_string(1_234_567), "1234567");
    assert_eq!(decimal_string(u64::MAX), u64::MAX.to_string());
    assert_eq!(format_duration(0), "0:00");
    assert_eq!(format_duration(9_999), "0:09");
    assert_eq!(format_duration(65_000), "1:05");
    assert_eq!(format_duration(3_600_000), "60:00");
    assert_eq!(format_quantity(999), "999");
    assert_eq!(format_quantity(9_999), "9999");
    assert_eq!(format_quantity(12_345), "12k");
    assert_eq!(format_quantity(5_400_000), "5M");
}

#[test]
fn gear_stat_lines() {
    assert_eq!(format_gear_stats(&GearStats { hp: 5, strength: 0, dexterity: -1, intellect: 2 }), "HP +5   DEX -1   INT +2");
    assert_eq!(format_gear_stats(&GearStats { hp: 0, strength: 0, dexterity: 0, intellect: 0 }), "");
    assert_eq!(format_gear_stats(&GearStats { hp: 0, strength: i32::MIN, dexterity: 0, intellect: 0 }), "STR -2147483648");
}

// ── assets ──

#[test]
fn asset_lookup() {
    assert_eq!(map_tile_bytes(MapTile::LadderDown), "tiles/ladder_down.png");
    assert_eq!(map_tile_bytes(MapTile::Fog), "tiles/fog.png");
    assert_eq!(adventurer_portrait_bytes("briar"), Some("portraits/briar.png"));
    assert_eq!(adventurer_portrait_bytes("nobody"), None);
    assert_eq!(enemy_portrait_bytes("Rat King"), Some("enemies/rat_king.png"));
    assert_eq!(enemy_portrait_bytes("rat king"), None);
    assert_eq!(item_icon_bytes("herbal_tea"), Some("items/herbal_tea.png"));
    assert_eq!(item_icon_bytes("healing_potion"), None);
    assert!(str_eq("ä", "ä"));
    assert!(!str_eq("ab", "abc"));
}

#[test]
fn wrap_text_fills_lines_greedily() {
    assert_eq!(wrap_text("the quick brown fox", 10), vec!["the quick", "brown fox"]);
    assert_eq!(wrap_text("  spaced   out\twords\n", 9), vec!["spaced", "out words"]);
    assert_eq!(wrap_text("a b c", 5), vec!["a b c"]);
}

#[test]
fn wrap_text_edge_cases() {
    assert_eq!(wrap_text("keep  as is", 0), vec!["keep  as is"]);
    assert_eq!(wrap_text("", 8), Vec::<String>::new());
    assert_eq!(wrap_text("   ", 8), Vec::<String>::new());
    assert_eq!(wrap_text("tiny enormousword end", 6), vec!["tiny", "enormousword", "end"]);
    // Widths count bytes: "é" takes two.
    assert_eq!(wrap_text("éé éé", 5), vec!["éé", "éé"]);
    assert_eq!(wrap_text("éé éé", 9), vec!["éé éé"]);
}
