use last_light_game::adventurer::{
    level_from_xp, register_adventurers, xp_for_level, xp_progress, xp_to_next_level, Adventurer,
    AdventurerClass, AdventurerStatus, EquipSlot, Equipment, Stats, CONSUMABLE_SLOTS, MAX_LEVEL,
};
use last_light_game::inventory::Inventory;
use last_light_game::item::{
    GearStats, ItemCategory, ItemDef, ItemProperties, ItemRegistry, Rarity,
};
use last_light_game::time::{is_complete_at, remaining_at, MINUTE, SECOND};

fn id(s: &str) -> String {
    s.to_string()
}

fn def(id: &str, name: &str, category: ItemCategory, rarity: Rarity, gold: u32, gear: Option<GearStats>) -> ItemDef {
    ItemDef {
        id: id.to_string(),
        name: name.to_string(),
        category,
        rarity,
        gold_value: gold,
        tags: Vec::new(),
        properties: ItemProperties { gear_stats: gear },
    }
}

fn registry() -> ItemRegistry {
    ItemRegistry {
        items: vec![
            def("wood", "Wood", ItemCategory::Material, Rarity::Common, 1, None),
            def("planks", "Planks", ItemCategory::Material, Rarity::Common, 2, None),
            def(
                "wooden_club",
                "Wooden Club",
                ItemCategory::Weapon,
                Rarity::Common,
                10,
                Some(GearStats { hp: 0, strength: 2, dexterity: 0, intellect: 0 }),
            ),
            def(
                "bark_vest",
                "Bark Vest",
                ItemCategory::Armor,
                Rarity::Uncommon,
                12,
                Some(GearStats { hp: 5, strength: 0, dexterity: -1, intellect: 0 }),
            ),
        ],
    }
}

// ── time ──

#[test]
fn timers_complete_at_their_deadline() {
    assert!(!is_complete_at(1_000, 500, 1_499));
    assert!(is_complete_at(1_000, 500, 1_500));
    assert!(is_complete_at(1_000, 500, 9_999));
    assert_eq!(remaining_at(1_000, 500, 1_200), 300);
    assert_eq!(remaining_at(1_000, 500, 1_500), 0);
    assert_eq!(remaining_at(1_000, 500, 0), 1_500);
    assert_eq!(SECOND, 1_000);
    assert_eq!(MINUTE, 60_000);
}

#[test]
fn clock_reads_after_the_epoch() {
    let t = last_light_game::time::now();
    assert!(t > 1_600_000_000_000);
}

// ── registry ──

#[test]
fn registry_finds_first_definition() {
    let reg = registry();
    assert_eq!(reg.get(&id("planks")).unwrap().name, "Planks");
    assert!(reg.get(&id("stone")).is_none());
}

// ── inventory ──

#[test]
fn inventory_add_count_remove() {
    let mut inv = Inventory::new();
    assert!(inv.is_empty());
    inv.add(&id("wood"), 3);
    inv.add(&id("wood"), 2);
    assert_eq!(inv.count(&id("wood")), 5);
    assert_eq!(inv.count(&id("herbs")), 0);
    assert!(inv.has(&id("wood"), 5));
    assert!(!inv.has(&id("wood"), 6));
    assert!(inv.remove(&id("wood"), 4));
    assert_eq!(inv.count(&id("wood")), 1);
    assert!(inv.remove(&id("wood"), 1));
    assert!(inv.is_empty());
    assert_eq!(inv.items().len(), 0);
}

#[test]
fn inventory_refused_removal_changes_nothing() {
    let mut inv = Inventory::new();
    inv.add(&id("wood"), 2);
    assert!(!inv.remove(&id("wood"), 3));
    assert_eq!(inv.count(&id("wood")), 2);
    assert!(!inv.remove(&id("herbs"), 1));
    assert!(inv.remove(&id("herbs"), 0));
    assert_eq!(inv.items().len(), 1);
}

#[test]
fn inventory_add_then_remove_restores_counts() {
    let mut inv = Inventory::new();
    inv.add(&id("wood"), 7);
    inv.add(&id("herbs"), 1);
    inv.add(&id("wood"), 4);
    assert!(inv.remove(&id("wood"), 4));
    assert_eq!(inv.count(&id("wood")), 7);
    assert_eq!(inv.count(&id("herbs")), 1);
}

#[test]
fn inventory_adding_zero_makes_an_entry() {
    let mut inv = Inventory::new();
    inv.add(&id("wood"), 0);
    assert!(!inv.is_empty());
    assert_eq!(inv.count(&id("wood")), 0);
    assert_eq!(inv.items().len(), 1);
}

#[test]
fn inventory_has_all_requirements() {
    let mut inv = Inventory::new();
    inv.add(&id("planks"), 3);
    inv.add(&id("kindling"), 1);
    assert!(inv.has_all(&[(id("planks"), 2), (id("kindling"), 1)]));
    assert!(!inv.has_all(&[(id("planks"), 2), (id("kindling"), 2)]));
    assert!(inv.has_all(&[]));
}

#[test]
fn inventory_items_in_category() {
    let reg = registry();
    let mut inv = Inventory::new();
    inv.add(&id("wood"), 3);
    inv.add(&id("wooden_club"), 1);
    inv.add(&id("mystery"), 9);
    let weapons = inv.items_in_category(&reg, &ItemCategory::Weapon);
    assert_eq!(weapons, vec![(id("wooden_club"), 1)]);
    let mats = inv.items_in_category(&reg, &ItemCategory::Material);
    assert_eq!(mats, vec![(id("wood"), 3)]);
}

#[test]
fn inventory_clone_keeps_contents() {
    let mut inv = Inventory::default();
    inv.add(&id("wood"), 3);
    let copy = inv.clone();
    assert_eq!(copy.count(&id("wood")), 3);
}

// ── experience ──

#[test]
fn xp_floors_follow_the_table() {
    assert_eq!(xp_for_level(0), 0);
    assert_eq!(xp_for_level(1), 0);
    assert_eq!(xp_for_level(2), 100);
    assert_eq!(xp_for_level(3), 235);
    assert_eq!(xp_for_level(10), 3_968);
    assert_eq!(xp_for_level(20), 85_257);
    assert_eq!(xp_for_level(99), 85_257);
}

#[test]
fn xp_to_next_level_values() {
    assert_eq!(xp_to_next_level(1), Some(100));
    assert_eq!(xp_to_next_level(2), Some(135));
    assert_eq!(xp_to_next_level(19), Some(22_178));
    assert_eq!(xp_to_next_level(MAX_LEVEL), None);
    assert_eq!(xp_to_next_level(50), None);
}

#[test]
fn level_from_xp_values() {
    assert_eq!(level_from_xp(0), 1);
    assert_eq!(level_from_xp(99), 1);
    assert_eq!(level_from_xp(100), 2);
    assert_eq!(level_from_xp(234), 2);
    assert_eq!(level_from_xp(235), 3);
    assert_eq!(level_from_xp(85_256), 19);
    assert_eq!(level_from_xp(85_257), 20);
    assert_eq!(level_from_xp(u32::MAX), 20);
}

#[test]
fn level_of_each_floor_is_that_level() {
    for level in 1..=MAX_LEVEL {
        assert_eq!(level_from_xp(xp_for_level(level)), level);
    }
}

#[test]
fn xp_progress_within_level() {
    assert_eq!(xp_progress(150, 2), Some((50, 135)));
    assert_eq!(xp_progress(50, 2), Some((0, 135)));
    assert_eq!(xp_progress(90_000, 20), None);
    let xp = 5_000;
    let level = level_from_xp(xp);
    let (progress, needed) = xp_progress(xp, level).unwrap();
    assert!(progress < needed);
}

// ── adventurers ──

#[test]
fn class_labels_and_growth() {
    assert_eq!(AdventurerClass::Warrior.label(), "Warrior");
    assert_eq!(AdventurerClass::Druid.label(), "Druid");
    assert_eq!(AdventurerClass::Warrior.growth(), (4, 2, 1, 0));
    assert_eq!(AdventurerClass::Rogue.growth(), (2, 1, 3, 1));
    assert_eq!(AdventurerClass::Mage.growth(), (1, 0, 1, 3));
    assert_eq!(AdventurerClass::Paladin.growth(), (3, 2, 0, 2));
    assert_eq!(AdventurerClass::Druid.growth(), (2, 1, 1, 2));
    assert_eq!(EquipSlot::Accessory.label(), "Accessory");
}

#[test]
fn starter_roster() {
    let roster = register_adventurers();
    assert_eq!(roster.len(), 5);
    let names: Vec<&str> = roster.iter().map(|a| a.name.as_str()).collect();
    assert_eq!(names, vec!["Torvald", "Sylvara", "Ember", "Aldric", "Briar"]);
    for a in &roster {
        assert_eq!(a.level, 1);
        assert_eq!(a.xp, 0);
        assert_eq!(a.consumables.len(), CONSUMABLE_SLOTS);
        assert_eq!(a.status, AdventurerStatus::Ready);
        assert!(a.equipment.equipped_ids().is_empty());
    }
    assert_eq!(roster[0].base_stats, Stats { max_hp: 25, strength: 10, dexterity: 4, intellect: 3 });
    assert_eq!(roster[2].class, AdventurerClass::Mage);
}

#[test]
fn effective_stats_add_growth_and_gear() {
    let reg = registry();
    let mut a: Adventurer = register_adventurers().remove(0);
    a.level = 3;
    a.equipment.weapon = Some(id("wooden_club"));
    a.equipment.armor = Some(id("bark_vest"));
    a.equipment.accessory = Some(id("unknown_trinket"));
    let s = a.effective_stats(&reg);
    // Warrior base 25/10/4/3, two levels of growth (4,2,1,0), club STR+2, vest HP+5 DEX-1.
    assert_eq!(s, Stats { max_hp: 25 + 8 + 5, strength: 10 + 4 + 2, dexterity: 4 + 2 - 1, intellect: 3 });
}

#[test]
fn try_level_up_follows_xp() {
    let mut a = register_adventurers().remove(1);
    assert_eq!(a.try_level_up(), None);
    a.xp = 240;
    assert_eq!(a.try_level_up(), Some(3));
    assert_eq!(a.level, 3);
    assert_eq!(a.try_level_up(), None);
    a.level = MAX_LEVEL;
    a.xp = u32::MAX;
    assert_eq!(a.try_level_up(), None);
}

#[test]
fn consumable_slots_are_padded_and_listed() {
    let mut a = register_adventurers().remove(2);
    a.consumables = vec![Some(id("healing_potion"))];
    a.init_consumable_slots();
    assert_eq!(a.consumables.len(), 4);
    a.consumables[2] = Some(id("herbal_tea"));
    let ids: Vec<&String> = a.consumable_ids();
    assert_eq!(ids, vec![&id("healing_potion"), &id("herbal_tea")]);
    a.consumables = vec![None; 6];
    a.init_consumable_slots();
    assert_eq!(a.consumables.len(), 6);
}

#[test]
fn equipment_slots() {
    let mut e = Equipment::default();
    *e.slot_mut(EquipSlot::Armor) = Some(id("bark_vest"));
    assert_eq!(e.slot(EquipSlot::Armor), &Some(id("bark_vest")));
    assert_eq!(e.slot(EquipSlot::Weapon), &None);
    e.weapon = Some(id("wooden_club"));
    assert_eq!(e.equipped_ids(), vec![&id("wooden_club"), &id("bark_vest")]);
}
