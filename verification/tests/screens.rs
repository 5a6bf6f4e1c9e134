use last_light_game::adventurer::{register_adventurers, AdventurerStatus};
use last_light_game::text::gear_hint;
use last_light_game::art::{
    ember_line, fallback_icon, inset_rect, leaf_line, pixels_to_cell, pixmap_cells, rarity_color, rgba_cells, Area,
    Glyph, HalfCell, Pixel, Tone,
};
use last_light_game::crafting::{self, CraftingState};
use last_light_game::gathering::{register_locations, GatheringState};
use last_light_game::input::{grid_move, scroll_log, Key, TextInput};
use last_light_game::inventory::Inventory;
use last_light_game::item::{GearStats, ItemCategory, ItemDef, ItemProperties, ItemRegistry, Rarity};
use last_light_game::party::{
    adventure_esc, check_party, handle_party_setup, handle_quest_board, handle_results, handle_roster,
    mark_party_on_quest, restore_party, AdventureScreen, AdventureView, EscOutcome, PartyRefusal, PartySetupFocus,
    RosterFocus,
};
use last_light_game::refining::{self, RefiningState, StationKind};
use last_light_game::shell::{route_key, BottomTab, Focus, MainView, Route, Shell};
use last_light_game::views::{
    crafting_recipes_in, effective_gathering_screen, handle_crafting_input, handle_gathering_input,
    handle_inventory_input, handle_refining_input, recipes_for_station, CraftingOutcome, CraftingView,
    GatheringOutcome, GatheringScreen, GatheringView, InventoryView, RefiningOutcome, RefiningScreen, RefiningView,
    Transition, TRANSITION_FRAMES,
};

fn id(s: &str) -> String {
    s.to_string()
}

fn def(id: &str, name: &str, category: ItemCategory, rarity: Rarity, tags: &[&str]) -> ItemDef {
    ItemDef {
        id: id.to_string(),
        name: name.to_string(),
        category,
        rarity,
        gold_value: 1,
        tags: tags.iter().map(|t| t.to_string()).collect(),
        properties: ItemProperties { gear_stats: None },
    }
}

fn registry() -> ItemRegistry {
    ItemRegistry {
        items: vec![
            def("wooden_club", "Wooden Club", ItemCategory::Weapon, Rarity::Common, &[]),
            def("hunters_bow", "Hunter's Bow", ItemCategory::Weapon, Rarity::Uncommon, &[]),
            def("bark_vest", "Bark Vest", ItemCategory::Armor, Rarity::Common, &[]),
            def("healing_potion", "Healing Potion", ItemCategory::Consumable, Rarity::Common, &["consumable"]),
            def("herbal_tea", "Herbal Tea", ItemCategory::Drink, Rarity::Common, &["consumable"]),
        ],
    }
}

// ── keys, text input and grids ──

#[test]
fn text_input_edits_at_the_cursor() {
    let mut t = TextInput::new();
    for c in "hlo".chars() {
        assert_eq!(t.handle_key(Key::Char(c)), None);
    }
    assert_eq!(t.cursor, 3);
    t.handle_key(Key::Left);
    t.handle_key(Key::Left);
    t.handle_key(Key::Char('e'));
    t.handle_key(Key::Char('l'));
    assert_eq!(t.text.iter().collect::<String>(), "hello");
    assert_eq!(t.cursor, 3);
    t.handle_key(Key::Home);
    t.handle_key(Key::Delete);
    assert_eq!(t.text.iter().collect::<String>(), "ello");
    t.handle_key(Key::End);
    assert_eq!(t.cursor, 4);
    t.handle_key(Key::Backspace);
    assert_eq!(t.text.iter().collect::<String>(), "ell");
    t.handle_key(Key::Right);
    assert_eq!(t.cursor, 3);
    let line = t.handle_key(Key::Enter);
    assert_eq!(line.map(|l| l.iter().collect::<String>()), Some("ell".to_string()));
    assert!(t.text.is_empty());
    assert_eq!(t.cursor, 0);
    assert_eq!(t.handle_key(Key::Enter), None);
    t.handle_key(Key::Backspace);
    assert_eq!(t.cursor, 0);
}

#[test]
fn backspace_undoes_typing() {
    let mut t = TextInput { text: "tavern".chars().collect(), cursor: 3 };
    t.handle_key(Key::Char('é'));
    assert_eq!(t.text.iter().collect::<String>(), "tavéern");
    t.handle_key(Key::Backspace);
    assert_eq!(t.text.iter().collect::<String>(), "tavern");
    assert_eq!(t.cursor, 3);
}

#[test]
fn log_scroll_and_grid() {
    assert_eq!(scroll_log(0, Key::Up), 0);
    assert_eq!(scroll_log(3, Key::Up), 2);
    assert_eq!(scroll_log(3, Key::Down), 4);
    assert_eq!(scroll_log(3, Key::Enter), 3);
    assert_eq!(grid_move(0, Key::Right), 1);
    assert_eq!(grid_move(1, Key::Right), 1);
    assert_eq!(grid_move(1, Key::Left), 0);
    assert_eq!(grid_move(0, Key::Left), 0);
    assert_eq!(grid_move(0, Key::Down), 2);
    assert_eq!(grid_move(2, Key::Down), 2);
    assert_eq!(grid_move(3, Key::Up), 1);
    assert_eq!(grid_move(1, Key::Up), 1);
    for cur in 0..4 {
        for key in [Key::Left, Key::Right, Key::Up, Key::Down, Key::Enter] {
            assert!(grid_move(cur, key) < 4);
        }
    }
}

// ── refining view ──

#[test]
fn refining_view_walks_in_and_starts_a_batch() {
    let stations = refining::register_stations();
    let book = refining::register_recipes();
    let mut inv = Inventory::new();
    inv.add(&id("wood"), 7);
    let mut state = RefiningState::default();
    let mut v = RefiningView::new();

    // Locked stations cannot be entered.
    assert_eq!(handle_refining_input(&mut v, &mut state, &inv, &stations, &book, Key::Right), RefiningOutcome::Nothing);
    assert_eq!(v.selected_station, 1);
    handle_refining_input(&mut v, &mut state, &inv, &stations, &book, Key::Enter);
    assert_eq!(v.screen, RefiningScreen::Stations);
    handle_refining_input(&mut v, &mut state, &inv, &stations, &book, Key::Left);
    handle_refining_input(&mut v, &mut state, &inv, &stations, &book, Key::Enter);
    assert_eq!(v.screen, RefiningScreen::AtStation);
    assert_eq!((v.current_station, v.selected_recipe, v.quantity), (0, 0, 1));

    // Batch size stays within what seven wood affords.
    handle_refining_input(&mut v, &mut state, &inv, &stations, &book, Key::PageDown);
    assert_eq!(v.quantity, 6);
    handle_refining_input(&mut v, &mut state, &inv, &stations, &book, Key::PageDown);
    assert_eq!(v.quantity, 7);
    handle_refining_input(&mut v, &mut state, &inv, &stations, &book, Key::Right);
    assert_eq!(v.quantity, 7);
    handle_refining_input(&mut v, &mut state, &inv, &stations, &book, Key::PageUp);
    assert_eq!(v.quantity, 2);
    handle_refining_input(&mut v, &mut state, &inv, &stations, &book, Key::End);
    assert_eq!(v.quantity, 7);
    handle_refining_input(&mut v, &mut state, &inv, &stations, &book, Key::Home);
    assert_eq!(v.quantity, 1);
    handle_refining_input(&mut v, &mut state, &inv, &stations, &book, Key::Right);
    assert_eq!(v.quantity, 2);

    let out = handle_refining_input(&mut v, &mut state, &inv, &stations, &book, Key::Enter);
    assert_eq!(out, RefiningOutcome::Started(0, 2));
    assert_eq!(v.quantity, 1);
    let task = state.workbench.as_ref().unwrap();
    assert_eq!((task.recipe_id.as_str(), task.total_units, task.completed_units), ("wood_to_planks", 2, 0));

    let out = handle_refining_input(&mut v, &mut state, &inv, &stations, &book, Key::Enter);
    assert_eq!(out, RefiningOutcome::Busy(StationKind::Workbench));
}

#[test]
fn refining_view_refuses_without_materials() {
    let stations = refining::register_stations();
    let book = refining::register_recipes();
    let inv = Inventory::new();
    let mut state = RefiningState::default();
    let mut v = RefiningView::new();
    handle_refining_input(&mut v, &mut state, &inv, &stations, &book, Key::Enter);
    handle_refining_input(&mut v, &mut state, &inv, &stations, &book, Key::Down);
    assert_eq!(v.selected_recipe, 1);
    let out = handle_refining_input(&mut v, &mut state, &inv, &stations, &book, Key::Enter);
    assert_eq!(out, RefiningOutcome::NotEnough(1));
    assert!(state.workbench.is_none());
    assert_eq!(recipes_for_station(&book, StationKind::Workbench), vec![0, 1, 2, 3, 4, 5]);
    assert!(recipes_for_station(&book, StationKind::Loom).is_empty());
}

// ── crafting view ──

#[test]
fn crafting_view_cycles_tabs_and_starts() {
    let book = crafting::register_recipes();
    let mut inv = Inventory::new();
    inv.add(&id("planks"), 7);
    inv.add(&id("kindling"), 1);
    let mut bench = CraftingState::default();
    let mut v = CraftingView::new();

    handle_crafting_input(&mut v, &mut bench, &inv, &book, Key::Tab, true);
    assert_eq!(v.selected_category, 5);
    handle_crafting_input(&mut v, &mut bench, &inv, &book, Key::Tab, false);
    assert_eq!(v.selected_category, 0);
    handle_crafting_input(&mut v, &mut bench, &inv, &book, Key::BackTab, false);
    assert_eq!(v.selected_category, 5);
    handle_crafting_input(&mut v, &mut bench, &inv, &book, Key::Tab, false);

    // Weapons: club (3 planks), bow (2 planks + 1 kindling), staff.
    assert_eq!(crafting_recipes_in(&book, crafting::CraftingCategory::Weapons), vec![0, 1, 2]);
    handle_crafting_input(&mut v, &mut bench, &inv, &book, Key::End, false);
    assert_eq!(v.quantity, 2);
    handle_crafting_input(&mut v, &mut bench, &inv, &book, Key::Down, false);
    assert_eq!((v.selected_recipe, v.quantity), (1, 1));
    handle_crafting_input(&mut v, &mut bench, &inv, &book, Key::Right, false);
    assert_eq!(v.quantity, 1);
    let out = handle_crafting_input(&mut v, &mut bench, &inv, &book, Key::Enter, false);
    assert_eq!(out, CraftingOutcome::Started(1, 1));
    assert_eq!(bench.bench.as_ref().unwrap().recipe_id, "hunters_bow");
    let out = handle_crafting_input(&mut v, &mut bench, &inv, &book, Key::Enter, false);
    assert_eq!(out, CraftingOutcome::Busy);
    handle_crafting_input(&mut v, &mut bench, &inv, &book, Key::Down, false);
    let mut idle = CraftingState::default();
    let out = handle_crafting_input(&mut v, &mut idle, &inv, &book, Key::Enter, false);
    assert_eq!(out, CraftingOutcome::NotEnough(2));
}

// ── gathering view ──

#[test]
fn gathering_view_fades_in_and_sends_expeditions() {
    let locs = register_locations();
    let mut g = GatheringState::new();
    let mut v = GatheringView::new();
    handle_gathering_input(&mut v, &mut g, &locs, Key::Enter);
    assert_eq!(v.transition, Transition::EnteringLocation(TRANSITION_FRAMES));
    assert_eq!(effective_gathering_screen(&v), GatheringScreen::Grounds);
    // Keys are ignored during the fade.
    assert_eq!(handle_gathering_input(&mut v, &mut g, &locs, Key::Down), GatheringOutcome::Nothing);
    assert_eq!(v.selected_duration, 0);
    for _ in 0..=TRANSITION_FRAMES {
        v.tick();
    }
    assert_eq!(v.transition, Transition::Idle);
    assert_eq!(v.screen, GatheringScreen::AtLocation);
    handle_gathering_input(&mut v, &mut g, &locs, Key::Down);
    handle_gathering_input(&mut v, &mut g, &locs, Key::Down);
    handle_gathering_input(&mut v, &mut g, &locs, Key::Down);
    assert_eq!(v.selected_duration, 2);
    let out = handle_gathering_input(&mut v, &mut g, &locs, Key::Enter);
    assert_eq!(out, GatheringOutcome::Started(0, 2, 0));
    let task = g.slots[0].as_ref().unwrap();
    assert_eq!((task.location_id.as_str(), task.duration_index), ("whispering_woods", 2));
    assert_eq!(handle_gathering_input(&mut v, &mut g, &locs, Key::Enter), GatheringOutcome::AllSlotsFull);
}

#[test]
fn inventory_grid_moves_within_its_tiles() {
    let mut v = InventoryView { selected: 0, last_grid_cols: 3 };
    handle_inventory_input(&mut v, 7, Key::Down);
    assert_eq!(v.selected, 3);
    handle_inventory_input(&mut v, 7, Key::Down);
    assert_eq!(v.selected, 6);
    handle_inventory_input(&mut v, 7, Key::Down);
    assert_eq!(v.selected, 6);
    handle_inventory_input(&mut v, 7, Key::Right);
    assert_eq!(v.selected, 6);
    handle_inventory_input(&mut v, 7, Key::Up);
    assert_eq!(v.selected, 3);
    handle_inventory_input(&mut v, 7, Key::Home);
    assert_eq!(v.selected, 0);
    handle_inventory_input(&mut v, 7, Key::End);
    assert_eq!(v.selected, 6);
    let mut far = InventoryView { selected: 40, last_grid_cols: 0 };
    handle_inventory_input(&mut far, 5, Key::Left);
    assert_eq!(far.selected, 3);
    let mut empty = InventoryView { selected: 2, last_grid_cols: 4 };
    handle_inventory_input(&mut empty, 0, Key::End);
    assert_eq!(empty.selected, 2);
}

// ── adventures view ──

#[test]
fn roster_equips_from_the_picker_and_clears() {
    let reg = registry();
    let mut inv = Inventory::new();
    inv.add(&id("wooden_club"), 1);
    inv.add(&id("hunters_bow"), 2);
    let mut roster = register_adventurers();
    let mut v = AdventureView::new();

    handle_roster(&mut v, &mut inv, &mut roster, &reg, Key::Down);
    assert_eq!(v.selected_adventurer, 1);
    handle_roster(&mut v, &mut inv, &mut roster, &reg, Key::Enter);
    assert_eq!(v.roster_focus, RosterFocus::Equipment);
    handle_roster(&mut v, &mut inv, &mut roster, &reg, Key::Enter);
    assert_eq!(v.roster_focus, RosterFocus::ItemPicker);
    // Picker lists the bow before the club (by name).
    handle_roster(&mut v, &mut inv, &mut roster, &reg, Key::Down);
    handle_roster(&mut v, &mut inv, &mut roster, &reg, Key::Down);
    assert_eq!(v.roster_picker_idx, 1);
    let before = roster[1].equipment.weapon.clone();
    handle_roster(&mut v, &mut inv, &mut roster, &reg, Key::Enter);
    assert_eq!(v.roster_focus, RosterFocus::Equipment);
    assert_eq!(roster[1].equipment.weapon.as_deref(), Some("wooden_club"));
    assert_eq!(inv.count(&id("wooden_club")), 0);
    if let Some(old) = before {
        assert_eq!(inv.count(&old), 1);
    }

    handle_roster(&mut v, &mut inv, &mut roster, &reg, Key::Char('x'));
    assert!(roster[1].equipment.weapon.is_none());
    assert_eq!(inv.count(&id("wooden_club")), 1);

    for _ in 0..10 {
        handle_roster(&mut v, &mut inv, &mut roster, &reg, Key::Down);
    }
    assert_eq!(v.roster_equip_slot, 6);
    handle_roster(&mut v, &mut inv, &mut roster, &reg, Key::Esc);
    assert_eq!(v.roster_focus, RosterFocus::List);
    handle_roster(&mut v, &mut inv, &mut roster, &reg, Key::Tab);
    assert_eq!(v.screen, AdventureScreen::QuestBoard);
}

#[test]
fn quest_board_opens_party_setup() {
    let mut v = AdventureView::new();
    v.screen = AdventureScreen::QuestBoard;
    v.party_slots = [Some(1), None, Some(2)];
    handle_quest_board(&mut v, 0, Key::Down);
    assert_eq!((v.quest_board_count, v.selected_quest), (0, 0));
    handle_quest_board(&mut v, 3, Key::Down);
    handle_quest_board(&mut v, 3, Key::Down);
    handle_quest_board(&mut v, 3, Key::Down);
    assert_eq!(v.selected_quest, 2);
    handle_quest_board(&mut v, 3, Key::Enter);
    assert_eq!(v.screen, AdventureScreen::PartySetup);
    assert_eq!(v.party_slots, [None, None, None]);
    assert_eq!(v.setup_focus, PartySetupFocus::PartySlots);
    handle_quest_board(&mut v, 3, Key::Tab);
    assert_eq!(v.screen, AdventureScreen::Roster);
}

#[test]
fn party_setup_seats_each_adventurer_once() {
    let reg = registry();
    let mut inv = Inventory::new();
    inv.add(&id("healing_potion"), 2);
    let mut roster = register_adventurers();
    let mut v = AdventureView::new();
    v.screen = AdventureScreen::PartySetup;

    handle_party_setup(&mut v, &mut inv, &mut roster, &reg, Key::Enter);
    assert!(v.picking_adventurer);
    handle_party_setup(&mut v, &mut inv, &mut roster, &reg, Key::Down);
    handle_party_setup(&mut v, &mut inv, &mut roster, &reg, Key::Enter);
    assert_eq!(v.party_slots, [Some(1), None, None]);
    // Seating the same adventurer in a second slot does nothing.
    handle_party_setup(&mut v, &mut inv, &mut roster, &reg, Key::Down);
    handle_party_setup(&mut v, &mut inv, &mut roster, &reg, Key::Enter);
    handle_party_setup(&mut v, &mut inv, &mut roster, &reg, Key::Down);
    handle_party_setup(&mut v, &mut inv, &mut roster, &reg, Key::Enter);
    assert_eq!(v.party_slots, [Some(1), None, None]);
    assert!(!v.picking_adventurer);

    // Cycle the first consumable row of the seated adventurer.
    v.setup_slot = 0;
    handle_party_setup(&mut v, &mut inv, &mut roster, &reg, Key::Tab);
    for _ in 0..3 {
        handle_party_setup(&mut v, &mut inv, &mut roster, &reg, Key::Down);
    }
    assert_eq!(v.setup_equip_slot, 3);
    handle_party_setup(&mut v, &mut inv, &mut roster, &reg, Key::Enter);
    assert_eq!(roster[1].consumables[0].as_deref(), Some("healing_potion"));
    assert_eq!(inv.count(&id("healing_potion")), 1);
    handle_party_setup(&mut v, &mut inv, &mut roster, &reg, Key::Char('X'));
    assert!(roster[1].consumables[0].is_none());
    assert_eq!(inv.count(&id("healing_potion")), 2);

    assert!(handle_party_setup(&mut v, &mut inv, &mut roster, &reg, Key::Char('s')));
    handle_party_setup(&mut v, &mut inv, &mut roster, &reg, Key::Tab);
    handle_party_setup(&mut v, &mut inv, &mut roster, &reg, Key::Char('x'));
    assert_eq!(v.party_slots, [None, None, None]);
}

#[test]
fn party_bounds_and_status() {
    assert_eq!(check_party(&[Some(0), None, Some(2)], 1, 3), Ok(2));
    assert_eq!(check_party(&[None, None, None], 1, 3), Err(PartyRefusal::TooFew(1)));
    assert_eq!(check_party(&[Some(0), Some(1), Some(2)], 1, 2), Err(PartyRefusal::TooMany(2)));
    assert_eq!(check_party(&[None, None, None], 2, 1), Err(PartyRefusal::TooFew(2)));

    let mut roster = register_adventurers();
    mark_party_on_quest(&mut roster, &[Some(0), None, Some(9)]);
    assert_eq!(roster[0].status, AdventurerStatus::OnQuest);
    assert_eq!(roster[1].status, AdventurerStatus::Ready);
    restore_party(&mut roster, &vec![0, 7]);
    assert_eq!(roster[0].status, AdventurerStatus::Ready);
}

#[test]
fn esc_backs_out_of_adventure_screens() {
    let mut v = AdventureView::new();
    v.roster_focus = RosterFocus::ItemPicker;
    assert_eq!(adventure_esc(&mut v), EscOutcome::Consumed);
    assert_eq!(v.roster_focus, RosterFocus::Equipment);
    assert_eq!(adventure_esc(&mut v), EscOutcome::Consumed);
    assert_eq!(adventure_esc(&mut v), EscOutcome::Ignored);
    v.screen = AdventureScreen::PartySetup;
    v.picking_adventurer = true;
    assert_eq!(adventure_esc(&mut v), EscOutcome::Consumed);
    assert!(!v.picking_adventurer);
    assert_eq!(adventure_esc(&mut v), EscOutcome::Consumed);
    assert_eq!(v.screen, AdventureScreen::QuestBoard);
    v.screen = AdventureScreen::InAdventure;
    assert_eq!(adventure_esc(&mut v), EscOutcome::Abandon);
    v.screen = AdventureScreen::Combat;
    assert_eq!(adventure_esc(&mut v), EscOutcome::Consumed);
    assert_eq!(v.screen, AdventureScreen::Combat);
    v.screen = AdventureScreen::Results;
    assert!(!handle_results(&mut v, Key::Esc));
    assert!(handle_results(&mut v, Key::Enter));
    assert_eq!(v.screen, AdventureScreen::QuestBoard);
}

// ── shell ──

fn nav() -> Vec<MainView> {
    vec![
        MainView::Terminal,
        MainView::Tavern,
        MainView::Gathering,
        MainView::Refining,
        MainView::Crafting,
        MainView::Adventuring,
        MainView::Inventory,
    ]
}

#[test]
fn shell_routes_keys() {
    let mut s = Shell::new();
    let mut g = GatheringView::new();
    let mut r = RefiningView::new();
    let mut a = AdventureView::new();
    let n = nav();
    assert_eq!(route_key(&mut s, &mut g, &mut r, &mut a, &n, Key::Char('c'), true), Route::Quit);
    assert_eq!(route_key(&mut s, &mut g, &mut r, &mut a, &n, Key::Char('1'), false), Route::Done);
    assert_eq!(s.focus, Focus::Input);
    assert_eq!(route_key(&mut s, &mut g, &mut r, &mut a, &n, Key::Char('4'), false), Route::EditText);
    assert_eq!(route_key(&mut s, &mut g, &mut r, &mut a, &n, Key::Esc, false), Route::Done);
    assert_eq!(s.focus, Focus::Terminal);
    route_key(&mut s, &mut g, &mut r, &mut a, &n, Key::Char('4'), false);
    assert_eq!(s.current_view, MainView::Refining);
    assert_eq!(route_key(&mut s, &mut g, &mut r, &mut a, &n, Key::Down, false), Route::ViewKey(MainView::Refining));
    assert_eq!(route_key(&mut s, &mut g, &mut r, &mut a, &n, Key::Char('9'), false), Route::ViewKey(MainView::Refining));
    r.screen = RefiningScreen::AtStation;
    route_key(&mut s, &mut g, &mut r, &mut a, &n, Key::Esc, false);
    assert_eq!(r.screen, RefiningScreen::Stations);
    assert!(!s.quit_prompt_open);
    route_key(&mut s, &mut g, &mut r, &mut a, &n, Key::Esc, false);
    assert!(s.quit_prompt_open);
    assert_eq!(route_key(&mut s, &mut g, &mut r, &mut a, &n, Key::Char('q'), false), Route::Done);
    assert_eq!(route_key(&mut s, &mut g, &mut r, &mut a, &n, Key::Char('N'), false), Route::Done);
    assert!(!s.quit_prompt_open);
    assert_eq!(route_key(&mut s, &mut g, &mut r, &mut a, &n, Key::F(12), false), Route::DevSkip);
    route_key(&mut s, &mut g, &mut r, &mut a, &n, Key::Char('['), false);
    assert_eq!(s.bottom_tab, BottomTab::Adventures);
    route_key(&mut s, &mut g, &mut r, &mut a, &n, Key::Char(']'), false);
    assert_eq!(s.bottom_tab, BottomTab::Expeditions);
    route_key(&mut s, &mut g, &mut r, &mut a, &n, Key::Char('3'), false);
    g.screen = GatheringScreen::AtLocation;
    route_key(&mut s, &mut g, &mut r, &mut a, &n, Key::Esc, false);
    assert_eq!(g.transition, Transition::LeavingLocation(TRANSITION_FRAMES));
    route_key(&mut s, &mut g, &mut r, &mut a, &n, Key::Char('6'), false);
    a.screen = AdventureScreen::InAdventure;
    assert_eq!(route_key(&mut s, &mut g, &mut r, &mut a, &n, Key::Esc, false), Route::AbandonAdventure);
    assert_eq!(a.screen, AdventureScreen::QuestBoard);
    assert_eq!(route_key(&mut s, &mut g, &mut r, &mut a, &n, Key::Esc, false), Route::Done);
    assert!(s.quit_prompt_open);
    assert_eq!(route_key(&mut s, &mut g, &mut r, &mut a, &n, Key::Enter, false), Route::Quit);
    assert_eq!(BottomTab::all().len(), 4);
    assert_eq!(BottomTab::Crafting.next().prev(), BottomTab::Crafting);
}

// ── art ──

#[test]
fn half_blocks_pack_two_pixels() {
    let red = Pixel { r: 200, g: 10, b: 10, a: 255 };
    let blue = Pixel { r: 0, g: 0, b: 250, a: 81 };
    let clear = Pixel { r: 9, g: 9, b: 9, a: 80 };
    assert_eq!(
        pixels_to_cell(red, blue),
        HalfCell { glyph: Glyph::Lower, fg: Some((0, 0, 250)), bg: Some((200, 10, 10)) }
    );
    assert_eq!(pixels_to_cell(red, clear), HalfCell { glyph: Glyph::Upper, fg: Some((200, 10, 10)), bg: None });
    assert_eq!(pixels_to_cell(clear, blue), HalfCell { glyph: Glyph::Lower, fg: Some((0, 0, 250)), bg: None });
    assert_eq!(pixels_to_cell(clear, clear), HalfCell { glyph: Glyph::Blank, fg: None, bg: None });
}

#[test]
fn pictures_become_rows_of_cells() {
    // 2 x 3 picture: an odd last row pairs with transparency.
    let data: Vec<u8> = vec![
        255, 0, 0, 255, 0, 255, 0, 255, //
        0, 0, 255, 255, 0, 0, 0, 0, //
        10, 20, 30, 200, 0, 0, 0, 0,
    ];
    let rows = rgba_cells(&data, 2, 3);
    assert_eq!(rows.len(), 2);
    assert_eq!(rows[0][0], HalfCell { glyph: Glyph::Lower, fg: Some((0, 0, 255)), bg: Some((255, 0, 0)) });
    assert_eq!(rows[0][1], HalfCell { glyph: Glyph::Upper, fg: Some((0, 255, 0)), bg: None });
    assert_eq!(rows[1][0], HalfCell { glyph: Glyph::Upper, fg: Some((10, 20, 30)), bg: None });
    assert_eq!(rows[1][1], HalfCell { glyph: Glyph::Blank, fg: None, bg: None });

    // Premultiplied: (50, 100, 0, 100) is (127, 255, 0) at alpha 100.
    let pm: Vec<u8> = vec![50, 100, 0, 100, 0, 0, 0, 0];
    let rows = pixmap_cells(&pm, 1, 2);
    assert_eq!(rows.len(), 1);
    assert_eq!(rows[0][0], HalfCell { glyph: Glyph::Upper, fg: Some((127, 255, 0)), bg: None });
    assert!(rgba_cells(&Vec::new(), 0, 0).is_empty());
}

#[test]
fn palette_particles_icons_and_rects() {
    assert_eq!(Tone::Gold.rgb(), (212, 160, 32));
    assert_eq!(rarity_color(Rarity::Common), Tone::WarmWhite);
    assert_eq!(rarity_color(Rarity::VeryRare).rgb(), (170, 100, 220));
    let embers = ember_line(7, 120);
    assert_eq!(embers.len(), 120);
    for (i, e) in embers.iter().enumerate() {
        let hash = ((i as u64).wrapping_mul(2654435761) ^ 7u64.wrapping_mul(40503)) % 100;
        assert_eq!(e.is_some(), hash < 2);
    }
    let leaves = leaf_line(40, 300, 3);
    assert_eq!(leaves.len(), 300);
    assert!(leaves.iter().all(|l| matches!(l, None | Some(Tone::LeafGreen) | Some(Tone::LeafAmber))));

    let club = def("wooden_club", "wooden Club", ItemCategory::Weapon, Rarity::Rare, &[]);
    let (tone, rows) = fallback_icon(Some(&club), 6);
    assert_eq!(tone, Tone::RarityRare);
    assert_eq!(rows.len(), 3);
    assert_eq!(rows[1].iter().collect::<String>(), "███W██");
    assert_eq!(rows[0].iter().collect::<String>(), "██████");
    let (tone, rows) = fallback_icon(None, 1);
    assert_eq!(tone, Tone::Dim);
    assert_eq!(rows, vec![vec!['█'], vec!['?']]);

    let r = inset_rect(Area { x: 2, y: 3, width: 10, height: 3 }, 2, 4);
    assert_eq!(r, Area { x: 4, y: 4, width: 6, height: 1 });
}

#[test]
fn gear_hints_and_grown_stats() {
    assert_eq!(gear_hint(&GearStats { hp: 5, strength: 0, dexterity: -1, intellect: 2 }), "+5HP -1DEX +2INT");
    assert_eq!(gear_hint(&GearStats { hp: 0, strength: 0, dexterity: 0, intellect: 0 }), "");
    assert_eq!(gear_hint(&GearStats { hp: 0, strength: i32::MIN, dexterity: 0, intellect: 0 }), "-2147483648STR");

    let mut a = register_adventurers().remove(0);
    let base = a.base_stats;
    assert_eq!(a.grown_stats(), base);
    a.level = 3;
    let (hp_g, str_g, dex_g, int_g) = a.class.growth();
    let g = a.grown_stats();
    assert_eq!(g.max_hp, base.max_hp + 2 * hp_g);
    assert_eq!(g.strength, base.strength + 2 * str_g);
    assert_eq!(g.dexterity, base.dexterity + 2 * dex_g);
    assert_eq!(g.intellect, base.intellect + 2 * int_g);
    let reg = ItemRegistry { items: Vec::new() };
    assert_eq!(a.effective_stats(&reg), g);
}

// ── pictures ──

fn png_bytes(w: u32, h: u32, rgba: Vec<u8>) -> Vec<u8> {
    let img = image::RgbaImage::from_raw(w, h, rgba).unwrap();
    let mut bytes = Vec::new();
    img.write_to(&mut std::io::Cursor::new(&mut bytes), image::ImageFormat::Png).unwrap();
    bytes
}

#[test]
fn png_pictures_decode_and_pack() {
    let pixels = vec![255, 0, 0, 255, 0, 255, 0, 255, 0, 0, 255, 255, 0, 0, 0, 0];
    let bytes = png_bytes(2, 2, pixels.clone());
    let pic = last_light_game::picture::decode_picture(&bytes).unwrap();
    assert_eq!((pic.width, pic.height), (2, 2));
    assert_eq!(pic.rgba, pixels);
    assert!(last_light_game::picture::decode_picture(&[1, 2, 3, 4]).is_none());

    // Same size: the resampler copies the picture.
    let rows = last_light_game::picture::image_to_halfblock(&pic, 2, 2);
    assert_eq!(rows.len(), 1);
    assert_eq!(rows[0][0], HalfCell { glyph: Glyph::Lower, fg: Some((0, 0, 255)), bg: Some((255, 0, 0)) });
    assert_eq!(rows[0][1], HalfCell { glyph: Glyph::Upper, fg: Some((0, 255, 0)), bg: None });

    // Half as wide, three rows rounded up to four: one column, two terminal rows.
    let rows = last_light_game::picture::image_to_halfblock(&pic, 1, 3);
    assert_eq!(rows.len(), 2);
    assert!(rows.iter().all(|r| r.len() == 1));
}
