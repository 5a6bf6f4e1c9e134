use vstd::prelude::*;

use crate::adventurer::{Adventurer, AdventurerStatus, CONSUMABLE_SLOTS};
use crate::gear::{
    compatible_items_for_slot, consumable_cycled, consumable_equipped_state, cycle_consumable, cycle_equipment,
    equip_consumable_from_picker, equip_item_from_picker, equipment_cycled, equipped_state, gear_slot, padded_slot, padded_with,
    return_fits, returned, slot_entries, slots_replaced, sorted_by_name, total_owned, unequip_consumable,
    unequip_fits, unequip_slot, unequipped_inv, unequipped_roster,
};
use crate::input::Key;
use crate::inventory::Inventory;
use crate::item::{ItemId, ItemRegistry};

verus! {

// ── The adventures view ───────────────────────────────────────────────────

#[derive(Debug, Clone, Copy, PartialEq, Eq, Structural)]
pub enum AdventureScreen {
    Roster,
    QuestBoard,
    PartySetup,
    InAdventure,
    Combat,
    Results,
}

/// Which part of the roster screen takes the arrows.
#[derive(Debug, Clone, Copy, PartialEq, Eq, Structural)]
pub enum RosterFocus {
    List,
    Equipment,
    ItemPicker,
}

/// Which column of the party setup screen takes the arrows.
#[derive(Debug, Clone, Copy, PartialEq, Eq, Structural)]
pub enum PartySetupFocus {
    PartySlots,
    EquipmentSlots,
}

/// Where the adventures view stands. Equipment rows 0 to 2 are weapon,
/// armor and accessory; rows from 3 on are the consumable slots.
#[derive(Debug, Clone, Copy)]
pub struct AdventureView {
    pub screen: AdventureScreen,
    pub roster_focus: RosterFocus,
    pub selected_adventurer: usize,
    pub roster_equip_slot: usize,
    pub roster_picker_idx: usize,
    pub selected_quest: usize,
    pub quest_board_count: usize,
    pub party_slots: [Option<usize>; 3],
    pub setup_slot: usize,
    pub setup_focus: PartySetupFocus,
    pub setup_equip_slot: usize,
    pub picking_adventurer: bool,
    pub picker_idx: usize,
}

impl AdventureView {
    pub fn new() -> (v: Self)
        ensures
            v.screen == AdventureScreen::Roster,
            v.roster_focus == RosterFocus::List,
            v.selected_adventurer == 0,
            v.roster_equip_slot == 0,
            v.roster_picker_idx == 0,
            v.selected_quest == 0,
            v.quest_board_count == 0,
            v.party_slots@ == seq![None::<usize>, None, None],
            v.setup_slot == 0,
            v.setup_focus == PartySetupFocus::PartySlots,
            v.setup_equip_slot == 0,
            !v.picking_adventurer,
            v.picker_idx == 0,
    {
        let v = AdventureView {
            screen: AdventureScreen::Roster,
            roster_focus: RosterFocus::List,
            selected_adventurer: 0,
            roster_equip_slot: 0,
            roster_picker_idx: 0,
            selected_quest: 0,
            quest_board_count: 0,
            party_slots: [None, None, None],
            setup_slot: 0,
            setup_focus: PartySetupFocus::PartySlots,
            setup_equip_slot: 0,
            picking_adventurer: false,
            picker_idx: 0,
        };
        assert(v.party_slots@ =~= seq![None::<usize>, None, None]);
        v
    }
}

/// The last equipment row: three gear rows, then the consumable slots.
pub open spec fn last_equip_row() -> int {
    2 + CONSUMABLE_SLOTS
}

/// Whether a key is the unequip key, `x` or `X`.
pub open spec fn is_clear_key(key: Key) -> bool {
    key == Key::Char('x') || key == Key::Char('X')
}

// ── What equipment rows do to the inventory and the roster ────────────────

/// Whether what row `row` of adventurer `adv` holds can go back to the
/// inventory without its count leaving a `u32`.
pub open spec fn row_return_fits(inv: Map<Seq<char>, u32>, advs: Seq<Adventurer>, adv: int, row: int) -> bool {
    if row <= 2 {
        unequip_fits(inv, advs, adv, row)
    } else {
        return_fits(inv, padded_slot(advs, adv, row - 3))
    }
}

/// Emptying equipment row `row` of adventurer `adv` took `(inv0, advs0)` to `(inv1, advs1)`.
pub open spec fn row_cleared(
    inv0: Map<Seq<char>, u32>,
    advs0: Seq<Adventurer>,
    inv1: Map<Seq<char>, u32>,
    advs1: Seq<Adventurer>,
    adv: int,
    row: int,
) -> bool {
    if row <= 2 {
        inv1 == unequipped_inv(inv0, advs0, adv, row) && advs1 == unequipped_roster(advs0, adv, row)
    } else {
        inv1 == returned(inv0, padded_slot(advs0, adv, row - 3)) && slots_replaced(
            advs0,
            advs1,
            adv,
            padded_with(advs0, adv, row - 3, None),
        )
    }
}

/// Putting `item` into equipment row `row` of adventurer `adv` took `(inv0, advs0)` to `(inv1, advs1)`.
pub open spec fn row_filled(
    inv0: Map<Seq<char>, u32>,
    advs0: Seq<Adventurer>,
    inv1: Map<Seq<char>, u32>,
    advs1: Seq<Adventurer>,
    adv: int,
    row: int,
    item: ItemId,
) -> bool {
    if row <= 2 {
        (inv1, advs1) == equipped_state(inv0, advs0, adv, row, item)
    } else {
        let s = consumable_equipped_state(inv0, advs0, adv, row - 3, item);
        inv1 == s.0 && slots_replaced(advs0, advs1, adv, s.1)
    }
}

/// Whether `items` is a listing the item picker may show for row `row`:
/// the held items fitting it, ordered by name.
pub open spec fn picker_listing(
    entries: Seq<(ItemId, u32)>,
    registry: ItemRegistry,
    row: int,
    items: Seq<(ItemId, u32)>,
) -> bool {
    items.to_multiset() == slot_entries(entries, registry, row).to_multiset() && sorted_by_name(items, registry)
}

/// Every copy of every item stays owned.
pub open spec fn owned_kept(
    inv0: Map<Seq<char>, u32>,
    advs0: Seq<Adventurer>,
    inv1: Map<Seq<char>, u32>,
    advs1: Seq<Adventurer>,
) -> bool {
    forall|k: Seq<char>| #[trigger] total_owned(inv1, advs1, k) == total_owned(inv0, advs0, k)
}

// ── Roster ────────────────────────────────────────────────────────────────

/// The roster screen after a key, with `count` adventurers and `picks`
/// items in the picker.
pub open spec fn roster_view_after(v: AdventureView, count: int, picks: int, key: Key) -> AdventureView {
    if count == 0 {
        v
    } else {
        match v.roster_focus {
            RosterFocus::List => match key {
                Key::Up => if v.selected_adventurer > 0 {
                    AdventureView { selected_adventurer: (v.selected_adventurer - 1) as usize, ..v }
                } else {
                    v
                },
                Key::Down => if v.selected_adventurer + 1 < count {
                    AdventureView { selected_adventurer: (v.selected_adventurer + 1) as usize, ..v }
                } else {
                    v
                },
                Key::Enter | Key::Right => AdventureView { roster_focus: RosterFocus::Equipment, roster_equip_slot: 0, ..v },
                Key::Tab => AdventureView { screen: AdventureScreen::QuestBoard, ..v },
                _ => v,
            },
            RosterFocus::Equipment => match key {
                Key::Up => if v.roster_equip_slot > 0 {
                    AdventureView { roster_equip_slot: (v.roster_equip_slot - 1) as usize, ..v }
                } else {
                    v
                },
                Key::Down => if v.roster_equip_slot < last_equip_row() {
                    AdventureView { roster_equip_slot: (v.roster_equip_slot + 1) as usize, ..v }
                } else {
                    v
                },
                Key::Enter => AdventureView { roster_focus: RosterFocus::ItemPicker, roster_picker_idx: 0, ..v },
                Key::Esc | Key::Left => AdventureView { roster_focus: RosterFocus::List, ..v },
                Key::Tab => AdventureView { roster_focus: RosterFocus::List, screen: AdventureScreen::QuestBoard, ..v },
                _ => v,
            },
            RosterFocus::ItemPicker => match key {
                Key::Up => if v.roster_picker_idx > 0 {
                    AdventureView { roster_picker_idx: (v.roster_picker_idx - 1) as usize, ..v }
                } else {
                    v
                },
                Key::Down => if picks > 0 && v.roster_picker_idx + 1 < picks {
                    AdventureView { roster_picker_idx: (v.roster_picker_idx + 1) as usize, ..v }
                } else {
                    v
                },
                Key::Enter | Key::Esc => AdventureView { roster_focus: RosterFocus::Equipment, ..v },
                _ => v,
            },
        }
    }
}

/// Whether a roster key clears the selected row.
pub open spec fn roster_clears(v: AdventureView, count: int, key: Key) -> bool {
    count > 0 && v.roster_focus is Equipment && is_clear_key(key)
}

/// Whether a roster key equips the picked item.
pub open spec fn roster_equips(v: AdventureView, count: int, picks: int, key: Key) -> bool {
    count > 0 && v.roster_focus is ItemPicker && key is Enter && v.roster_picker_idx < picks
}

/// Handles a key on the roster screen: browse adventurers, walk their
/// equipment rows, clear a row with `x`, or pick an item for it from the
/// inventory. Items only move between the inventory and the adventurers.
pub fn handle_roster(
    view: &mut AdventureView,
    inventory: &mut Inventory,
    adventurers: &mut Vec<Adventurer>,
    registry: &ItemRegistry,
    key: Key,
)
    requires
        ({
            let v = *old(view);
            let picks = slot_entries(old(inventory).entries(), *registry, v.roster_equip_slot as int).len() as int;
            (roster_clears(v, old(adventurers)@.len() as int, key) || roster_equips(
                v,
                old(adventurers)@.len() as int,
                picks,
                key,
            )) ==> row_return_fits(old(inventory)@, old(adventurers)@, v.selected_adventurer as int, v.roster_equip_slot as int)
        }),
    ensures
        ({
            let v = *old(view);
            let count = old(adventurers)@.len() as int;
            let picks = slot_entries(old(inventory).entries(), *registry, v.roster_equip_slot as int).len() as int;
            let adv = v.selected_adventurer as int;
            let row = v.roster_equip_slot as int;
            &&& *final(view) == roster_view_after(v, count, picks, key)
            &&& roster_clears(v, count, key) ==> row_cleared(
                old(inventory)@,
                old(adventurers)@,
                final(inventory)@,
                final(adventurers)@,
                adv,
                row,
            )
            &&& roster_equips(v, count, picks, key) ==> exists|items: Seq<(ItemId, u32)>|
                picker_listing(old(inventory).entries(), *registry, row, items) && #[trigger] row_filled(
                    old(inventory)@,
                    old(adventurers)@,
                    final(inventory)@,
                    final(adventurers)@,
                    adv,
                    row,
                    items[v.roster_picker_idx as int].0,
                )
            &&& !roster_clears(v, count, key) && !roster_equips(v, count, picks, key) ==> final(inventory)@ == old(
                inventory,
            )@ && final(adventurers)@ == old(adventurers)@
        }),
        owned_kept(old(inventory)@, old(adventurers)@, final(inventory)@, final(adventurers)@),
{
    let count = adventurers.len();
    let ghost picks = slot_entries(inventory.entries(), *registry, view.roster_equip_slot as int).len() as int;
    if count == 0 {
        return;
    }
    match view.roster_focus {
        RosterFocus::List => match key {
            Key::Up => {
                if view.selected_adventurer > 0 {
                    view.selected_adventurer = view.selected_adventurer - 1;
                }
            },
            Key::Down => {
                if view.selected_adventurer < count - 1 {
                    view.selected_adventurer = view.selected_adventurer + 1;
                }
            },
            Key::Enter | Key::Right => {
                view.roster_focus = RosterFocus::Equipment;
                view.roster_equip_slot = 0;
            },
            Key::Tab => {
                view.screen = AdventureScreen::QuestBoard;
            },
            _ => {},
        },
        RosterFocus::Equipment => {
            let max_slot = 2 + CONSUMABLE_SLOTS;
            match key {
                Key::Up => {
                    if view.roster_equip_slot > 0 {
                        view.roster_equip_slot = view.roster_equip_slot - 1;
                    }
                },
                Key::Down => {
                    if view.roster_equip_slot < max_slot {
                        view.roster_equip_slot = view.roster_equip_slot + 1;
                    }
                },
                Key::Enter => {
                    view.roster_focus = RosterFocus::ItemPicker;
                    view.roster_picker_idx = 0;
                },
                Key::Char('x') | Key::Char('X') => {
                    let adv_idx = view.selected_adventurer;
                    let slot = view.roster_equip_slot;
                    if slot <= 2 {
                        unequip_slot(inventory, adventurers, adv_idx, slot);
                    } else {
                        unequip_consumable(inventory, adventurers, adv_idx, slot - 3);
                    }
                },
                Key::Esc | Key::Left => {
                    view.roster_focus = RosterFocus::List;
                },
                Key::Tab => {
                    view.roster_focus = RosterFocus::List;
                    view.screen = AdventureScreen::QuestBoard;
                },
                _ => {},
            }
        },
        RosterFocus::ItemPicker => {
            let adv_idx = view.selected_adventurer;
            let slot = view.roster_equip_slot;
            let compatible = compatible_items_for_slot(inventory, registry, slot);
            proof {
                vstd::seq_lib::to_multiset_len(compatible@);
                vstd::seq_lib::to_multiset_len(slot_entries(inventory.entries(), *registry, slot as int));
            }
            match key {
                Key::Up => {
                    if view.roster_picker_idx > 0 {
                        view.roster_picker_idx = view.roster_picker_idx - 1;
                    }
                },
                Key::Down => {
                    if compatible.len() > 0 && view.roster_picker_idx < compatible.len() - 1 {
                        view.roster_picker_idx = view.roster_picker_idx + 1;
                    }
                },
                Key::Enter => {
                    let ghost inv0 = inventory@;
                    let ghost advs0 = adventurers@;
                    let ghost entries0 = inventory.entries();
                    if view.roster_picker_idx < compatible.len() {
                        let item_id = compatible[view.roster_picker_idx].0.clone();
                        if slot <= 2 {
                            equip_item_from_picker(inventory, adventurers, adv_idx, slot, &item_id);
                        } else {
                            equip_consumable_from_picker(inventory, adventurers, adv_idx, slot - 3, &item_id);
                        }
                        proof {
                            assert(picker_listing(entries0, *registry, slot as int, compatible@));
                            assert(row_filled(
                                inv0,
                                advs0,
                                inventory@,
                                adventurers@,
                                adv_idx as int,
                                slot as int,
                                compatible@[view.roster_picker_idx as int].0,
                            ));
                        }
                    }
                    view.roster_focus = RosterFocus::Equipment;
                },
                Key::Esc => {
                    view.roster_focus = RosterFocus::Equipment;
                },
                _ => {},
            }
        },
    }
}

// ── Quest board ───────────────────────────────────────────────────────────

/// Whether `w` is `v` but for the party slots.
pub open spec fn same_but_slots(w: AdventureView, v: AdventureView) -> bool {
    &&& w.screen == v.screen
    &&& w.roster_focus == v.roster_focus
    &&& w.selected_adventurer == v.selected_adventurer
    &&& w.roster_equip_slot == v.roster_equip_slot
    &&& w.roster_picker_idx == v.roster_picker_idx
    &&& w.selected_quest == v.selected_quest
    &&& w.quest_board_count == v.quest_board_count
    &&& w.setup_slot == v.setup_slot
    &&& w.setup_focus == v.setup_focus
    &&& w.setup_equip_slot == v.setup_equip_slot
    &&& w.picking_adventurer == v.picking_adventurer
    &&& w.picker_idx == v.picker_idx
}

/// The quest board after a key, `total` entries (quests, then dungeons)
/// being posted; the second part is the party slots.
pub open spec fn quest_board_after(v: AdventureView, total: int, key: Key) -> (AdventureView, Seq<Option<usize>>) {
    if key is Tab {
        (AdventureView { screen: AdventureScreen::Roster, ..v }, v.party_slots@)
    } else {
        let w = AdventureView { quest_board_count: total as usize, ..v };
        if total == 0 {
            (w, v.party_slots@)
        } else {
            match key {
                Key::Up => (
                    if v.selected_quest > 0 {
                        AdventureView { selected_quest: (v.selected_quest - 1) as usize, ..w }
                    } else {
                        w
                    },
                    v.party_slots@,
                ),
                Key::Down => (
                    if v.selected_quest + 1 < total {
                        AdventureView { selected_quest: (v.selected_quest + 1) as usize, ..w }
                    } else {
                        w
                    },
                    v.party_slots@,
                ),
                Key::Enter => (
                    AdventureView {
                        screen: AdventureScreen::PartySetup,
                        setup_slot: 0,
                        setup_focus: PartySetupFocus::PartySlots,
                        ..w
                    },
                    seq![None, None, None],
                ),
                _ => (w, v.party_slots@),
            }
        }
    }
}

/// Handles a key on the quest board of `total` entries: Tab goes to the
/// roster, Up/Down pick an entry, Enter opens party setup with empty slots.
pub fn handle_quest_board(view: &mut AdventureView, total: usize, key: Key)
    ensures
        same_but_slots(*final(view), quest_board_after(*old(view), total as int, key).0),
        final(view).party_slots@ == quest_board_after(*old(view), total as int, key).1,
{
    if let Key::Tab = key {
        view.screen = AdventureScreen::Roster;
        return;
    }
    view.quest_board_count = total;
    if total == 0 {
        return;
    }
    match key {
        Key::Up => {
            if view.selected_quest > 0 {
                view.selected_quest = view.selected_quest - 1;
            }
        },
        Key::Down => {
            if view.selected_quest < total - 1 {
                view.selected_quest = view.selected_quest + 1;
            }
        },
        Key::Enter => {
            view.screen = AdventureScreen::PartySetup;
            view.party_slots = [None, None, None];
            view.setup_slot = 0;
            view.setup_focus = PartySetupFocus::PartySlots;
            assert(view.party_slots@ =~= seq![None::<usize>, None, None]);
        },
        _ => {},
    }
}

// ── Party setup ───────────────────────────────────────────────────────────

/// The party setup screen after a key, with `count` adventurers on the
/// roster; the second part is the party slots.
pub open spec fn setup_after(v: AdventureView, count: int, key: Key) -> (AdventureView, Seq<Option<usize>>) {
    let slots = v.party_slots@;
    if v.picking_adventurer {
        match key {
            Key::Up => (
                if v.picker_idx > 0 {
                    AdventureView { picker_idx: (v.picker_idx - 1) as usize, ..v }
                } else {
                    v
                },
                slots,
            ),
            Key::Down => (
                if v.picker_idx + 1 < count {
                    AdventureView { picker_idx: (v.picker_idx + 1) as usize, ..v }
                } else {
                    v
                },
                slots,
            ),
            Key::Enter => (
                AdventureView { picking_adventurer: false, ..v },
                if slots.contains(Some(v.picker_idx)) {
                    slots
                } else {
                    slots.update(v.setup_slot as int, Some(v.picker_idx))
                },
            ),
            _ => (v, slots),
        }
    } else {
        match key {
            Key::Tab => (
                AdventureView {
                    setup_focus: match v.setup_focus {
                        PartySetupFocus::PartySlots => PartySetupFocus::EquipmentSlots,
                        PartySetupFocus::EquipmentSlots => PartySetupFocus::PartySlots,
                    },
                    ..v
                },
                slots,
            ),
            Key::Up => (
                match v.setup_focus {
                    PartySetupFocus::PartySlots => if v.setup_slot > 0 {
                        AdventureView { setup_slot: (v.setup_slot - 1) as usize, ..v }
                    } else {
                        v
                    },
                    PartySetupFocus::EquipmentSlots => if v.setup_equip_slot > 0 {
                        AdventureView { setup_equip_slot: (v.setup_equip_slot - 1) as usize, ..v }
                    } else {
                        v
                    },
                },
                slots,
            ),
            Key::Down => (
                match v.setup_focus {
                    PartySetupFocus::PartySlots => if v.setup_slot < 2 {
                        AdventureView { setup_slot: (v.setup_slot + 1) as usize, ..v }
                    } else {
                        v
                    },
                    PartySetupFocus::EquipmentSlots => if v.setup_equip_slot < last_equip_row() {
                        AdventureView { setup_equip_slot: (v.setup_equip_slot + 1) as usize, ..v }
                    } else {
                        v
                    },
                },
                slots,
            ),
            Key::Enter => (
                if v.setup_focus is PartySlots {
                    AdventureView { picking_adventurer: true, picker_idx: 0, ..v }
                } else {
                    v
                },
                slots,
            ),
            _ => if is_clear_key(key) && v.setup_focus is PartySlots {
                (v, slots.update(v.setup_slot as int, None))
            } else {
                (v, slots)
            },
        }
    }
}

/// The adventurer in the selected party slot, when a key on the equipment
/// column acts on one: Enter cycles the selected row, `x` clears it.
pub open spec fn setup_member(v: AdventureView) -> Option<usize> {
    v.party_slots@[v.setup_slot as int]
}

/// Whether a party setup key cycles the selected row of a party member.
pub open spec fn setup_cycles(v: AdventureView, key: Key) -> bool {
    !v.picking_adventurer && key is Enter && v.setup_focus is EquipmentSlots && setup_member(v) is Some
}

/// Whether a party setup key clears the selected row of a party member.
pub open spec fn setup_clears(v: AdventureView, key: Key) -> bool {
    !v.picking_adventurer && is_clear_key(key) && v.setup_focus is EquipmentSlots && setup_member(v) is Some
}

/// Whether a party setup key asks to set out: `s` or `S`.
pub open spec fn setup_starts(v: AdventureView, key: Key) -> bool {
    !v.picking_adventurer && (key == Key::Char('s') || key == Key::Char('S'))
}

/// The keys that read or write the selected party slot find it, and what
/// a touched row holds can go back to the inventory.
pub open spec fn setup_key_safe(v: AdventureView, inv: Map<Seq<char>, u32>, advs: Seq<Adventurer>, key: Key) -> bool {
    &&& (key is Enter || (!v.picking_adventurer && is_clear_key(key))) ==> v.setup_slot < 3
    &&& (setup_cycles(v, key) || setup_clears(v, key)) ==> row_return_fits(
        inv,
        advs,
        setup_member(v)->0 as int,
        v.setup_equip_slot as int,
    )
}

/// Cycling equipment row `row` of adventurer `adv` took `(inv0, advs0)` to
/// `(inv1, advs1)`, the inventory holding `entries` before.
pub open spec fn row_cycled(
    entries: Seq<(ItemId, u32)>,
    inv0: Map<Seq<char>, u32>,
    advs0: Seq<Adventurer>,
    inv1: Map<Seq<char>, u32>,
    advs1: Seq<Adventurer>,
    registry: ItemRegistry,
    adv: int,
    row: int,
) -> bool {
    if row <= 2 {
        equipment_cycled(inv0, advs0, inv1, advs1, registry, adv, row)
    } else {
        consumable_cycled(entries, inv0, advs0, inv1, advs1, registry, adv, row - 3)
    }
}

/// Handles a key on the party setup screen. While picking an adventurer,
/// Up/Down move and Enter seats the one picked in the selected party slot
/// (unless already seated). Otherwise Tab swaps columns, Up/Down move in
/// the column, Enter opens the picker or cycles the selected row's gear,
/// `x` empties the party slot or the row. Returns whether `s` asked to set out.
pub fn handle_party_setup(
    view: &mut AdventureView,
    inventory: &mut Inventory,
    adventurers: &mut Vec<Adventurer>,
    registry: &ItemRegistry,
    key: Key,
) -> (start: bool)
    requires
        setup_key_safe(*old(view), old(inventory)@, old(adventurers)@, key),
    ensures
        ({
            let v = *old(view);
            let r = setup_after(v, old(adventurers)@.len() as int, key);
            let adv = setup_member(v)->0 as int;
            let row = v.setup_equip_slot as int;
            &&& same_but_slots(*final(view), r.0)
            &&& final(view).party_slots@ == r.1
            &&& start == setup_starts(v, key)
            &&& setup_cycles(v, key) ==> row_cycled(
                old(inventory).entries(),
                old(inventory)@,
                old(adventurers)@,
                final(inventory)@,
                final(adventurers)@,
                *registry,
                adv,
                row,
            )
            &&& setup_clears(v, key) ==> row_cleared(
                old(inventory)@,
                old(adventurers)@,
                final(inventory)@,
                final(adventurers)@,
                adv,
                row,
            )
            &&& !setup_cycles(v, key) && !setup_clears(v, key) ==> final(inventory)@ == old(inventory)@
                && final(adventurers)@ == old(adventurers)@
        }),
        old(view).setup_equip_slot <= last_equip_row() ==> owned_kept(
            old(inventory)@,
            old(adventurers)@,
            final(inventory)@,
            final(adventurers)@,
        ),
{
    let ghost inv0 = inventory@;
    let ghost advs0 = adventurers@;
    if view.picking_adventurer {
        match key {
            Key::Up => {
                if view.picker_idx > 0 {
                    view.picker_idx = view.picker_idx - 1;
                }
            },
            Key::Down => {
                if adventurers.len() > 0 && view.picker_idx < adventurers.len() - 1 {
                    view.picker_idx = view.picker_idx + 1;
                }
            },
            Key::Enter => {
                let adv_idx = view.picker_idx;
                let mut already = false;
                let mut j: usize = 0;
                while j < 3
                    invariant
                        j <= 3,
                        view.party_slots@.len() == 3,
                        already == exists|i: int| 0 <= i < j && view.party_slots@[i] == Some(adv_idx),
                    decreases 3 - j,
                {
                    if view.party_slots[j] == Some(adv_idx) {
                        already = true;
                    }
                    j += 1;
                }
                assert(already == view.party_slots@.contains(Some(adv_idx)));
                if !already {
                    let s = view.setup_slot;
                    view.party_slots[s] = Some(adv_idx);
                }
                view.picking_adventurer = false;
            },
            _ => {},
        }
        return false;
    }
    match key {
        Key::Tab => {
            view.setup_focus = match view.setup_focus {
                PartySetupFocus::PartySlots => PartySetupFocus::EquipmentSlots,
                PartySetupFocus::EquipmentSlots => PartySetupFocus::PartySlots,
            };
            false
        },
        Key::Up => {
            match view.setup_focus {
                PartySetupFocus::PartySlots => {
                    if view.setup_slot > 0 {
                        view.setup_slot = view.setup_slot - 1;
                    }
                },
                PartySetupFocus::EquipmentSlots => {
                    if view.setup_equip_slot > 0 {
                        view.setup_equip_slot = view.setup_equip_slot - 1;
                    }
                },
            }
            false
        },
        Key::Down => {
            let max_equip = 2 + CONSUMABLE_SLOTS;
            match view.setup_focus {
                PartySetupFocus::PartySlots => {
                    if view.setup_slot < 2 {
                        view.setup_slot = view.setup_slot + 1;
                    }
                },
                PartySetupFocus::EquipmentSlots => {
                    if view.setup_equip_slot < max_equip {
                        view.setup_equip_slot = view.setup_equip_slot + 1;
                    }
                },
            }
            false
        },
        Key::Enter => {
            match view.setup_focus {
                PartySetupFocus::PartySlots => {
                    view.picking_adventurer = true;
                    view.picker_idx = 0;
                },
                PartySetupFocus::EquipmentSlots => {
                    let slot_idx = view.setup_slot;
                    let equip_slot = view.setup_equip_slot;
                    if let Some(adv_idx) = view.party_slots[slot_idx] {
                        if equip_slot <= 2 {
                            cycle_equipment(inventory, adventurers, registry, adv_idx, equip_slot);
                        } else {
                            cycle_consumable(inventory, adventurers, registry, adv_idx, equip_slot - 3);
                        }
                    }
                },
            }
            false
        },
        Key::Char('x') | Key::Char('X') => {
            match view.setup_focus {
                PartySetupFocus::PartySlots => {
                    let s = view.setup_slot;
                    view.party_slots[s] = None;
                },
                PartySetupFocus::EquipmentSlots => {
                    let slot_idx = view.setup_slot;
                    let equip_slot = view.setup_equip_slot;
                    if let Some(adv_idx) = view.party_slots[slot_idx] {
                        if equip_slot <= 2 {
                            unequip_slot(inventory, adventurers, adv_idx, equip_slot);
                        } else {
                            unequip_consumable(inventory, adventurers, adv_idx, equip_slot - 3);
                        }
                    }
                },
            }
            false
        },
        Key::Char('s') | Key::Char('S') => true,
        _ => false,
    }
}

// ── Backing out, results and setting out ──────────────────────────────────

/// What Esc on the adventures view led to.
#[derive(Debug, Clone, Copy, PartialEq, Eq, Structural)]
pub enum EscOutcome {
    /// Nothing to back out of here.
    Ignored,
    /// The view stepped back.
    Consumed,
    /// The adventure under way is given up.
    Abandon,
    /// The finished adventure's rewards are taken.
    Finish,
}

/// The adventures view and outcome after Esc.
pub open spec fn esc_after(v: AdventureView) -> (AdventureView, EscOutcome) {
    match v.screen {
        AdventureScreen::Roster => match v.roster_focus {
            RosterFocus::ItemPicker => (AdventureView { roster_focus: RosterFocus::Equipment, ..v }, EscOutcome::Consumed),
            RosterFocus::Equipment => (AdventureView { roster_focus: RosterFocus::List, ..v }, EscOutcome::Consumed),
            RosterFocus::List => (v, EscOutcome::Ignored),
        },
        AdventureScreen::QuestBoard => (v, EscOutcome::Ignored),
        AdventureScreen::PartySetup => if v.picking_adventurer {
            (AdventureView { picking_adventurer: false, ..v }, EscOutcome::Consumed)
        } else {
            (AdventureView { screen: AdventureScreen::QuestBoard, ..v }, EscOutcome::Consumed)
        },
        AdventureScreen::InAdventure => (AdventureView { screen: AdventureScreen::QuestBoard, ..v }, EscOutcome::Abandon),
        AdventureScreen::Combat => (v, EscOutcome::Consumed),
        AdventureScreen::Results => (AdventureView { screen: AdventureScreen::QuestBoard, ..v }, EscOutcome::Finish),
    }
}

/// Esc on the adventures view: steps back out of the picker, the equipment
/// rows or party setup; gives up an adventure under way; takes the rewards
/// of a finished one; cannot leave a fight.
pub fn adventure_esc(view: &mut AdventureView) -> (outcome: EscOutcome)
    ensures
        same_but_slots(*final(view), esc_after(*old(view)).0),
        final(view).party_slots == old(view).party_slots,
        outcome == esc_after(*old(view)).1,
{
    match view.screen {
        AdventureScreen::Roster => match view.roster_focus {
            RosterFocus::ItemPicker => {
                view.roster_focus = RosterFocus::Equipment;
                EscOutcome::Consumed
            },
            RosterFocus::Equipment => {
                view.roster_focus = RosterFocus::List;
                EscOutcome::Consumed
            },
            RosterFocus::List => EscOutcome::Ignored,
        },
        AdventureScreen::QuestBoard => EscOutcome::Ignored,
        AdventureScreen::PartySetup => {
            if view.picking_adventurer {
                view.picking_adventurer = false;
            } else {
                view.screen = AdventureScreen::QuestBoard;
            }
            EscOutcome::Consumed
        },
        AdventureScreen::InAdventure => {
            view.screen = AdventureScreen::QuestBoard;
            EscOutcome::Abandon
        },
        AdventureScreen::Combat => EscOutcome::Consumed,
        AdventureScreen::Results => {
            view.screen = AdventureScreen::QuestBoard;
            EscOutcome::Finish
        },
    }
}

/// A key on the results screen: Enter takes the rewards (returns `true`)
/// and goes back to the quest board.
pub fn handle_results(view: &mut AdventureView, key: Key) -> (finish: bool)
    ensures
        finish == (key is Enter),
        finish ==> same_but_slots(*final(view), AdventureView { screen: AdventureScreen::QuestBoard, ..*old(view) }),
        !finish ==> same_but_slots(*final(view), *old(view)),
        final(view).party_slots == old(view).party_slots,
{
    if let Key::Enter = key {
        view.screen = AdventureScreen::QuestBoard;
        true
    } else {
        false
    }
}

/// Seated party slots among the first `n`.
pub open spec fn seated_upto(slots: Seq<Option<usize>>, n: int) -> int
    decreases n,
{
    if n <= 0 || n > slots.len() {
        0
    } else {
        seated_upto(slots, n - 1) + if slots[n - 1] is Some {
            1int
        } else {
            0
        }
    }
}

/// Why a party may not set out.
#[derive(Debug, Clone, Copy, PartialEq, Eq, Structural)]
pub enum PartyRefusal {
    /// Fewer seated than the least the quest takes.
    TooFew(u32),
    /// More seated than the most the quest takes.
    TooMany(u32),
}

/// Checks the seated party against a quest's bounds: the number seated, or
/// why it may not set out (too few is reported before too many).
pub fn check_party(slots: &[Option<usize>; 3], min_party: u32, max_party: u32) -> (r: Result<u32, PartyRefusal>)
    ensures
        ({
            let n = seated_upto(slots@, 3);
            match r {
                Ok(c) => c == n && min_party <= n <= max_party,
                Err(PartyRefusal::TooFew(m)) => m == min_party && n < min_party,
                Err(PartyRefusal::TooMany(m)) => m == max_party && min_party <= n && n > max_party,
            }
        }),
        (r is Ok) == (min_party <= seated_upto(slots@, 3) <= max_party),
{
    let mut count: u32 = 0;
    let mut i: usize = 0;
    while i < 3
        invariant
            i <= 3,
            slots@.len() == 3,
            count == seated_upto(slots@, i as int),
            count <= i,
        decreases 3 - i,
    {
        if slots[i].is_some() {
            count = count + 1;
        }
        i += 1;
    }
    if count < min_party {
        return Err(PartyRefusal::TooFew(min_party));
    }
    if count > max_party {
        return Err(PartyRefusal::TooMany(max_party));
    }
    Ok(count)
}

/// The adventurer with a new status.
pub open spec fn with_status(a: Adventurer, status: AdventurerStatus) -> Adventurer {
    Adventurer { status, ..a }
}

/// Sets the status of roster entry `i`, if it exists.
fn set_status(adventurers: &mut Vec<Adventurer>, i: usize, status: AdventurerStatus)
    ensures
        i < old(adventurers)@.len() ==> final(adventurers)@ == old(adventurers)@.update(
            i as int,
            with_status(old(adventurers)@[i as int], status),
        ),
        i >= old(adventurers)@.len() ==> final(adventurers)@ == old(adventurers)@,
{
    if i < adventurers.len() {
        let mut a = adventurers.remove(i);
        a.status = status;
        adventurers.insert(i, a);
        assert(adventurers@ =~= old(adventurers)@.update(i as int, with_status(old(adventurers)@[i as int], status)));
    }
}

/// Whether roster entry `j` sits in one of the first `n` party slots.
pub open spec fn seated_in(slots: Seq<Option<usize>>, n: int, j: int) -> bool
    decreases n,
{
    if n <= 0 || n > slots.len() {
        false
    } else {
        seated_in(slots, n - 1, j) || (slots[n - 1] matches Some(x) && x == j)
    }
}

/// Whether roster entry `j` is among the first `n` listed members.
pub open spec fn listed_in(members: Seq<usize>, n: int, j: int) -> bool
    decreases n,
{
    if n <= 0 || n > members.len() {
        false
    } else {
        listed_in(members, n - 1, j) || members[n - 1] == j
    }
}

/// Marks every seated adventurer as on a quest; the rest of the roster is untouched.
pub fn mark_party_on_quest(adventurers: &mut Vec<Adventurer>, slots: &[Option<usize>; 3])
    ensures
        final(adventurers)@.len() == old(adventurers)@.len(),
        forall|j: int|
            0 <= j < old(adventurers)@.len() ==> #[trigger] final(adventurers)@[j] == if seated_in(slots@, 3, j) {
                with_status(old(adventurers)@[j], AdventurerStatus::OnQuest)
            } else {
                old(adventurers)@[j]
            },
{
    let mut i: usize = 0;
    while i < 3
        invariant
            i <= 3,
            slots@.len() == 3,
            adventurers@.len() == old(adventurers)@.len(),
            forall|j: int|
                0 <= j < old(adventurers)@.len() ==> #[trigger] adventurers@[j] == if seated_in(slots@, i as int, j) {
                    with_status(old(adventurers)@[j], AdventurerStatus::OnQuest)
                } else {
                    old(adventurers)@[j]
                },
        decreases 3 - i,
    {
        if let Some(idx) = slots[i] {
            set_status(adventurers, idx, AdventurerStatus::OnQuest);
        }
        i += 1;
    }
}

/// Puts every listed roster entry back to Ready, as when an adventure ends
/// or is given up; indices past the roster are skipped.
pub fn restore_party(adventurers: &mut Vec<Adventurer>, members: &Vec<usize>)
    ensures
        final(adventurers)@.len() == old(adventurers)@.len(),
        forall|j: int|
            0 <= j < old(adventurers)@.len() ==> #[trigger] final(adventurers)@[j] == if listed_in(
                members@,
                members@.len() as int,
                j,
            ) {
                with_status(old(adventurers)@[j], AdventurerStatus::Ready)
            } else {
                old(adventurers)@[j]
            },
{
    let mut i: usize = 0;
    while i < members.len()
        invariant
            i <= members@.len(),
            adventurers@.len() == old(adventurers)@.len(),
            forall|j: int|
                0 <= j < old(adventurers)@.len() ==> #[trigger] adventurers@[j] == if listed_in(members@, i as int, j) {
                    with_status(old(adventurers)@[j], AdventurerStatus::Ready)
                } else {
                    old(adventurers)@[j]
                },
        decreases members.len() - i,
    {
        set_status(adventurers, members[i], AdventurerStatus::Ready);
        i += 1;
    }
}

/// Whether no adventurer sits in two party slots.
pub open spec fn seated_once(slots: Seq<Option<usize>>) -> bool {
    forall|i: int, j: int|
        0 <= i < j < slots.len() && slots[i] is Some ==> #[trigger] slots[i] != #[trigger] slots[j]
}

/// No key on the party setup screen seats an adventurer twice.
pub proof fn lemma_party_seated_once(v: AdventureView, count: int, key: Key)
    requires
        seated_once(v.party_slots@),
        v.party_slots@.len() == 3,
        v.setup_slot < 3,
    ensures
        seated_once(setup_after(v, count, key).1),
{
    let slots = v.party_slots@;
    let after = setup_after(v, count, key).1;
    if v.picking_adventurer && key is Enter && !slots.contains(Some(v.picker_idx)) {
        assert forall|i: int, j: int| 0 <= i < j < after.len() && after[i] is Some implies #[trigger] after[i]
            != #[trigger] after[j] by {
            if i == v.setup_slot as int {
                assert(after[j] == slots[j] || j == v.setup_slot as int);
            } else if j == v.setup_slot as int {
                assert(after[i] == slots[i]);
            }
        }
    }
}

/// Whether what row `row` of adventurer `adv` holds (rows 0 to 2 gear,
/// then the consumable slots) can go back to the inventory without its
/// count leaving a `u32`.
pub fn row_return_ok(inventory: &Inventory, adventurers: &Vec<Adventurer>, adv: usize, row: usize) -> (b: bool)
    ensures
        b == row_return_fits(inventory@, adventurers@, adv as int, row as int),
{
    if adv >= adventurers.len() {
        return true;
    }
    let a = &adventurers[adv];
    let held: Option<ItemId> = if row == 0 {
        a.equipment.weapon.clone()
    } else if row == 1 {
        a.equipment.armor.clone()
    } else if row == 2 {
        a.equipment.accessory.clone()
    } else if row - 3 < a.consumables.len() {
        a.consumables[row - 3].clone()
    } else {
        None
    };
    proof {
        if row <= 2 {
            assert(held == gear_slot(adventurers@[adv as int], row as int));
        } else {
            let c = adventurers@[adv as int].consumables@;
            let p = crate::adventurer::padded_slots(c);
            if row - 3 < c.len() {
                assert(p[row - 3] == c[row - 3]);
            }
            assert(held == padded_slot(adventurers@, adv as int, row - 3));
        }
    }
    match held {
        Some(id) => inventory.count(&id) < u32::MAX,
        None => true,
    }
}

/// Whether `handle_roster` may take `key`: when the key clears a row or
/// equips the picked item, what the row holds can go back to the inventory.
pub fn roster_key_is_safe(
    view: &AdventureView,
    inventory: &Inventory,
    adventurers: &Vec<Adventurer>,
    registry: &ItemRegistry,
    key: Key,
) -> (b: bool)
    ensures
        b == ({
            let v = *view;
            let picks = slot_entries(inventory.entries(), *registry, v.roster_equip_slot as int).len() as int;
            (roster_clears(v, adventurers@.len() as int, key) || roster_equips(v, adventurers@.len() as int, picks, key))
                ==> row_return_fits(inventory@, adventurers@, v.selected_adventurer as int, v.roster_equip_slot as int)
        }),
{
    let count = adventurers.len();
    let clear_key = key == Key::Char('x') || key == Key::Char('X');
    let clears = count > 0 && view.roster_focus == RosterFocus::Equipment && clear_key;
    let equips = if count > 0 && view.roster_focus == RosterFocus::ItemPicker && key == Key::Enter {
        let picks = compatible_items_for_slot(inventory, registry, view.roster_equip_slot);
        proof {
            picks@.to_multiset_ensures();
            slot_entries(inventory.entries(), *registry, view.roster_equip_slot as int).to_multiset_ensures();
        }
        view.roster_picker_idx < picks.len()
    } else {
        false
    };
    !(clears || equips) || row_return_ok(inventory, adventurers, view.selected_adventurer, view.roster_equip_slot)
}

/// Whether `handle_party_setup` may take `key` (`setup_key_safe`).
pub fn setup_key_is_safe(view: &AdventureView, inventory: &Inventory, adventurers: &Vec<Adventurer>, key: Key) -> (b: bool)
    ensures
        b == setup_key_safe(*view, inventory@, adventurers@, key),
{
    let clear_key = key == Key::Char('x') || key == Key::Char('X');
    let touches = key == Key::Enter || (!view.picking_adventurer && clear_key);
    if touches && view.setup_slot >= 3 {
        return false;
    }
    if view.picking_adventurer || view.setup_focus != PartySetupFocus::EquipmentSlots || !(key == Key::Enter || clear_key) {
        return true;
    }
    match view.party_slots[view.setup_slot] {
        Some(adv) => row_return_ok(inventory, adventurers, adv, view.setup_equip_slot),
        None => true,
    }
}

} // verus!
