use vstd::prelude::*;

use crate::adventurer::{padded_slots, Adventurer, CONSUMABLE_SLOTS};
use crate::inventory::{after_remove, count_of, distinct_keys, entries_map, has_key, Inventory};
use crate::item::{ItemCategory, ItemId, ItemRegistry};

verus! {

// ── Counting items carried ────────────────────────────────────────────────

/// Copies of item `k` in one optional slot (zero or one).
pub open spec fn slot_count(o: Option<ItemId>, k: Seq<char>) -> int {
    match o {
        Some(id) => if id@ == k {
            1
        } else {
            0
        },
        None => 0,
    }
}

/// Copies of item `k` across a list of slots.
pub open spec fn slots_count(s: Seq<Option<ItemId>>, k: Seq<char>) -> int
    decreases s.len(),
{
    if s.len() == 0 {
        0
    } else {
        slots_count(s.drop_last(), k) + slot_count(s.last(), k)
    }
}

/// The item in equipment slot `slot` (0 weapon, 1 armor, 2 accessory).
pub open spec fn gear_slot(a: Adventurer, slot: int) -> Option<ItemId> {
    if slot == 0 {
        a.equipment.weapon
    } else if slot == 1 {
        a.equipment.armor
    } else if slot == 2 {
        a.equipment.accessory
    } else {
        None
    }
}

/// The adventurer with equipment slot `slot` (0, 1 or 2) set to `v`.
pub open spec fn with_gear(a: Adventurer, slot: int, v: Option<ItemId>) -> Adventurer {
    if slot == 0 {
        Adventurer { equipment: crate::adventurer::Equipment { weapon: v, ..a.equipment }, ..a }
    } else if slot == 1 {
        Adventurer { equipment: crate::adventurer::Equipment { armor: v, ..a.equipment }, ..a }
    } else if slot == 2 {
        Adventurer { equipment: crate::adventurer::Equipment { accessory: v, ..a.equipment }, ..a }
    } else {
        a
    }
}

/// Copies of item `k` an adventurer carries, equipped or in consumable slots.
pub open spec fn carried(a: Adventurer, k: Seq<char>) -> int {
    slot_count(a.equipment.weapon, k) + slot_count(a.equipment.armor, k) + slot_count(a.equipment.accessory, k)
        + slots_count(a.consumables@, k)
}

/// Copies of item `k` carried by the whole roster.
pub open spec fn roster_carried(advs: Seq<Adventurer>, k: Seq<char>) -> int
    decreases advs.len(),
{
    if advs.len() == 0 {
        0
    } else {
        roster_carried(advs.drop_last(), k) + carried(advs.last(), k)
    }
}

/// Copies of item `k` the player owns: in the inventory or carried.
pub open spec fn total_owned(inv: Map<Seq<char>, u32>, advs: Seq<Adventurer>, k: Seq<char>) -> int {
    count_of(inv, k) + roster_carried(advs, k)
}

/// Replacing one adventurer changes the roster's count by the difference.
pub proof fn lemma_roster_update(advs: Seq<Adventurer>, i: int, a: Adventurer, k: Seq<char>)
    requires
        0 <= i < advs.len(),
    ensures
        roster_carried(advs.update(i, a), k) == roster_carried(advs, k) - carried(advs[i], k) + carried(a, k),
    decreases advs.len(),
{
    let u = advs.update(i, a);
    if i == advs.len() - 1 {
        assert(u.drop_last() =~= advs.drop_last());
    } else {
        lemma_roster_update(advs.drop_last(), i, a, k);
        assert(u.drop_last() =~= advs.drop_last().update(i, a));
    }
}

/// Replacing one slot changes the count by the difference.
pub proof fn lemma_slots_update(s: Seq<Option<ItemId>>, j: int, v: Option<ItemId>, k: Seq<char>)
    requires
        0 <= j < s.len(),
    ensures
        slots_count(s.update(j, v), k) == slots_count(s, k) - slot_count(s[j], k) + slot_count(v, k),
    decreases s.len(),
{
    let u = s.update(j, v);
    if j == s.len() - 1 {
        assert(u.drop_last() =~= s.drop_last());
    } else {
        lemma_slots_update(s.drop_last(), j, v, k);
        assert(u.drop_last() =~= s.drop_last().update(j, v));
    }
}

/// Padding with empty slots adds nothing.
pub proof fn lemma_slots_padded(s: Seq<Option<ItemId>>, k: Seq<char>)
    ensures
        slots_count(padded_slots(s), k) == slots_count(s, k),
{
    if s.len() < CONSUMABLE_SLOTS {
        lemma_slots_extend(s, (CONSUMABLE_SLOTS - s.len()) as nat, k);
    }
}

proof fn lemma_slots_extend(s: Seq<Option<ItemId>>, m: nat, k: Seq<char>)
    ensures
        slots_count(s + Seq::new(m, |i: int| None::<ItemId>), k) == slots_count(s, k),
    decreases m,
{
    if m == 0 {
        assert(s + Seq::new(m, |i: int| None::<ItemId>) =~= s);
    } else {
        lemma_slots_extend(s, (m - 1) as nat, k);
        let t = s + Seq::new(m, |i: int| None::<ItemId>);
        assert(t.drop_last() =~= s + Seq::new((m - 1) as nat, |i: int| None::<ItemId>));
    }
}

// ── Equipment slots ───────────────────────────────────────────────────────

/// The inventory after `unequip_slot`: the item taken off, if any, returned.
pub open spec fn unequipped_inv(inv: Map<Seq<char>, u32>, advs: Seq<Adventurer>, adv_idx: int, slot: int) -> Map<Seq<char>, u32> {
    if 0 <= adv_idx < advs.len() && gear_slot(advs[adv_idx], slot) is Some {
        let id = gear_slot(advs[adv_idx], slot)->0@;
        inv.insert(id, (count_of(inv, id) + 1) as u32)
    } else {
        inv
    }
}

/// The roster after `unequip_slot`: that equipment slot emptied.
pub open spec fn unequipped_roster(advs: Seq<Adventurer>, adv_idx: int, slot: int) -> Seq<Adventurer> {
    if 0 <= adv_idx < advs.len() && 0 <= slot <= 2 {
        advs.update(adv_idx, with_gear(advs[adv_idx], slot, None))
    } else {
        advs
    }
}

/// Whether returning the item in an equipment slot keeps the inventory count in a `u32`.
pub open spec fn unequip_fits(inv: Map<Seq<char>, u32>, advs: Seq<Adventurer>, adv_idx: int, slot: int) -> bool {
    0 <= adv_idx < advs.len() && gear_slot(advs[adv_idx], slot) is Some ==> count_of(
        inv,
        gear_slot(advs[adv_idx], slot)->0@,
    ) + 1 <= u32::MAX
}

proof fn lemma_with_gear_carried(a: Adventurer, slot: int, v: Option<ItemId>, k: Seq<char>)
    requires
        0 <= slot <= 2,
    ensures
        carried(with_gear(a, slot, v), k) == carried(a, k) - slot_count(gear_slot(a, slot), k) + slot_count(v, k),
{
}

/// Takes the item out of equipment slot `equip_slot` (0 weapon, 1 armor,
/// 2 accessory) of adventurer `adv_idx` and returns it to the inventory.
pub fn unequip_slot(inventory: &mut Inventory, adventurers: &mut Vec<Adventurer>, adv_idx: usize, equip_slot: usize)
    requires
        unequip_fits(old(inventory)@, old(adventurers)@, adv_idx as int, equip_slot as int),
    ensures
        final(inventory)@ == unequipped_inv(old(inventory)@, old(adventurers)@, adv_idx as int, equip_slot as int),
        final(adventurers)@ == unequipped_roster(old(adventurers)@, adv_idx as int, equip_slot as int),
        forall|k: Seq<char>|
            #[trigger] total_owned(final(inventory)@, final(adventurers)@, k) == total_owned(
                old(inventory)@,
                old(adventurers)@,
                k,
            ),
{
    if adv_idx >= adventurers.len() {
        return;
    }
    let ghost advs0 = adventurers@;
    let ghost inv0 = inventory@;
    let mut adv = adventurers.remove(adv_idx);
    let removed = if equip_slot == 0 {
        adv.equipment.weapon.take()
    } else if equip_slot == 1 {
        adv.equipment.armor.take()
    } else if equip_slot == 2 {
        adv.equipment.accessory.take()
    } else {
        None
    };
    adventurers.insert(adv_idx, adv);
    proof {
        assert(removed == gear_slot(advs0[adv_idx as int], equip_slot as int));
        assert(adventurers@ =~= unequipped_roster(advs0, adv_idx as int, equip_slot as int));
    }
    if let Some(id) = removed {
        inventory.add(&id, 1);
    }
    proof {
        assert forall|k: Seq<char>|
            #[trigger] total_owned(inventory@, adventurers@, k) == total_owned(inv0, advs0, k) by {
            if equip_slot <= 2 {
                lemma_roster_update(advs0, adv_idx as int, with_gear(advs0[adv_idx as int], equip_slot as int, None), k);
                lemma_with_gear_carried(advs0[adv_idx as int], equip_slot as int, None, k);
            }
        }
    }
}

/// The inventory and roster after `equip_item_from_picker`.
pub open spec fn equipped_state(
    inv: Map<Seq<char>, u32>,
    advs: Seq<Adventurer>,
    adv_idx: int,
    slot: int,
    item: ItemId,
) -> (Map<Seq<char>, u32>, Seq<Adventurer>) {
    let inv1 = unequipped_inv(inv, advs, adv_idx, slot);
    let advs1 = unequipped_roster(advs, adv_idx, slot);
    if count_of(inv1, item@) < 1 {
        (inv1, advs1)
    } else if 0 <= adv_idx < advs1.len() && 0 <= slot <= 2 {
        (after_remove(inv1, item@, 1), advs1.update(adv_idx, with_gear(advs1[adv_idx], slot, Some(item))))
    } else {
        let inv2 = after_remove(inv1, item@, 1);
        (inv2.insert(item@, (count_of(inv2, item@) + 1) as u32), advs1)
    }
}

/// Equip a specific gear item from the picker, returning what the slot held
/// to the inventory first. Nothing is equipped if the inventory has none of
/// the item; an item that cannot be placed is put back.
pub fn equip_item_from_picker(
    inventory: &mut Inventory,
    adventurers: &mut Vec<Adventurer>,
    adv_idx: usize,
    equip_slot: usize,
    item_id: &ItemId,
)
    requires
        unequip_fits(old(inventory)@, old(adventurers)@, adv_idx as int, equip_slot as int),
    ensures
        (final(inventory)@, final(adventurers)@) == equipped_state(
            old(inventory)@,
            old(adventurers)@,
            adv_idx as int,
            equip_slot as int,
            *item_id,
        ),
        forall|k: Seq<char>|
            #[trigger] total_owned(final(inventory)@, final(adventurers)@, k) == total_owned(
                old(inventory)@,
                old(adventurers)@,
                k,
            ),
{
    unequip_slot(inventory, adventurers, adv_idx, equip_slot);
    let ghost inv1 = inventory@;
    let ghost advs1 = adventurers@;
    if !inventory.remove(item_id, 1) {
        return;
    }
    let ghost inv2 = inventory@;
    proof {
        assert forall|k: Seq<char>| #[trigger] count_of(inv2, k) == count_of(inv1, k) - (if k == item_id@ { 1int } else { 0 }) by {
            if k != item_id@ {
                assert(after_remove(inv1, item_id@, 1).contains_key(k) == inv1.contains_key(k));
            }
        }
    }
    if adv_idx >= adventurers.len() || equip_slot > 2 {
        inventory.add(item_id, 1);
        proof {
            assert forall|k: Seq<char>|
                #[trigger] total_owned(inventory@, adventurers@, k) == total_owned(inv1, advs1, k) by {
                assert(count_of(inv2, k) == count_of(inv1, k) - (if k == item_id@ { 1int } else { 0 }));
            }
        }
        return;
    }
    let mut adv = adventurers.remove(adv_idx);
    let id = item_id.clone();
    if equip_slot == 0 {
        adv.equipment.weapon = Some(id);
    } else if equip_slot == 1 {
        adv.equipment.armor = Some(id);
    } else {
        adv.equipment.accessory = Some(id);
    }
    adventurers.insert(adv_idx, adv);
    proof {
        assert(adventurers@ =~= advs1.update(adv_idx as int, with_gear(advs1[adv_idx as int], equip_slot as int, Some(*item_id))));
        assert(gear_slot(advs1[adv_idx as int], equip_slot as int) is None);
        assert forall|k: Seq<char>|
            #[trigger] total_owned(inventory@, adventurers@, k) == total_owned(inv1, advs1, k) by {
            lemma_roster_update(advs1, adv_idx as int, with_gear(advs1[adv_idx as int], equip_slot as int, Some(*item_id)), k);
            lemma_with_gear_carried(advs1[adv_idx as int], equip_slot as int, Some(*item_id), k);
            assert(count_of(inv2, k) == count_of(inv1, k) - (if k == item_id@ { 1int } else { 0 }));
        }
    }
}

// ── Consumable slots ──────────────────────────────────────────────────────

/// The roster after a change to adventurer `adv_idx` that only replaced its
/// consumable slots with `slots` (no change at all if there is no such adventurer).
pub open spec fn slots_replaced(old_advs: Seq<Adventurer>, new_advs: Seq<Adventurer>, adv_idx: int, slots: Seq<Option<ItemId>>) -> bool {
    if 0 <= adv_idx < old_advs.len() {
        &&& new_advs.len() == old_advs.len()
        &&& forall|j: int| 0 <= j < old_advs.len() && j != adv_idx ==> new_advs[j] == old_advs[j]
        &&& new_advs[adv_idx] == (Adventurer { consumables: new_advs[adv_idx].consumables, ..old_advs[adv_idx] })
        &&& new_advs[adv_idx].consumables@ == slots
    } else {
        new_advs == old_advs
    }
}

/// The consumable slots of adventurer `adv_idx` after padding, with slot
/// `slot` (if it exists) set to `v`.
pub open spec fn padded_with(advs: Seq<Adventurer>, adv_idx: int, slot: int, v: Option<ItemId>) -> Seq<Option<ItemId>> {
    let p = padded_slots(advs[adv_idx].consumables@);
    if 0 <= slot < p.len() {
        p.update(slot, v)
    } else {
        p
    }
}

/// What consumable slot `slot` of adventurer `adv_idx` holds once padded.
pub open spec fn padded_slot(advs: Seq<Adventurer>, adv_idx: int, slot: int) -> Option<ItemId> {
    let p = padded_slots(advs[adv_idx].consumables@);
    if 0 <= adv_idx < advs.len() && 0 <= slot < p.len() {
        p[slot]
    } else {
        None
    }
}

/// The inventory after one copy of the item in `o` (if any) is returned.
pub open spec fn returned(inv: Map<Seq<char>, u32>, o: Option<ItemId>) -> Map<Seq<char>, u32> {
    match o {
        Some(id) => inv.insert(id@, (count_of(inv, id@) + 1) as u32),
        None => inv,
    }
}

/// Whether returning the item of a slot keeps its inventory count in a `u32`.
pub open spec fn return_fits(inv: Map<Seq<char>, u32>, o: Option<ItemId>) -> bool {
    o matches Some(id) ==> count_of(inv, id@) + 1 <= u32::MAX
}

proof fn lemma_removed_counts(inv: Map<Seq<char>, u32>, item: Seq<char>, k: Seq<char>)
    requires
        count_of(inv, item) >= 1,
    ensures
        count_of(after_remove(inv, item, 1), k) == count_of(inv, k) - (if k == item { 1int } else { 0 }),
{
}

/// Replacing the consumable slots of one adventurer changes what the roster
/// carries by the difference in what the slots hold.
proof fn lemma_slots_replaced(old_advs: Seq<Adventurer>, new_advs: Seq<Adventurer>, adv_idx: int, slots: Seq<Option<ItemId>>, k: Seq<char>)
    requires
        0 <= adv_idx < old_advs.len(),
        slots_replaced(old_advs, new_advs, adv_idx, slots),
    ensures
        roster_carried(new_advs, k) == roster_carried(old_advs, k) - slots_count(old_advs[adv_idx].consumables@, k)
            + slots_count(slots, k),
{
    assert(new_advs =~= old_advs.update(adv_idx, new_advs[adv_idx]));
    lemma_roster_update(old_advs, adv_idx, new_advs[adv_idx], k);
}

/// Empties consumable slot `slot` of adventurer `adv_idx` (after padding its
/// slots to the slot count) and returns the item to the inventory.
pub fn unequip_consumable(inventory: &mut Inventory, adventurers: &mut Vec<Adventurer>, adv_idx: usize, slot: usize)
    requires
        return_fits(old(inventory)@, padded_slot(old(adventurers)@, adv_idx as int, slot as int)),
    ensures
        final(inventory)@ == returned(old(inventory)@, padded_slot(old(adventurers)@, adv_idx as int, slot as int)),
        slots_replaced(old(adventurers)@, final(adventurers)@, adv_idx as int, padded_with(old(adventurers)@, adv_idx as int, slot as int, None)),
        forall|k: Seq<char>|
            #[trigger] total_owned(final(inventory)@, final(adventurers)@, k) == total_owned(
                old(inventory)@,
                old(adventurers)@,
                k,
            ),
{
    if adv_idx >= adventurers.len() {
        return;
    }
    let ghost advs0 = adventurers@;
    let ghost inv0 = inventory@;
    let mut adv = adventurers.remove(adv_idx);
    adv.init_consumable_slots();
    let ghost padded = adv.consumables@;
    let removed = if slot < adv.consumables.len() {
        let r = adv.consumables.remove(slot);
        adv.consumables.insert(slot, None);
        r
    } else {
        None
    };
    proof {
        if slot < padded.len() {
            assert(adv.consumables@ =~= padded.update(slot as int, None));
        }
    }
    adventurers.insert(adv_idx, adv);
    if let Some(id) = removed {
        inventory.add(&id, 1);
    }
    proof {
        let slots = padded_with(advs0, adv_idx as int, slot as int, None);
        assert(slots_replaced(advs0, adventurers@, adv_idx as int, slots));
        assert forall|k: Seq<char>|
            #[trigger] total_owned(inventory@, adventurers@, k) == total_owned(inv0, advs0, k) by {
            lemma_slots_replaced(advs0, adventurers@, adv_idx as int, slots, k);
            lemma_slots_padded(advs0[adv_idx as int].consumables@, k);
            if slot < padded.len() {
                lemma_slots_update(padded, slot as int, None, k);
            }
        }
    }
}

/// The inventory and the new slots of adventurer `adv_idx` after `equip_consumable_from_picker`.
pub open spec fn consumable_equipped_state(
    inv: Map<Seq<char>, u32>,
    advs: Seq<Adventurer>,
    adv_idx: int,
    slot: int,
    item: ItemId,
) -> (Map<Seq<char>, u32>, Seq<Option<ItemId>>) {
    let inv1 = returned(inv, padded_slot(advs, adv_idx, slot));
    let slots1 = padded_with(advs, adv_idx, slot, None);
    if count_of(inv1, item@) < 1 {
        (inv1, slots1)
    } else if 0 <= adv_idx < advs.len() && 0 <= slot < slots1.len() {
        (after_remove(inv1, item@, 1), slots1.update(slot, Some(item)))
    } else {
        let inv2 = after_remove(inv1, item@, 1);
        (inv2.insert(item@, (count_of(inv2, item@) + 1) as u32), slots1)
    }
}

/// Equip a consumable item from the picker into consumable slot
/// `consumable_slot`, returning what the slot held to the inventory first.
pub fn equip_consumable_from_picker(
    inventory: &mut Inventory,
    adventurers: &mut Vec<Adventurer>,
    adv_idx: usize,
    consumable_slot: usize,
    item_id: &ItemId,
)
    requires
        return_fits(old(inventory)@, padded_slot(old(adventurers)@, adv_idx as int, consumable_slot as int)),
    ensures
        final(inventory)@ == consumable_equipped_state(old(inventory)@, old(adventurers)@, adv_idx as int, consumable_slot as int, *item_id).0,
        slots_replaced(
            old(adventurers)@,
            final(adventurers)@,
            adv_idx as int,
            consumable_equipped_state(old(inventory)@, old(adventurers)@, adv_idx as int, consumable_slot as int, *item_id).1,
        ),
        forall|k: Seq<char>|
            #[trigger] total_owned(final(inventory)@, final(adventurers)@, k) == total_owned(
                old(inventory)@,
                old(adventurers)@,
                k,
            ),
{
    let ghost advs0 = adventurers@;
    let ghost inv0 = inventory@;
    unequip_consumable(inventory, adventurers, adv_idx, consumable_slot);
    let ghost inv1 = inventory@;
    let ghost advs1 = adventurers@;
    let ghost slots1 = padded_with(advs0, adv_idx as int, consumable_slot as int, None);
    if !inventory.remove(item_id, 1) {
        return;
    }
    let ghost inv2 = inventory@;
    proof {
        assert forall|k: Seq<char>| #[trigger] count_of(inv2, k) == count_of(inv1, k) - (if k == item_id@ { 1int } else { 0 }) by {
            lemma_removed_counts(inv1, item_id@, k);
        }
    }
    if adv_idx >= adventurers.len() {
        inventory.add(item_id, 1);
        proof {
            assert forall|k: Seq<char>|
                #[trigger] total_owned(inventory@, adventurers@, k) == total_owned(inv1, advs1, k) by {
                assert(count_of(inv2, k) == count_of(inv1, k) - (if k == item_id@ { 1int } else { 0 }));
            }
        }
        return;
    }
    let mut adv = adventurers.remove(adv_idx);
    adv.init_consumable_slots();
    proof {
        assert(adv.consumables@ == slots1);
        assert(padded_slots(slots1) == slots1);
    }
    if consumable_slot < adv.consumables.len() {
        let id = item_id.clone();
        adv.consumables.set(consumable_slot, Some(id));
        adventurers.insert(adv_idx, adv);
        proof {
            let slots2 = slots1.update(consumable_slot as int, Some(*item_id));
            assert(slots_replaced(advs0, adventurers@, adv_idx as int, slots2));
            assert(slots_replaced(advs1, adventurers@, adv_idx as int, slots2));
            assert forall|k: Seq<char>|
                #[trigger] total_owned(inventory@, adventurers@, k) == total_owned(inv1, advs1, k) by {
                lemma_slots_replaced(advs1, adventurers@, adv_idx as int, slots2, k);
                lemma_slots_update(slots1, consumable_slot as int, Some(*item_id), k);
                assert(count_of(inv2, k) == count_of(inv1, k) - (if k == item_id@ { 1int } else { 0 }));
            }
        }
    } else {
        adventurers.insert(adv_idx, adv);
        inventory.add(item_id, 1);
        proof {
            assert(slots_replaced(advs0, adventurers@, adv_idx as int, slots1));
            assert(slots_replaced(advs1, adventurers@, adv_idx as int, slots1));
            assert forall|k: Seq<char>|
                #[trigger] total_owned(inventory@, adventurers@, k) == total_owned(inv1, advs1, k) by {
                lemma_slots_replaced(advs1, adventurers@, adv_idx as int, slots1, k);
                assert(count_of(inv2, k) == count_of(inv1, k) - (if k == item_id@ { 1int } else { 0 }));
            }
        }
    }
}

// ── Cycling through the inventory ─────────────────────────────────────────

/// Whether the inventory holds some of item `k` and the registry files it
/// under category `cat`.
pub open spec fn is_compatible(inv: Map<Seq<char>, u32>, registry: ItemRegistry, cat: ItemCategory, k: Seq<char>) -> bool {
    count_of(inv, k) > 0 && (registry.lookup(k) matches Some(d) && d.category == cat)
}

/// Ids of the entries holding a positive quantity of an item of category
/// `cat`, in entry order.
pub open spec fn choices_in(entries: Seq<(ItemId, u32)>, registry: ItemRegistry, cat: ItemCategory) -> Seq<ItemId>
    decreases entries.len(),
{
    if entries.len() == 0 {
        Seq::empty()
    } else {
        let rest = choices_in(entries.drop_last(), registry, cat);
        let e = entries.last();
        if e.1 > 0 && (registry.lookup(e.0@) matches Some(d) && d.category == cat) {
            rest.push(e.0)
        } else {
            rest
        }
    }
}

/// Position of the first id equal to `k`, or -1.
pub open spec fn id_index(s: Seq<ItemId>, k: Seq<char>) -> int
    decreases s.len(),
{
    if s.len() == 0 {
        -1
    } else if s[0]@ == k {
        0
    } else {
        let r = id_index(s.drop_first(), k);
        if r < 0 {
            -1
        } else {
            r + 1
        }
    }
}

/// The item that follows `current` in `choices`, wrapping around; the first
/// choice when nothing (or something not among the choices) is current.
pub open spec fn next_choice(choices: Seq<ItemId>, current: Option<ItemId>) -> ItemId {
    match current {
        None => choices[0],
        Some(c) => {
            let p = id_index(choices, c@);
            if p >= 0 {
                choices[(p + 1) % (choices.len() as int)]
            } else {
                choices[0]
            }
        },
    }
}

/// Equipment slot number to the category of item it takes.
pub open spec fn slot_category(slot: int) -> ItemCategory {
    if slot == 0 {
        ItemCategory::Weapon
    } else if slot == 1 {
        ItemCategory::Armor
    } else {
        ItemCategory::Accessory
    }
}

proof fn lemma_id_index(s: Seq<ItemId>, k: Seq<char>)
    ensures
        -1 <= id_index(s, k) < s.len(),
        id_index(s, k) >= 0 ==> s[id_index(s, k)]@ == k,
        forall|l: int| 0 <= l < id_index(s, k) ==> s[l]@ != k,
        id_index(s, k) == -1 ==> forall|l: int| 0 <= l < s.len() ==> s[l]@ != k,
    decreases s.len(),
{
    if s.len() > 0 && s[0]@ != k {
        lemma_id_index(s.drop_first(), k);
        assert forall|l: int| 0 <= l < id_index(s, k) implies s[l]@ != k by {
            if l > 0 {
                assert(s[l] == s.drop_first()[l - 1]);
            }
        }
        if id_index(s.drop_first(), k) == -1 {
            assert forall|l: int| 0 <= l < s.len() implies s[l]@ != k by {
                if l > 0 {
                    assert(s[l] == s.drop_first()[l - 1]);
                }
            }
        }
    }
}

/// Every choice comes from an entry with a positive quantity of the right
/// category, and an entry qualifies only if some choice exists.
#[verifier::spinoff_prover]
proof fn lemma_choices(entries: Seq<(ItemId, u32)>, registry: ItemRegistry, cat: ItemCategory)
    ensures
        forall|i: int| #![trigger choices_in(entries, registry, cat)[i]] 0 <= i < choices_in(entries, registry, cat).len() ==> exists|j: int|
            0 <= j < entries.len() && #[trigger] entries[j].0 == choices_in(entries, registry, cat)[i] && entries[j].1 > 0
                && (registry.lookup(entries[j].0@) matches Some(d) && d.category == cat),
        forall|j: int|
            0 <= j < entries.len() && #[trigger] entries[j].1 > 0 && (registry.lookup(entries[j].0@) matches Some(d) && d.category
                == cat) ==> choices_in(entries, registry, cat).len() > 0,
    decreases entries.len(),
{
    if entries.len() > 0 {
        let rest = entries.drop_last();
        lemma_choices(rest, registry, cat);
        let c = choices_in(entries, registry, cat);
        let c0 = choices_in(rest, registry, cat);
        assert forall|i: int| #![trigger c[i]] 0 <= i < c.len() implies exists|j: int|
            0 <= j < entries.len() && #[trigger] entries[j].0 == c[i] && entries[j].1 > 0
                && (registry.lookup(entries[j].0@) matches Some(d) && d.category == cat) by {
            if i < c0.len() {
                let j = choose|j: int|
                    0 <= j < rest.len() && #[trigger] rest[j].0 == c0[i] && rest[j].1 > 0
                        && (registry.lookup(rest[j].0@) matches Some(d) && d.category == cat);
                assert(entries[j] == rest[j]);
            } else {
                assert(entries[entries.len() - 1] == entries.last());
            }
        }
        assert forall|j: int|
            0 <= j < entries.len() && #[trigger] entries[j].1 > 0 && (registry.lookup(entries[j].0@) matches Some(d) && d.category
                == cat) implies c.len() > 0 by {
            if j < rest.len() {
                assert(rest[j] == entries[j]);
            }
        }
    }
}

/// A qualifying entry's item is among the choices.
proof fn lemma_choices_has(entries: Seq<(ItemId, u32)>, registry: ItemRegistry, cat: ItemCategory, j: int)
    requires
        0 <= j < entries.len(),
        entries[j].1 > 0,
        registry.lookup(entries[j].0@) matches Some(d) && d.category == cat,
    ensures
        exists|i: int|
            0 <= i < choices_in(entries, registry, cat).len() && #[trigger] choices_in(entries, registry, cat)[i]
                == entries[j].0,
    decreases entries.len(),
{
    let rest = entries.drop_last();
    let c = choices_in(entries, registry, cat);
    if j < entries.len() - 1 {
        assert(rest[j] == entries[j]);
        lemma_choices_has(rest, registry, cat, j);
        let i = choose|i: int|
            0 <= i < choices_in(rest, registry, cat).len() && #[trigger] choices_in(rest, registry, cat)[i] == rest[j].0;
        assert(c[i] == entries[j].0);
    } else {
        assert(c[c.len() - 1] == entries[j].0);
    }
}

/// Ids of the inventory entries holding an item of category `cat`, in entry order.
fn choices(inventory: &Inventory, registry: &ItemRegistry, cat: ItemCategory) -> (r: Vec<ItemId>)
    ensures
        r@ == choices_in(inventory.entries(), *registry, cat),
        forall|i: int| 0 <= i < r@.len() ==> is_compatible(inventory@, *registry, cat, #[trigger] r@[i]@),
        r@.len() == 0 ==> forall|k: Seq<char>| !is_compatible(inventory@, *registry, cat, k),
        forall|k: Seq<char>|
            is_compatible(inventory@, *registry, cat, k) ==> exists|i: int| 0 <= i < r@.len() && #[trigger] r@[i]@ == k,
{
    let items = inventory.items();
    let mut out: Vec<ItemId> = Vec::new();
    let mut i: usize = 0;
    while i < items.len()
        invariant
            i <= items@.len(),
            out@ == choices_in(items@.take(i as int), *registry, cat),
        decreases items.len() - i,
    {
        proof {
            assert(items@.take(i + 1).drop_last() =~= items@.take(i as int));
            assert(items@.take(i + 1).last() == items@[i as int]);
        }
        if items[i].1 > 0 {
            let keep = match registry.get(&items[i].0) {
                Some(def) => def.category == cat,
                None => false,
            };
            if keep {
                out.push(items[i].0.clone());
            }
        }
        i += 1;
    }
    proof {
        assert(items@.take(items@.len() as int) =~= items@);
        let es = items@;
        lemma_choices(es, *registry, cat);
        assert forall|i: int| 0 <= i < out@.len() implies is_compatible(inventory@, *registry, cat, #[trigger] out@[i]@) by {
            let j = choose|j: int|
                0 <= j < es.len() && #[trigger] es[j].0 == out@[i] && es[j].1 > 0
                    && (registry.lookup(es[j].0@) matches Some(d) && d.category == cat);
            crate::inventory::lemma_entry(es, j);
        }
        assert forall|k: Seq<char>| is_compatible(inventory@, *registry, cat, k) implies exists|i: int|
            0 <= i < out@.len() && #[trigger] out@[i]@ == k by {
            assert(inventory@.contains_key(k));
            let j = choose|j: int| 0 <= j < es.len() && #[trigger] es[j].0@ == k;
            crate::inventory::lemma_entry(es, j);
            lemma_choices_has(es, *registry, cat, j);
            let i = choose|i: int| 0 <= i < out@.len() && #[trigger] out@[i] == es[j].0;
            assert(out@[i]@ == k);
        }
        if out@.len() == 0 {
            assert forall|k: Seq<char>| !is_compatible(inventory@, *registry, cat, k) by {
                if is_compatible(inventory@, *registry, cat, k) {
                    assert(inventory@.contains_key(k));
                    let j = choose|j: int| 0 <= j < es.len() && #[trigger] es[j].0@ == k;
                    crate::inventory::lemma_entry(es, j);
                    assert(es[j].1 > 0);
                }
            }
        }
    }
    out
}

/// What gear slot `slot` (0 to 2) of adventurer `adv_idx` holds, if the adventurer exists.
pub open spec fn held_gear(advs: Seq<Adventurer>, adv_idx: int, slot: int) -> Option<ItemId> {
    if 0 <= adv_idx < advs.len() {
        gear_slot(advs[adv_idx], slot)
    } else {
        None
    }
}

/// Whether `k` names the item in `held`.
pub open spec fn is_held(held: Option<ItemId>, k: Seq<char>) -> bool {
    held matches Some(h) && h@ == k
}

/// What `cycle_equipment` does: on a gear slot (0 to 2) the item it held
/// goes back to the inventory, then a held item of the slot's category, if
/// there is one, is equipped, and it is not the item just taken off unless
/// no other item of that category is held; higher slot numbers change nothing.
pub open spec fn equipment_cycled(
    inv0: Map<Seq<char>, u32>,
    advs0: Seq<Adventurer>,
    inv1: Map<Seq<char>, u32>,
    advs1: Seq<Adventurer>,
    registry: ItemRegistry,
    adv_idx: int,
    slot: int,
) -> bool {
    if slot > 2 {
        inv1 == inv0 && advs1 == advs0
    } else {
        let invu = unequipped_inv(inv0, advs0, adv_idx, slot);
        let advsu = unequipped_roster(advs0, adv_idx, slot);
        &&& (forall|k: Seq<char>| !is_compatible(invu, registry, slot_category(slot), k)) ==> (inv1 == invu && advs1
            == advsu)
        &&& (exists|k: Seq<char>| is_compatible(invu, registry, slot_category(slot), k)) ==> exists|item: ItemId|
            is_compatible(invu, registry, slot_category(slot), item@) && (inv1, advs1) == #[trigger] equipped_state(
                invu,
                advsu,
                adv_idx,
                slot,
                item,
            ) && ((exists|k: Seq<char>|
                is_compatible(invu, registry, slot_category(slot), k) && !is_held(held_gear(advs0, adv_idx, slot), k))
                ==> !is_held(held_gear(advs0, adv_idx, slot), item@))
    }
}

/// Cycle through equippable items in the inventory for equipment slot
/// `equip_slot`: the current item goes back to the inventory and the next
/// compatible item is equipped in its place: the first, in inventory order,
/// other than the one just taken off, or that one again when it is the only
/// compatible item.
pub fn cycle_equipment(
    inventory: &mut Inventory,
    adventurers: &mut Vec<Adventurer>,
    registry: &ItemRegistry,
    adv_idx: usize,
    equip_slot: usize,
)
    requires
        unequip_fits(old(inventory)@, old(adventurers)@, adv_idx as int, equip_slot as int),
    ensures
        equipment_cycled(
            old(inventory)@,
            old(adventurers)@,
            final(inventory)@,
            final(adventurers)@,
            *registry,
            adv_idx as int,
            equip_slot as int,
        ),
        forall|k: Seq<char>|
            #[trigger] total_owned(final(inventory)@, final(adventurers)@, k) == total_owned(
                old(inventory)@,
                old(adventurers)@,
                k,
            ),
{
    let target = if equip_slot == 0 {
        ItemCategory::Weapon
    } else if equip_slot == 1 {
        ItemCategory::Armor
    } else if equip_slot == 2 {
        ItemCategory::Accessory
    } else {
        return;
    };
    let ghost advs0 = adventurers@;
    let held: Option<ItemId> = if adv_idx < adventurers.len() {
        let a = &adventurers[adv_idx];
        if equip_slot == 0 {
            a.equipment.weapon.clone()
        } else if equip_slot == 1 {
            a.equipment.armor.clone()
        } else {
            a.equipment.accessory.clone()
        }
    } else {
        None
    };
    assert(held == held_gear(advs0, adv_idx as int, equip_slot as int));
    unequip_slot(inventory, adventurers, adv_idx, equip_slot);
    let ghost inv1 = inventory@;
    let ghost advs1 = adventurers@;
    let compatible = choices(inventory, registry, target);
    if compatible.len() == 0 {
        return;
    }
    let mut pick: usize = 0;
    if let Some(h) = &held {
        let mut i: usize = 0;
        while i < compatible.len()
            invariant_except_break
                i <= compatible@.len(),
                compatible@.len() > 0,
                pick == 0,
                forall|l: int| 0 <= l < i ==> compatible@[l]@ == h@,
            ensures
                pick < compatible@.len(),
                compatible@[pick as int]@ != h@ || forall|l: int| 0 <= l < compatible@.len() ==> compatible@[l]@ == h@,
            decreases compatible.len() - i,
        {
            if compatible[i] != *h {
                pick = i;
                break;
            }
            i += 1;
        }
    }
    let next_id = compatible[pick].clone();
    proof {
        assert(is_compatible(inv1, *registry, slot_category(equip_slot as int), next_id@));
        assert(unequip_fits(inv1, advs1, adv_idx as int, equip_slot as int));
        if exists|k: Seq<char>|
            is_compatible(inv1, *registry, slot_category(equip_slot as int), k) && !is_held(held, k) {
            let k = choose|k: Seq<char>|
                is_compatible(inv1, *registry, slot_category(equip_slot as int), k) && !is_held(held, k);
            let i = choose|i: int| 0 <= i < compatible@.len() && #[trigger] compatible@[i]@ == k;
            assert(!is_held(held, next_id@));
        }
    }
    equip_item_from_picker(inventory, adventurers, adv_idx, equip_slot, &next_id);
    proof {
        assert((inventory@, adventurers@) == equipped_state(inv1, advs1, adv_idx as int, equip_slot as int, next_id));
    }
}

/// What `cycle_consumable` does, the inventory holding `entries` before:
/// with a consumable held and the adventurer present, the slot's item goes
/// back and the next consumable in inventory order (wrapping around) takes
/// its place; otherwise nothing changes.
pub open spec fn consumable_cycled(
    entries: Seq<(ItemId, u32)>,
    inv0: Map<Seq<char>, u32>,
    advs0: Seq<Adventurer>,
    inv1: Map<Seq<char>, u32>,
    advs1: Seq<Adventurer>,
    registry: ItemRegistry,
    adv_idx: int,
    slot: int,
) -> bool {
    let choices = choices_in(entries, registry, ItemCategory::Consumable);
    let cur = padded_slot(advs0, adv_idx, slot);
    let next = next_choice(choices, cur);
    if choices.len() == 0 || adv_idx >= advs0.len() {
        inv1 == inv0 && advs1 == advs0
    } else {
        &&& inv1 == after_remove(returned(inv0, cur), next@, 1)
        &&& slots_replaced(advs0, advs1, adv_idx, padded_with(advs0, adv_idx, slot, Some(next)))
    }
}

/// Cycle consumable slot `slot` of adventurer `adv_idx` to the next
/// consumable held (in inventory order, wrapping around), returning the
/// item it held to the inventory. Nothing happens when no consumable is
/// held or there is no such adventurer. A slot number past the (padded)
/// slots still takes one copy of the chosen item out of the inventory.
pub fn cycle_consumable(
    inventory: &mut Inventory,
    adventurers: &mut Vec<Adventurer>,
    registry: &ItemRegistry,
    adv_idx: usize,
    slot: usize,
)
    requires
        return_fits(old(inventory)@, padded_slot(old(adventurers)@, adv_idx as int, slot as int)),
    ensures
        consumable_cycled(
            old(inventory).entries(),
            old(inventory)@,
            old(adventurers)@,
            final(inventory)@,
            final(adventurers)@,
            *registry,
            adv_idx as int,
            slot as int,
        ),
        slot < padded_slots(old(adventurers)@[adv_idx as int].consumables@).len() ==> forall|k: Seq<char>|
            #[trigger] total_owned(final(inventory)@, final(adventurers)@, k) == total_owned(
                old(inventory)@,
                old(adventurers)@,
                k,
            ),
{
    let ghost inv0 = inventory@;
    let ghost advs0 = adventurers@;
    let compatible = choices(inventory, registry, ItemCategory::Consumable);
    if compatible.len() == 0 {
        return;
    }
    if adv_idx >= adventurers.len() {
        return;
    }
    let mut adv = adventurers.remove(adv_idx);
    adv.init_consumable_slots();
    let ghost padded = adv.consumables@;
    let current: Option<ItemId> = if slot < adv.consumables.len() {
        match &adv.consumables[slot] {
            Some(id) => Some(id.clone()),
            None => None,
        }
    } else {
        None
    };
    proof {
        assert(current == padded_slot(advs0, adv_idx as int, slot as int));
    }
    let next_id = match &current {
        None => compatible[0].clone(),
        Some(curr) => {
            let mut pos: usize = 0;
            let mut found = false;
            proof {
                lemma_id_index(compatible@, curr@);
            }
            while pos < compatible.len()
                invariant_except_break
                    pos <= compatible@.len(),
                    !found,
                    forall|l: int| 0 <= l < pos ==> compatible@[l]@ != curr@,
                    -1 <= id_index(compatible@, curr@) < compatible@.len(),
                    id_index(compatible@, curr@) >= 0 ==> compatible@[id_index(compatible@, curr@)]@ == curr@,
                ensures
                    found ==> pos < compatible@.len() && pos as int == id_index(compatible@, curr@),
                    !found ==> id_index(compatible@, curr@) == -1,
                decreases compatible.len() - pos,
            {
                if compatible[pos] == *curr {
                    found = true;
                    proof {
                        lemma_id_index(compatible@, curr@);
                        let r = id_index(compatible@, curr@);
                        if r > pos {
                            assert(compatible@[pos as int]@ == curr@);
                        }
                    }
                    break;
                }
                pos += 1;
            }
            proof {
                lemma_id_index(compatible@, curr@);
            }
            if found {
                compatible[(pos + 1) % compatible.len()].clone()
            } else {
                compatible[0].clone()
            }
        },
    };
    proof {
        assert(next_id == next_choice(compatible@, current));
        let choices_seq = compatible@;
        let p = id_index(choices_seq, if current is Some { current->0@ } else { Seq::empty() });
        assert(exists|i: int| 0 <= i < compatible@.len() && compatible@[i] == next_id);
    }
    adventurers.insert(adv_idx, adv);
    let ghost advs1 = adventurers@;
    if let Some(prev) = current {
        inventory.add(&prev, 1);
    }
    let ghost inv1 = inventory@;
    proof {
        assert(inv1 == returned(inv0, current));
        let i = choose|i: int| 0 <= i < compatible@.len() && compatible@[i] == next_id;
        assert(is_compatible(inv0, *registry, ItemCategory::Consumable, compatible@[i]@));
        assert(count_of(inv1, next_id@) >= 1);
    }
    if !inventory.remove(&next_id, 1) {
        return;
    }
    let mut adv = adventurers.remove(adv_idx);
    let ghost next_ghost = next_id;
    if slot < adv.consumables.len() {
        adv.consumables.set(slot, Some(next_id));
    }
    adventurers.insert(adv_idx, adv);
    proof {
        let slots = padded_with(advs0, adv_idx as int, slot as int, Some(next_ghost));
        assert(slots_replaced(advs0, adventurers@, adv_idx as int, slots));
        if slot < padded.len() {
            assert forall|k: Seq<char>|
                #[trigger] total_owned(inventory@, adventurers@, k) == total_owned(inv0, advs0, k) by {
                lemma_slots_replaced(advs0, adventurers@, adv_idx as int, slots, k);
                lemma_slots_padded(advs0[adv_idx as int].consumables@, k);
                lemma_slots_update(padded, slot as int, Some(next_ghost), k);
                lemma_removed_counts(inv1, next_ghost@, k);
            }
        }
    }
}

// ── Picker lists ──────────────────────────────────────────────────────────

/// Lexicographic order on character strings, by code point (the order of
/// their UTF-8 bytes).
pub open spec fn text_le(a: Seq<char>, b: Seq<char>) -> bool
    decreases a.len(),
{
    if a.len() == 0 {
        true
    } else if b.len() == 0 {
        false
    } else if (a[0] as u32) < (b[0] as u32) {
        true
    } else if (a[0] as u32) > (b[0] as u32) {
        false
    } else {
        text_le(a.drop_first(), b.drop_first())
    }
}

proof fn lemma_text_le_total(a: Seq<char>, b: Seq<char>)
    ensures
        text_le(a, b) || text_le(b, a),
    decreases a.len(),
{
    if a.len() > 0 && b.len() > 0 && (a[0] as u32) == (b[0] as u32) {
        lemma_text_le_total(a.drop_first(), b.drop_first());
    }
}

proof fn lemma_text_le_trans(a: Seq<char>, b: Seq<char>, c: Seq<char>)
    requires
        text_le(a, b),
        text_le(b, c),
    ensures
        text_le(a, c),
    decreases a.len(),
{
    if a.len() > 0 && b.len() > 0 && c.len() > 0 && (a[0] as u32) == (b[0] as u32) && (b[0] as u32) == (c[0] as u32) {
        lemma_text_le_trans(a.drop_first(), b.drop_first(), c.drop_first());
    }
}

/// Whether `a` comes no later than `b` in code-point order.
fn string_le(a: &String, b: &String) -> (le: bool)
    ensures
        le == text_le(a@, b@),
{
    let x = a.as_str();
    let y = b.as_str();
    let n = x.unicode_len();
    let m = y.unicode_len();
    let mut i: usize = 0;
    assert(a@.skip(0) =~= a@);
    assert(b@.skip(0) =~= b@);
    while i < n
        invariant
            n == a@.len(),
            m == b@.len(),
            i <= n,
            x@ == a@,
            y@ == b@,
            text_le(a@, b@) == text_le(a@.skip(i as int), b@.skip(i as int)),
            i <= m,
        decreases n - i,
    {
        let ghost sa = a@.skip(i as int);
        let ghost sb = b@.skip(i as int);
        if i >= m {
            return false;
        }
        let c = x.get_char(i);
        let d = y.get_char(i);
        proof {
            assert(sa[0] == c);
            assert(sb[0] == d);
        }
        if (c as u32) < (d as u32) {
            return true;
        }
        if (c as u32) > (d as u32) {
            return false;
        }
        proof {
            assert(sa.drop_first() =~= a@.skip(i + 1));
            assert(sb.drop_first() =~= b@.skip(i + 1));
        }
        i += 1;
    }
    true
}

/// The registered name of an item, or the empty name for an unknown item.
pub open spec fn name_key(registry: ItemRegistry, id: Seq<char>) -> Seq<char> {
    match registry.lookup(id) {
        Some(d) => d.name@,
        None => Seq::empty(),
    }
}

/// Whether an item definition carries the tag `consumable`.
pub open spec fn tagged_consumable(d: crate::item::ItemDef) -> bool {
    exists|j: int| 0 <= j < d.tags@.len() && #[trigger] d.tags@[j]@ == "consumable"@
}

/// Whether an item may go into picker slot `slot`: slots 0, 1 and 2 take
/// weapons, armor and accessories; higher slots take items tagged as consumable.
pub open spec fn fits_slot(registry: ItemRegistry, id: Seq<char>, slot: int) -> bool {
    match registry.lookup(id) {
        Some(d) => if slot <= 2 {
            d.category == slot_category(slot)
        } else {
            tagged_consumable(d)
        },
        None => false,
    }
}

/// The entries with a positive quantity of an item fitting picker slot `slot`, in entry order.
pub open spec fn slot_entries(entries: Seq<(ItemId, u32)>, registry: ItemRegistry, slot: int) -> Seq<(ItemId, u32)>
    decreases entries.len(),
{
    if entries.len() == 0 {
        Seq::empty()
    } else {
        let rest = slot_entries(entries.drop_last(), registry, slot);
        let e = entries.last();
        if e.1 > 0 && fits_slot(registry, e.0@, slot) {
            rest.push(e)
        } else {
            rest
        }
    }
}

proof fn lemma_slot_entries(entries: Seq<(ItemId, u32)>, registry: ItemRegistry, slot: int)
    requires
        distinct_keys(entries),
    ensures
        distinct_keys(slot_entries(entries, registry, slot)),
        forall|i: int|
            0 <= i < slot_entries(entries, registry, slot).len() ==> entries.contains(
                #[trigger] slot_entries(entries, registry, slot)[i],
            ) && slot_entries(entries, registry, slot)[i].1 > 0 && fits_slot(
                registry,
                slot_entries(entries, registry, slot)[i].0@,
                slot,
            ),
        forall|j: int|
            0 <= j < entries.len() && #[trigger] entries[j].1 > 0 && fits_slot(registry, entries[j].0@, slot)
                ==> slot_entries(entries, registry, slot).contains(entries[j]),
    decreases entries.len(),
{
    if entries.len() > 0 {
        let rest = entries.drop_last();
        let e = entries.last();
        assert(forall|i: int| 0 <= i < rest.len() ==> rest[i] == entries[i]);
        lemma_slot_entries(rest, registry, slot);
        let s0 = slot_entries(rest, registry, slot);
        let s = slot_entries(entries, registry, slot);
        assert forall|i: int| 0 <= i < s0.len() implies entries.contains(#[trigger] s0[i]) by {
            let m = choose|m: int| 0 <= m < rest.len() && rest[m] == s0[i];
            assert(entries[m] == s0[i]);
        }
        if e.1 > 0 && fits_slot(registry, e.0@, slot) {
            assert(s == s0.push(e));
            assert(entries[entries.len() - 1] == e);
            assert forall|i: int| 0 <= i < s0.len() implies #[trigger] s0[i].0@ != e.0@ by {
                let m = choose|m: int| 0 <= m < rest.len() && rest[m] == s0[i];
                assert(entries[m] == s0[i]);
            }
            assert forall|a: int, b: int|
                0 <= a < s.len() && 0 <= b < s.len() && a != b implies s[a].0@ != s[b].0@ by {
                if a < s0.len() && b < s0.len() {
                    assert(s[a] == s0[a] && s[b] == s0[b]);
                } else if a < s0.len() {
                    assert(s[a] == s0[a]);
                } else {
                    assert(s[b] == s0[b]);
                }
            }
            assert forall|i: int| 0 <= i < s.len() implies entries.contains(#[trigger] s[i]) by {
                if i < s0.len() {
                    assert(s[i] == s0[i]);
                }
            }
            assert forall|j: int|
                0 <= j < entries.len() && #[trigger] entries[j].1 > 0 && fits_slot(registry, entries[j].0@, slot)
                    implies s.contains(entries[j]) by {
                if j < rest.len() {
                    let i = choose|i: int| 0 <= i < s0.len() && s0[i] == rest[j];
                    assert(s[i] == entries[j]);
                } else {
                    assert(s[s0.len() as int] == entries[j]);
                }
            }
        } else {
            assert forall|j: int|
                0 <= j < entries.len() && #[trigger] entries[j].1 > 0 && fits_slot(registry, entries[j].0@, slot)
                    implies s.contains(entries[j]) by {
                if j < rest.len() {
                    assert(rest[j] == entries[j]);
                }
            }
        }
    }
}

/// Two lists with the same entries, counted with repetition, where one has
/// distinct item ids: the other has distinct item ids and the same members.
proof fn lemma_same_entries(a: Seq<(ItemId, u32)>, b: Seq<(ItemId, u32)>)
    requires
        a.to_multiset() == b.to_multiset(),
        distinct_keys(b),
    ensures
        distinct_keys(a),
        forall|x: (ItemId, u32)| a.contains(x) <==> b.contains(x),
{
    a.to_multiset_ensures();
    b.to_multiset_ensures();
    assert forall|x: (ItemId, u32)| a.contains(x) <==> b.contains(x) by {
        assert(a.to_multiset().count(x) == b.to_multiset().count(x));
        assert(a.contains(x) <==> a.to_multiset().count(x) > 0);
        assert(b.contains(x) <==> b.to_multiset().count(x) > 0);
    }
    assert(b.no_duplicates());
    b.lemma_multiset_has_no_duplicates();
    a.lemma_multiset_has_no_duplicates_conv();
    assert forall|i: int, j: int| 0 <= i < a.len() && 0 <= j < a.len() && i != j implies a[i].0@ != a[j].0@ by {
        assert(a.contains(a[i]) && a.contains(a[j]));
        assert(b.contains(a[i]) && b.contains(a[j]));
        let bi = choose|m: int| 0 <= m < b.len() && b[m] == a[i];
        let bj = choose|m: int| 0 <= m < b.len() && b[m] == a[j];
        assert(a[i] != a[j]);
        assert(bi != bj);
    }
}

/// Whether a list of entries is ordered by the registered names of its items.
pub open spec fn sorted_by_name(s: Seq<(ItemId, u32)>, registry: ItemRegistry) -> bool {
    forall|i: int, j: int| 0 <= i < j < s.len() ==> text_le(name_key(registry, s[i].0@), name_key(registry, s[j].0@))
}

fn has_consumable_tag(def: &crate::item::ItemDef) -> (b: bool)
    ensures
        b == tagged_consumable(*def),
{
    let mut j: usize = 0;
    while j < def.tags.len()
        invariant
            j <= def.tags@.len(),
            forall|l: int| 0 <= l < j ==> def.tags@[l]@ != "consumable"@,
        decreases def.tags.len() - j,
    {
        if crate::ui::str_eq(def.tags[j].as_str(), "consumable") {
            return true;
        }
        j += 1;
    }
    false
}

fn name_of(registry: &ItemRegistry, id: &ItemId) -> (name: String)
    ensures
        name@ == name_key(*registry, id@),
{
    match registry.get(id) {
        Some(def) => def.name.clone(),
        None => String::new(),
    }
}

/// Inventory items that fit picker slot `slot` (0 weapon, 1 armor,
/// 2 accessory, higher: consumables), with their quantities, ordered by name.
pub fn compatible_items_for_slot(inventory: &Inventory, registry: &ItemRegistry, slot: usize) -> (items: Vec<(ItemId, u32)>)
    ensures
        items@.to_multiset() == slot_entries(inventory.entries(), *registry, slot as int).to_multiset(),
        sorted_by_name(items@, *registry),
        distinct_keys(items@),
        forall|i: int|
            0 <= i < items@.len() ==> inventory@.contains_key(#[trigger] items@[i].0@) && inventory@[items@[i].0@]
                == items@[i].1 && items@[i].1 > 0 && fits_slot(*registry, items@[i].0@, slot as int),
        forall|k: Seq<char>|
            inventory@.contains_key(k) && inventory@[k] > 0 && fits_slot(*registry, k, slot as int) ==> exists|i: int|
                0 <= i < items@.len() && #[trigger] items@[i].0@ == k,
{
    let entries = inventory.items();
    let mut filtered: Vec<(ItemId, u32)> = Vec::new();
    let mut i: usize = 0;
    while i < entries.len()
        invariant
            i <= entries@.len(),
            entries@ == inventory.entries(),
            filtered@ == slot_entries(entries@.take(i as int), *registry, slot as int),
        decreases entries.len() - i,
    {
        proof {
            let t = entries@.take(i + 1);
            assert(t.drop_last() =~= entries@.take(i as int));
            assert(t.last() == entries@[i as int]);
        }
        if entries[i].1 > 0 {
            let fits = match registry.get(&entries[i].0) {
                Some(def) => if slot <= 2 {
                    let target = if slot == 0 {
                        ItemCategory::Weapon
                    } else if slot == 1 {
                        ItemCategory::Armor
                    } else {
                        ItemCategory::Accessory
                    };
                    def.category == target
                } else {
                    has_consumable_tag(def)
                },
                None => false,
            };
            if fits {
                filtered.push((entries[i].0.clone(), entries[i].1));
            }
        }
        i += 1;
    }
    assert(entries@.take(entries@.len() as int) =~= entries@);

    // Stable insertion sort by name.
    let mut sorted: Vec<(ItemId, u32)> = Vec::new();
    let mut k: usize = 0;
    assert(sorted@ =~= filtered@.take(0));
    while k < filtered.len()
        invariant
            k <= filtered@.len(),
            sorted@.to_multiset() == filtered@.take(k as int).to_multiset(),
            sorted_by_name(sorted@, *registry),
        decreases filtered.len() - k,
    {
        let item = (filtered[k].0.clone(), filtered[k].1);
        let key = name_of(registry, &item.0);
        let mut p: usize = 0;
        while p < sorted.len()
            invariant_except_break
                p <= sorted@.len(),
                forall|l: int| 0 <= l < p ==> text_le(name_key(*registry, sorted@[l].0@), key@),
            ensures
                p <= sorted@.len(),
                forall|l: int| 0 <= l < p ==> text_le(name_key(*registry, sorted@[l].0@), key@),
                p < sorted@.len() ==> !text_le(name_key(*registry, sorted@[p as int].0@), key@),
            decreases sorted.len() - p,
        {
            let other = name_of(registry, &sorted[p].0);
            if !string_le(&other, &key) {
                break;
            }
            p += 1;
        }
        let ghost before = sorted@;
        sorted.insert(p, item);
        proof {
            assert(sorted@ == before.insert(p as int, item));
            vstd::seq_lib::to_multiset_insert(before, p as int, item);
            let t = filtered@.take(k + 1);
            assert(t.drop_last() =~= filtered@.take(k as int));
            assert(t == filtered@.take(k as int).push(filtered@[k as int]));
            vstd::seq_lib::to_multiset_build(filtered@.take(k as int), filtered@[k as int]);
            assert(item == filtered@[k as int]);
            assert forall|a: int, b: int| 0 <= a < b < sorted@.len() implies text_le(
                name_key(*registry, sorted@[a].0@),
                name_key(*registry, sorted@[b].0@),
            ) by {
                let ka = name_key(*registry, sorted@[a].0@);
                let kb = name_key(*registry, sorted@[b].0@);
                if b < p {
                    assert(sorted@[a] == before[a] && sorted@[b] == before[b]);
                } else if b == p {
                    assert(sorted@[a] == before[a]);
                } else if a < p {
                    assert(sorted@[a] == before[a] && sorted@[b] == before[b - 1]);
                    assert(p < before.len());
                    let kp = name_key(*registry, before[p as int].0@);
                    lemma_text_le_total(kp, key@);
                    if b - 1 > p {
                        lemma_text_le_trans(key@, kp, kb);
                    }
                    lemma_text_le_trans(ka, key@, kb);
                } else if a == p {
                    assert(sorted@[b] == before[b - 1]);
                    let kp = name_key(*registry, before[p as int].0@);
                    lemma_text_le_total(kp, key@);
                    if b - 1 > p {
                        lemma_text_le_trans(key@, kp, kb);
                    }
                } else {
                    assert(sorted@[a] == before[a - 1] && sorted@[b] == before[b - 1]);
                }
            }
        }
        k += 1;
    }
    assert(filtered@.take(filtered@.len() as int) =~= filtered@);
    proof {
        let es = entries@;
        lemma_slot_entries(es, *registry, slot as int);
        lemma_same_entries(sorted@, filtered@);
        assert forall|i: int| 0 <= i < sorted@.len() implies inventory@.contains_key(#[trigger] sorted@[i].0@)
            && inventory@[sorted@[i].0@] == sorted@[i].1 && sorted@[i].1 > 0 && fits_slot(
            *registry,
            sorted@[i].0@,
            slot as int,
        ) by {
            assert(sorted@.contains(sorted@[i]));
            let f = choose|f: int| 0 <= f < filtered@.len() && filtered@[f] == sorted@[i];
            assert(es.contains(filtered@[f]));
            let m = choose|m: int| 0 <= m < es.len() && es[m] == filtered@[f];
            crate::inventory::lemma_entry(es, m);
        }
        assert forall|k: Seq<char>|
            inventory@.contains_key(k) && inventory@[k] > 0 && fits_slot(*registry, k, slot as int) implies exists|i: int|
                0 <= i < sorted@.len() && #[trigger] sorted@[i].0@ == k by {
            assert(has_key(es, k));
            let m = choose|m: int| 0 <= m < es.len() && #[trigger] es[m].0@ == k;
            crate::inventory::lemma_entry(es, m);
            assert(es[m].1 > 0);
            assert(filtered@.contains(es[m]));
            let i = choose|i: int| 0 <= i < sorted@.len() && sorted@[i] == es[m];
            assert(sorted@[i].0@ == k);
        }
    }
    sorted
}

} // verus!
