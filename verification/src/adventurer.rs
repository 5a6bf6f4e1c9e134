use vstd::prelude::*;

use crate::item::{GearStats, ItemId, ItemRegistry};
use crate::time::Timestamp;

verus! {

// ── Constants ────────────────────────────────────────────────────────────

pub const MAX_LEVEL: u32 = 20;

pub const CONSUMABLE_SLOTS: usize = 4;

// ── XP table ─────────────────────────────────────────────────────────────

/// XP needed to climb out of each level: entry `i` is what it takes to go
/// from level `i` to level `i + 1` (entry 0 is level 1 itself, 0 XP).
/// The curve starts at 100 and grows about 1.35× per level.
pub open spec fn xp_table() -> Seq<u32> {
    seq![
        0, 100, 135, 182, 246, 332, 448, 605, 817, 1_103, 1_489, 2_010, 2_714, 3_664, 4_946,
        6_677, 9_014, 12_169, 16_428, 22_178,
    ]
}

/// Sum of the first `n` entries of the XP table.
pub open spec fn xp_sum(n: nat) -> int
    decreases n,
{
    if n == 0 || n > 20 {
        0
    } else {
        xp_sum((n - 1) as nat) + xp_table()[n - 1]
    }
}

/// Total XP at which `level` begins: level 1 at 0 XP, level 2 at 100, level 3
/// at 235, …; levels past the cap share the floor of the top level.
pub open spec fn level_floor(level: u32) -> int {
    if level <= 1 {
        0
    } else if level >= MAX_LEVEL {
        xp_sum(20)
    } else {
        xp_sum(level as nat)
    }
}

/// Scans levels upward from `lvl` for the first whose next floor lies above `xp`.
pub open spec fn level_scan(xp: u32, lvl: nat) -> u32
    decreases 20 - lvl,
{
    if lvl >= 20 {
        MAX_LEVEL
    } else if xp < xp_sum(lvl + 1) {
        lvl as u32
    } else {
        level_scan(xp, lvl + 1)
    }
}

/// The level an adventurer holding `xp` total experience has reached.
pub open spec fn level_for(xp: u32) -> u32 {
    level_scan(xp, 1)
}

proof fn lemma_xp_sum_values()
    ensures
        xp_sum(0) == 0,
        xp_sum(1) == 0,
        xp_sum(2) == 100,
        xp_sum(20) == 85_257,
        forall|n: nat| n < 20 ==> #[trigger] xp_sum(n + 1) == xp_sum(n) + xp_table()[n as int],
{
    reveal_with_fuel(xp_sum, 21);
    assert(xp_sum(20) == 85_257);
    assert forall|n: nat| n < 20 implies #[trigger] xp_sum(n + 1) == xp_sum(n) + xp_table()[n as int] by {
        assert(xp_sum(n + 1) == xp_sum(((n + 1) - 1) as nat) + xp_table()[(n + 1) - 1]);
    }
}

proof fn lemma_xp_table_positive()
    ensures
        forall|i: int| 1 <= i < 20 ==> #[trigger] xp_table()[i] > 0,
        xp_table().len() == 20,
{
}

/// Floors grow strictly from level 1 to the cap.
proof fn lemma_xp_sum_strict(a: nat, b: nat)
    requires
        1 <= a < b <= 20,
    ensures
        xp_sum(a) < xp_sum(b),
        0 <= xp_sum(a),
        xp_sum(b) <= 85_257,
    decreases b - a,
{
    lemma_xp_sum_values();
    lemma_xp_table_positive();
    if b == a + 1 {
        assert(xp_sum(b) == xp_sum(a) + xp_table()[a as int]);
        lemma_xp_sum_range(a);
        lemma_xp_sum_range(b);
    } else {
        lemma_xp_sum_strict(a, (b - 1) as nat);
        assert(xp_sum(b) == xp_sum((b - 1) as nat) + xp_table()[b - 1]);
        lemma_xp_sum_range(b);
    }
}

/// Every partial sum lies between 0 and the full total.
proof fn lemma_xp_sum_range(n: nat)
    requires
        n <= 20,
    ensures
        0 <= xp_sum(n) <= 85_257,
    decreases 20 - n,
{
    lemma_xp_sum_values();
    if n < 20 {
        lemma_xp_sum_range(n + 1);
        assert(xp_sum(n + 1) == xp_sum(n) + xp_table()[n as int]);
        lemma_xp_sum_nonneg(n);
    }
}

proof fn lemma_xp_sum_nonneg(n: nat)
    ensures
        0 <= xp_sum(n),
    decreases n,
{
    if n > 0 && n <= 20 {
        lemma_xp_sum_nonneg((n - 1) as nat);
    }
}

/// Characterises `level_scan`: it lands on a level whose floor is at most
/// `xp` and whose next floor (below the cap) lies above it.
proof fn lemma_level_scan(xp: u32, lvl: nat)
    requires
        1 <= lvl <= 20,
        xp_sum(lvl) <= xp,
    ensures
        lvl <= level_scan(xp, lvl) <= 20,
        xp_sum(level_scan(xp, lvl) as nat) <= xp,
        level_scan(xp, lvl) < 20 ==> xp < xp_sum(level_scan(xp, lvl) as nat + 1),
    decreases 20 - lvl,
{
    if lvl < 20 && xp >= xp_sum(lvl + 1) {
        lemma_level_scan(xp, lvl + 1);
    }
}

/// The level reached with `xp` experience is the one whose floor is at most
/// `xp` while the next level's floor lies above it.
pub proof fn lemma_level_for_bounds(xp: u32)
    ensures
        1 <= level_for(xp) <= MAX_LEVEL,
        level_floor(level_for(xp)) <= xp,
        level_for(xp) < MAX_LEVEL ==> xp < level_floor((level_for(xp) + 1) as u32),
{
    lemma_xp_sum_values();
    lemma_level_scan(xp, 1);
}

/// Holding exactly the XP floor of a level puts an adventurer at that level.
pub proof fn lemma_level_of_floor(level: u32)
    requires
        1 <= level <= MAX_LEVEL,
    ensures
        level_for(level_floor(level) as u32) == level,
{
    lemma_xp_sum_values();
    lemma_xp_sum_range(level as nat);
    let xp = level_floor(level) as u32;
    assert(xp == xp_sum(level as nat));
    lemma_level_for_bounds(xp);
    let l = level_for(xp);
    if l < level {
        lemma_xp_sum_strict((l + 1) as nat, level as nat);
        if l + 1 < level {
            lemma_xp_sum_strict((l + 1) as nat, level as nat);
        }
    } else if l > level {
        lemma_xp_sum_strict(level as nat, l as nat);
    }
}

/// More experience never means a lower level.
pub proof fn lemma_level_for_monotone(a: u32, b: u32)
    requires
        a <= b,
    ensures
        level_for(a) <= level_for(b),
{
    lemma_level_for_bounds(a);
    lemma_level_for_bounds(b);
    lemma_xp_sum_values();
    let la = level_for(a);
    let lb = level_for(b);
    if lb < la {
        // b < floor(lb + 1) <= floor(la) <= a, a contradiction.
        if lb + 1 < la {
            lemma_xp_sum_strict((lb + 1) as nat, la as nat);
        }
        assert(level_floor((lb + 1) as u32) <= level_floor(la));
    }
}

/// One entry of the XP table.
fn xp_table_entry(index: usize) -> (xp: u32)
    requires
        index < 20,
    ensures
        xp == xp_table()[index as int],
{
    let table: [u32; 20] = [
        0, 100, 135, 182, 246, 332, 448, 605, 817, 1_103, 1_489, 2_010, 2_714, 3_664, 4_946,
        6_677, 9_014, 12_169, 16_428, 22_178,
    ];
    assert(table@ =~= xp_table());
    table[index]
}

/// Cumulative XP needed to reach a given level (the "floor" for that level).
/// Level 1 = 0 XP, level 2 = 100 XP, level 3 = 235 XP, and so on.
pub fn xp_for_level(level: u32) -> (xp: u32)
    ensures
        xp == level_floor(level),
{
    if level <= 1 {
        return 0;
    }
    let end: usize = if level >= MAX_LEVEL { 20 } else { level as usize };
    proof {
        lemma_xp_sum_values();
    }
    let mut sum: u32 = 0;
    let mut i: usize = 0;
    while i < end
        invariant
            end <= 20,
            i <= end,
            sum == xp_sum(i as nat),
        decreases end - i,
    {
        proof {
            lemma_xp_sum_range((i + 1) as nat);
            lemma_xp_sum_values();
        }
        sum = sum + xp_table_entry(i);
        i += 1;
    }
    sum
}

/// XP needed to go from `level` to the next one; `None` at the level cap.
pub fn xp_to_next_level(level: u32) -> (needed: Option<u32>)
    ensures
        level >= MAX_LEVEL ==> needed is None,
        level < MAX_LEVEL ==> needed == Some(xp_table()[level as int]),
{
    if level >= MAX_LEVEL {
        return None;
    }
    Some(xp_table_entry(level as usize))
}

/// Given total XP, compute the level (1-based, capped at `MAX_LEVEL`).
pub fn level_from_xp(xp: u32) -> (level: u32)
    ensures
        level == level_for(xp),
{
    proof {
        lemma_xp_sum_values();
    }
    let mut cumulative: u32 = 0;
    let mut lvl: u32 = 1;
    while lvl < MAX_LEVEL
        invariant
            1 <= lvl <= MAX_LEVEL,
            cumulative == xp_sum(lvl as nat),
            level_for(xp) == level_scan(xp, lvl as nat),
        decreases MAX_LEVEL - lvl,
    {
        proof {
            lemma_xp_sum_range((lvl + 1) as nat);
            lemma_xp_sum_values();
        }
        cumulative = cumulative + xp_table_entry(lvl as usize);
        if xp < cumulative {
            return lvl;
        }
        lvl += 1;
    }
    MAX_LEVEL
}

/// XP progress within the current level: (earned since the level's floor,
/// needed for the next level). `None` at the level cap.
pub fn xp_progress(xp: u32, level: u32) -> (p: Option<(u32, u32)>)
    ensures
        level >= MAX_LEVEL ==> p is None,
        level < MAX_LEVEL ==> p == Some((
            (if xp >= level_floor(level) { xp - level_floor(level) } else { 0 }) as u32,
            xp_table()[level as int],
        )),
{
    let needed = match xp_to_next_level(level) {
        Some(n) => n,
        None => return None,
    };
    let floor = xp_for_level(level);
    let progress = xp.saturating_sub(floor);
    Some((progress, needed))
}

/// At a level below the cap, and holding the XP that level implies, the
/// progress within the level is less than what the level requires.
pub proof fn lemma_progress_within_level(xp: u32)
    requires
        level_for(xp) < MAX_LEVEL,
    ensures
        xp - level_floor(level_for(xp)) < xp_table()[level_for(xp) as int],
        xp >= level_floor(level_for(xp)),
{
    lemma_level_for_bounds(xp);
    lemma_xp_sum_values();
    let l = level_for(xp);
    assert(xp_sum((l + 1) as nat) == xp_sum(l as nat) + xp_table()[l as int]);
    if l == 1 {
        assert(level_floor(2) == xp_sum(2));
    }
}


// ── Class ─────────────────────────────────────────────────────────────────

#[derive(Debug, Clone, Copy, PartialEq, Eq, Structural, Hash)]
pub enum AdventurerClass {
    Warrior,
    Rogue,
    Mage,
    Paladin,
    Druid,
}

/// Stat growth per level of each class: (hp, str, dex, int).
pub open spec fn class_growth(c: AdventurerClass) -> (i32, i32, i32, i32) {
    match c {
        AdventurerClass::Warrior => (4, 2, 1, 0),
        AdventurerClass::Rogue => (2, 1, 3, 1),
        AdventurerClass::Mage => (1, 0, 1, 3),
        AdventurerClass::Paladin => (3, 2, 0, 2),
        AdventurerClass::Druid => (2, 1, 1, 2),
    }
}

impl AdventurerClass {
    pub fn label(self) -> (s: &'static str)
        ensures
            s@ == match self {
                AdventurerClass::Warrior => "Warrior"@,
                AdventurerClass::Rogue => "Rogue"@,
                AdventurerClass::Mage => "Mage"@,
                AdventurerClass::Paladin => "Paladin"@,
                AdventurerClass::Druid => "Druid"@,
            },
    {
        match self {
            AdventurerClass::Warrior => "Warrior",
            AdventurerClass::Rogue => "Rogue",
            AdventurerClass::Mage => "Mage",
            AdventurerClass::Paladin => "Paladin",
            AdventurerClass::Druid => "Druid",
        }
    }

    /// Stat growth per level: (hp, str, dex, int).
    /// These are added to base_stats for each level above 1.
    pub fn growth(self) -> (g: (i32, i32, i32, i32))
        ensures
            g == class_growth(self),
    {
        match self {
            AdventurerClass::Warrior => (4, 2, 1, 0),
            AdventurerClass::Rogue => (2, 1, 3, 1),
            AdventurerClass::Mage => (1, 0, 1, 3),
            AdventurerClass::Paladin => (3, 2, 0, 2),
            AdventurerClass::Druid => (2, 1, 1, 2),
        }
    }
}

// ── Status ────────────────────────────────────────────────────────────────

#[derive(Debug, Clone, Copy, PartialEq, Eq, Structural)]
pub enum AdventurerStatus {
    /// Available for a new quest.
    Ready,
    /// Currently in an active adventure.
    OnQuest,
    /// Recovering from injuries until the given timestamp.
    Recovering(Timestamp),
    /// Out of action — needs revival.
    Downed,
}

// ── Stats ─────────────────────────────────────────────────────────────────

#[derive(Debug, Clone, Copy, PartialEq, Eq, Structural)]
pub struct Stats {
    pub max_hp: i32,
    pub strength: i32,
    pub dexterity: i32,
    pub intellect: i32,
}

impl Default for Stats {
    fn default() -> (s: Self)
        ensures
            s == (Stats { max_hp: 0, strength: 0, dexterity: 0, intellect: 0 }),
    {
        Stats { max_hp: 0, strength: 0, dexterity: 0, intellect: 0 }
    }
}

/// Field `f` of a stat block: 0 hp, 1 strength, 2 dexterity, 3 intellect.
pub open spec fn stat_field(s: Stats, f: int) -> int {
    if f == 0 {
        s.max_hp as int
    } else if f == 1 {
        s.strength as int
    } else if f == 2 {
        s.dexterity as int
    } else {
        s.intellect as int
    }
}

/// Field `f` of a gear bonus, numbered as in `stat_field`.
pub open spec fn gear_field(g: GearStats, f: int) -> int {
    if f == 0 {
        g.hp as int
    } else if f == 1 {
        g.strength as int
    } else if f == 2 {
        g.dexterity as int
    } else {
        g.intellect as int
    }
}

/// Per-level growth of field `f` for a class.
pub open spec fn growth_field(c: AdventurerClass, f: int) -> int {
    let g = class_growth(c);
    if f == 0 {
        g.0 as int
    } else if f == 1 {
        g.1 as int
    } else if f == 2 {
        g.2 as int
    } else {
        g.3 as int
    }
}

// ── Equipment ─────────────────────────────────────────────────────────────

#[derive(Debug, Clone, Copy, PartialEq, Eq, Structural)]
pub enum EquipSlot {
    Weapon,
    Armor,
    Accessory,
}

impl EquipSlot {
    pub fn label(self) -> (s: &'static str)
        ensures
            s@ == match self {
                EquipSlot::Weapon => "Weapon"@,
                EquipSlot::Armor => "Armor"@,
                EquipSlot::Accessory => "Accessory"@,
            },
    {
        match self {
            EquipSlot::Weapon => "Weapon",
            EquipSlot::Armor => "Armor",
            EquipSlot::Accessory => "Accessory",
        }
    }
}

#[derive(Debug, Clone)]
pub struct Equipment {
    pub weapon: Option<ItemId>,
    pub armor: Option<ItemId>,
    pub accessory: Option<ItemId>,
}

/// The item ids of an optional slot, as a list of zero or one.
pub open spec fn opt_seq(o: Option<ItemId>) -> Seq<ItemId> {
    match o {
        Some(id) => seq![id],
        None => Seq::empty(),
    }
}

impl Default for Equipment {
    fn default() -> (e: Self)
        ensures
            e.weapon is None,
            e.armor is None,
            e.accessory is None,
    {
        Equipment { weapon: None, armor: None, accessory: None }
    }
}

impl Equipment {
    /// What the slot holds.
    pub open spec fn slot_of(self, slot: EquipSlot) -> Option<ItemId> {
        match slot {
            EquipSlot::Weapon => self.weapon,
            EquipSlot::Armor => self.armor,
            EquipSlot::Accessory => self.accessory,
        }
    }

    /// This equipment with one slot replaced.
    pub open spec fn with_slot(self, slot: EquipSlot, v: Option<ItemId>) -> Equipment {
        match slot {
            EquipSlot::Weapon => Equipment { weapon: v, ..self },
            EquipSlot::Armor => Equipment { armor: v, ..self },
            EquipSlot::Accessory => Equipment { accessory: v, ..self },
        }
    }

    /// Equipped item ids, in slot order weapon, armor, accessory.
    pub open spec fn equipped(self) -> Seq<ItemId> {
        opt_seq(self.weapon) + opt_seq(self.armor) + opt_seq(self.accessory)
    }

    pub fn slot(&self, slot: EquipSlot) -> (r: &Option<ItemId>)
        ensures
            *r == self.slot_of(slot),
    {
        match slot {
            EquipSlot::Weapon => &self.weapon,
            EquipSlot::Armor => &self.armor,
            EquipSlot::Accessory => &self.accessory,
        }
    }

    pub fn slot_mut(&mut self, slot: EquipSlot) -> (r: &mut Option<ItemId>)
        ensures
            *r == old(self).slot_of(slot),
            *final(self) == old(self).with_slot(slot, *final(r)),
    {
        match slot {
            EquipSlot::Weapon => &mut self.weapon,
            EquipSlot::Armor => &mut self.armor,
            EquipSlot::Accessory => &mut self.accessory,
        }
    }

    /// Ids of the equipped items, weapon first, then armor, then accessory.
    pub fn equipped_ids(&self) -> (ids: Vec<&ItemId>)
        ensures
            ids@.map_values(|x: &ItemId| *x) == self.equipped(),
    {
        let mut out: Vec<&ItemId> = Vec::new();
        if let Some(id) = &self.weapon {
            out.push(id);
        }
        if let Some(id) = &self.armor {
            out.push(id);
        }
        if let Some(id) = &self.accessory {
            out.push(id);
        }
        assert(out@.map_values(|x: &ItemId| *x) =~= self.equipped());
        out
    }
}


// ── Adventurer ────────────────────────────────────────────────────────────

#[derive(Debug, Clone)]
pub struct Adventurer {
    pub id: String,
    pub name: String,
    pub class: AdventurerClass,
    pub level: u32,
    pub xp: u32,
    pub base_stats: Stats,
    pub equipment: Equipment,
    pub consumables: Vec<Option<ItemId>>,
    pub status: AdventurerStatus,
}

/// Levels gained above level 1, as the game counts them in an `i32`.
pub open spec fn levels_gained(level: u32) -> i32 {
    (if level >= 1 { level - 1 } else { 0 }) as i32
}

/// Gear bonuses the registry grants for a list of item ids, in list order;
/// unknown items and items without gear stats contribute nothing.
pub open spec fn gear_bonuses(registry: ItemRegistry, ids: Seq<ItemId>) -> Seq<GearStats>
    decreases ids.len(),
{
    if ids.len() == 0 {
        Seq::empty()
    } else {
        let rest = gear_bonuses(registry, ids.drop_last());
        match registry.lookup(ids.last()@) {
            Some(def) => match def.properties.gear_stats {
                Some(g) => rest.push(g),
                None => rest,
            },
            None => rest,
        }
    }
}

/// Sum of field `f` over a list of gear bonuses.
pub open spec fn bonus_sum(bonuses: Seq<GearStats>, f: int) -> int
    decreases bonuses.len(),
{
    if bonuses.len() == 0 {
        0
    } else {
        bonus_sum(bonuses.drop_last(), f) + gear_field(bonuses.last(), f)
    }
}

/// The gear bonus to field `f` of an equipment slot holding `item`: the
/// registered item's gear stats, or nothing for an empty slot, an unknown
/// item or an item without gear stats.
pub open spec fn slot_bonus(registry: ItemRegistry, item: Option<ItemId>, f: int) -> int {
    match item {
        Some(id) => match registry.lookup(id@) {
            Some(d) => match d.properties.gear_stats {
                Some(g) => gear_field(g, f),
                None => 0,
            },
            None => 0,
        },
        None => 0,
    }
}

proof fn lemma_bonus_append(registry: ItemRegistry, ids: Seq<ItemId>, item: Option<ItemId>, f: int)
    ensures
        bonus_sum(gear_bonuses(registry, ids + opt_seq(item)), f) == bonus_sum(gear_bonuses(registry, ids), f)
            + slot_bonus(registry, item, f),
{
    match item {
        None => {
            assert(ids + opt_seq(item) =~= ids);
        },
        Some(x) => {
            let s = ids + seq![x];
            assert(s.drop_last() =~= ids);
            assert(s.last() == x);
            let before = gear_bonuses(registry, ids);
            match registry.lookup(x@) {
                Some(d) => match d.properties.gear_stats {
                    Some(g) => {
                        assert(gear_bonuses(registry, s) == before.push(g));
                        assert(before.push(g).drop_last() =~= before);
                    },
                    None => {},
                },
                None => {},
            }
        },
    }
}

/// An adventurer's effective stat `f` is its base stat, plus its class
/// growth times the levels gained past the first, plus the gear bonuses of
/// the weapon, the armor and the accessory it wears.
pub proof fn lemma_effective_stats_formula(a: Adventurer, registry: ItemRegistry, f: int)
    requires
        0 <= f < 4,
    ensures
        a.effective_field(registry, f) == stat_field(a.base_stats, f) + growth_field(a.class, f) * levels_gained(
            a.level,
        ) + slot_bonus(registry, a.equipment.weapon, f) + slot_bonus(registry, a.equipment.armor, f) + slot_bonus(
            registry,
            a.equipment.accessory,
            f,
        ),
        1 <= a.level <= 0x8000_0000 ==> levels_gained(a.level) == a.level - 1,
{
    let e = a.equipment;
    let w = opt_seq(e.weapon);
    let ar = opt_seq(e.armor);
    assert(Seq::<ItemId>::empty() + w =~= w);
    lemma_bonus_append(registry, Seq::<ItemId>::empty(), e.weapon, f);
    lemma_bonus_append(registry, w, e.armor, f);
    lemma_bonus_append(registry, w + ar, e.accessory, f);
    assert(e.equipped() == w + ar + opt_seq(e.accessory));
    if 1 <= a.level <= 0x8000_0000 {
        let l = a.level;
        assert(((if l >= 1 { l - 1 } else { 0 }) as i32) == l - 1) by (bit_vector)
            requires
                1 <= l <= 0x8000_0000u32,
        ;
    }
}

/// Wearing an accessory changes each effective stat by exactly its gear
/// bonus, compared with the same adventurer without it.
pub proof fn lemma_accessory_adds_its_bonus(a: Adventurer, registry: ItemRegistry, f: int)
    requires
        0 <= f < 4,
    ensures
        a.effective_field(registry, f) == (Adventurer {
            equipment: Equipment { accessory: None, ..a.equipment },
            ..a
        }).effective_field(registry, f) + slot_bonus(registry, a.equipment.accessory, f),
{
    let b = Adventurer { equipment: Equipment { accessory: None, ..a.equipment }, ..a };
    lemma_effective_stats_formula(a, registry, f);
    lemma_effective_stats_formula(b, registry, f);
}

/// The padding of a consumable list to the slot count with empty slots.
pub open spec fn padded_slots(slots: Seq<Option<ItemId>>) -> Seq<Option<ItemId>> {
    if slots.len() < CONSUMABLE_SLOTS {
        slots + Seq::new((CONSUMABLE_SLOTS - slots.len()) as nat, |i: int| None)
    } else {
        slots
    }
}

/// The item ids in the filled slots of a list, in slot order.
pub open spec fn filled_slots(slots: Seq<Option<ItemId>>) -> Seq<ItemId>
    decreases slots.len(),
{
    if slots.len() == 0 {
        Seq::empty()
    } else {
        let rest = filled_slots(slots.drop_last());
        match slots.last() {
            Some(id) => rest.push(id),
            None => rest,
        }
    }
}

proof fn lemma_filled_take_step(s: Seq<Option<ItemId>>, i: int)
    requires
        0 <= i < s.len(),
    ensures
        filled_slots(s.take(i + 1)) == match s[i] {
            Some(id) => filled_slots(s.take(i)).push(id),
            None => filled_slots(s.take(i)),
        },
{
    assert(s.take(i + 1).drop_last() =~= s.take(i));
    assert(s.take(i + 1).last() == s[i]);
}

proof fn lemma_filled_prefix(s: Seq<Option<ItemId>>, n: int, m: int)
    requires
        0 <= n <= m <= s.len(),
    ensures
        filled_slots(s.take(n)).len() <= filled_slots(s.take(m)).len() <= m,
        forall|j: int| 0 <= j < filled_slots(s.take(n)).len() ==> #[trigger] filled_slots(s.take(n))[j] == filled_slots(s.take(m))[j],
    decreases m - n,
{
    if n < m {
        lemma_filled_prefix(s, n, m - 1);
        lemma_filled_take_step(s, m - 1);
    } else {
        lemma_filled_len(s.take(m));
    }
}

proof fn lemma_filled_len(s: Seq<Option<ItemId>>)
    ensures
        filled_slots(s).len() <= s.len(),
    decreases s.len(),
{
    if s.len() > 0 {
        lemma_filled_len(s.drop_last());
    }
}

/// The filled-slot list holds one id per filled slot, in slot order: it is
/// no longer than the slots, and the id in a filled slot `i` stands at the
/// position that counts the filled slots before `i`.
pub proof fn lemma_filled_slots_in_order(slots: Seq<Option<ItemId>>)
    ensures
        filled_slots(slots).len() <= slots.len(),
        forall|i: int|
            0 <= i < slots.len() && slots[i] is Some ==> filled_slots(slots.take(i)).len() < filled_slots(slots).len()
                && filled_slots(slots)[filled_slots(#[trigger] slots.take(i)).len() as int] == slots[i]->0,
{
    lemma_filled_len(slots);
    assert(slots.take(slots.len() as int) =~= slots);
    assert forall|i: int| 0 <= i < slots.len() && slots[i] is Some implies filled_slots(slots.take(i)).len()
        < filled_slots(slots).len() && filled_slots(slots)[filled_slots(#[trigger] slots.take(i)).len() as int]
        == slots[i]->0 by {
        lemma_filled_take_step(slots, i);
        lemma_filled_prefix(slots, i + 1, slots.len() as int);
        let k = filled_slots(slots.take(i)).len() as int;
        assert(filled_slots(slots.take(i + 1))[k] == slots[i]->0);
    }
}

impl Adventurer {
    /// Field `f` after level growth, before gear.
    pub open spec fn grown_field(self, f: int) -> int {
        stat_field(self.base_stats, f) + growth_field(self.class, f) * levels_gained(self.level)
    }

    /// Field `f` of the combined stats: base, plus level growth, plus the
    /// bonuses of all equipped gear the registry knows.
    pub open spec fn effective_field(self, registry: ItemRegistry, f: int) -> int {
        self.grown_field(f) + bonus_sum(gear_bonuses(registry, self.equipment.equipped()), f)
    }

    /// Every running total that `effective_stats` forms fits in an `i32`:
    /// the growth product, the grown stat, and each sum after adding the
    /// bonus of a further equipped item.
    pub open spec fn effective_stats_fit(self, registry: ItemRegistry) -> bool {
        &&& forall|f: int|
            0 <= f < 4 ==> {
                &&& i32::MIN <= growth_field(self.class, f) * levels_gained(self.level) <= i32::MAX
                &&& i32::MIN <= #[trigger] self.grown_field(f) <= i32::MAX
            }
        &&& forall|f: int, n: int|
            0 <= f < 4 && 0 <= n <= self.equipment.equipped().len() ==> i32::MIN <= self.grown_field(f)
                + #[trigger] bonus_sum(gear_bonuses(registry, self.equipment.equipped().take(n)), f)
                <= i32::MAX
    }

    /// Stats after level growth, before gear: the part of each effective
    /// stat that gear does not give, as the roster's detail panel shows it.
    pub fn grown_stats(&self) -> (s: Stats)
        requires
            forall|f: int|
                0 <= f < 4 ==> {
                    &&& i32::MIN <= growth_field(self.class, f) * levels_gained(self.level) <= i32::MAX
                    &&& i32::MIN <= #[trigger] self.grown_field(f) <= i32::MAX
                },
        ensures
            forall|f: int| 0 <= f < 4 ==> #[trigger] stat_field(s, f) == self.grown_field(f),
    {
        let gained = #[verifier::truncate] (self.level.saturating_sub(1) as i32);
        let (hp_g, str_g, dex_g, int_g) = self.class.growth();
        proof {
            assert(gained == levels_gained(self.level));
            let _ = self.grown_field(0);
            let _ = self.grown_field(1);
            let _ = self.grown_field(2);
            let _ = self.grown_field(3);
        }
        Stats {
            max_hp: self.base_stats.max_hp + hp_g * gained,
            strength: self.base_stats.strength + str_g * gained,
            dexterity: self.base_stats.dexterity + dex_g * gained,
            intellect: self.base_stats.intellect + int_g * gained,
        }
    }

    /// Combine base stats with level growth and equipped gear bonuses.
    pub fn effective_stats(&self, registry: &ItemRegistry) -> (s: Stats)
        requires
            self.effective_stats_fit(*registry),
        ensures
            forall|f: int| 0 <= f < 4 ==> #[trigger] stat_field(s, f) == self.effective_field(*registry, f),
            forall|f: int|
                0 <= f < 4 ==> #[trigger] stat_field(s, f) == stat_field(self.base_stats, f) + growth_field(self.class, f)
                    * levels_gained(self.level) + slot_bonus(*registry, self.equipment.weapon, f) + slot_bonus(
                    *registry,
                    self.equipment.armor,
                    f,
                ) + slot_bonus(*registry, self.equipment.accessory, f),
    {
        let ghost ids = self.equipment.equipped();
        proof {
            assert(ids.take(0) =~= Seq::<ItemId>::empty());
            assert(ids.take(ids.len() as int) =~= ids);
            assert(self.effective_stats_fit(*registry));
        }
        let gained = #[verifier::truncate] (self.level.saturating_sub(1) as i32);
        let (hp_g, str_g, dex_g, int_g) = self.class.growth();
        proof {
            assert(gained == levels_gained(self.level));
            let _ = self.grown_field(0);
            let _ = self.grown_field(1);
            let _ = self.grown_field(2);
            let _ = self.grown_field(3);
        }
        let mut s = Stats {
            max_hp: self.base_stats.max_hp + hp_g * gained,
            strength: self.base_stats.strength + str_g * gained,
            dexterity: self.base_stats.dexterity + dex_g * gained,
            intellect: self.base_stats.intellect + int_g * gained,
        };
        let equipped = self.equipment.equipped_ids();
        proof {
            assert(equipped@.len() == ids.len());
            assert forall|j: int| 0 <= j < ids.len() implies *equipped@[j] == ids[j] by {
                assert(equipped@.map_values(|x: &ItemId| *x)[j] == ids[j]);
            }
        }
        let mut j: usize = 0;
        while j < equipped.len()
            invariant
                j <= equipped@.len(),
                equipped@.len() == ids.len(),
                ids == self.equipment.equipped(),
                forall|k: int| 0 <= k < ids.len() ==> *equipped@[k] == ids[k],
                self.effective_stats_fit(*registry),
                forall|f: int|
                    0 <= f < 4 ==> #[trigger] stat_field(s, f) == self.grown_field(f) + bonus_sum(
                        gear_bonuses(*registry, ids.take(j as int)),
                        f,
                    ),
            decreases equipped.len() - j,
        {
            let ghost before = gear_bonuses(*registry, ids.take(j as int));
            proof {
                assert(ids.take(j + 1).drop_last() =~= ids.take(j as int));
                assert(ids.take(j + 1).last() == ids[j as int]);
                let _ = gear_bonuses(*registry, ids.take(j + 1));
                let _ = self.grown_field(0);
                let _ = self.grown_field(1);
                let _ = self.grown_field(2);
                let _ = self.grown_field(3);
            }
            if let Some(def) = registry.get(equipped[j]) {
                if let Some(g) = &def.properties.gear_stats {
                    proof {
                        assert(gear_bonuses(*registry, ids.take(j + 1)) == before.push(*g));
                        assert(before.push(*g).drop_last() =~= before);
                        let after = before.push(*g);
                        assert(bonus_sum(after, 0) == bonus_sum(before, 0) + g.hp);
                        assert(bonus_sum(after, 1) == bonus_sum(before, 1) + g.strength);
                        assert(bonus_sum(after, 2) == bonus_sum(before, 2) + g.dexterity);
                        assert(bonus_sum(after, 3) == bonus_sum(before, 3) + g.intellect);
                        assert(stat_field(s, 0) == s.max_hp);
                        assert(stat_field(s, 1) == s.strength);
                        assert(stat_field(s, 2) == s.dexterity);
                        assert(stat_field(s, 3) == s.intellect);
                        assert(bonus_sum(gear_bonuses(*registry, self.equipment.equipped().take(j + 1)), 0) == bonus_sum(after, 0));
                        assert(bonus_sum(gear_bonuses(*registry, self.equipment.equipped().take(j + 1)), 1) == bonus_sum(after, 1));
                        assert(bonus_sum(gear_bonuses(*registry, self.equipment.equipped().take(j + 1)), 2) == bonus_sum(after, 2));
                        assert(bonus_sum(gear_bonuses(*registry, self.equipment.equipped().take(j + 1)), 3) == bonus_sum(after, 3));
                    }
                    s.max_hp = s.max_hp + g.hp;
                    s.strength = s.strength + g.strength;
                    s.dexterity = s.dexterity + g.dexterity;
                    s.intellect = s.intellect + g.intellect;
                }
            }
            j += 1;
        }
        proof {
            assert forall|f: int| 0 <= f < 4 implies self.effective_field(*registry, f) == stat_field(self.base_stats, f)
                + growth_field(self.class, f) * levels_gained(self.level) + slot_bonus(*registry, self.equipment.weapon, f)
                + slot_bonus(*registry, self.equipment.armor, f) + slot_bonus(*registry, self.equipment.accessory, f) by {
                lemma_effective_stats_formula(*self, *registry, f);
            }
            assert(ids.take(j as int) =~= ids);
            assert forall|f: int| 0 <= f < 4 implies #[trigger] stat_field(s, f) == self.effective_field(*registry, f) by {
                assert(stat_field(s, f) == self.grown_field(f) + bonus_sum(gear_bonuses(*registry, ids.take(j as int)), f));
            }
        }
        s
    }

    /// Whether every running total that `effective_stats` forms fits an
    /// `i32` (`effective_stats_fit`).
    pub fn stats_fit(&self, registry: &ItemRegistry) -> (b: bool)
        ensures
            b == self.effective_stats_fit(*registry),
    {
        let ghost ids = self.equipment.equipped();
        let gained = #[verifier::truncate] (self.level.saturating_sub(1) as i32);
        let (hp_g, str_g, dex_g, int_g) = self.class.growth();
        assert(gained == levels_gained(self.level));
        let lg: i64 = gained as i64;
        proof {
            assert(0 <= hp_g <= 4 && 0 <= str_g <= 4 && 0 <= dex_g <= 4 && 0 <= int_g <= 4);
            assert(forall|c: i64| 0 <= c <= 4 ==> -0x2_0000_0000i64 <= #[trigger] (c * lg) <= 0x2_0000_0000i64)
                by (nonlinear_arith)
                requires
                    -0x8000_0000i64 <= lg <= 0x7fff_ffffi64,
            ;
        }
        let gh: i64 = hp_g as i64 * lg;
        let gs: i64 = str_g as i64 * lg;
        let gd: i64 = dex_g as i64 * lg;
        let gi: i64 = int_g as i64 * lg;
        let mut hp: i64 = self.base_stats.max_hp as i64 + gh;
        let mut st: i64 = self.base_stats.strength as i64 + gs;
        let mut dx: i64 = self.base_stats.dexterity as i64 + gd;
        let mut it: i64 = self.base_stats.intellect as i64 + gi;
        proof {
            assert(growth_field(self.class, 0) * levels_gained(self.level) == gh);
            assert(growth_field(self.class, 1) * levels_gained(self.level) == gs);
            assert(growth_field(self.class, 2) * levels_gained(self.level) == gd);
            assert(growth_field(self.class, 3) * levels_gained(self.level) == gi);
            assert(self.grown_field(0) == hp);
            assert(self.grown_field(1) == st);
            assert(self.grown_field(2) == dx);
            assert(self.grown_field(3) == it);
        }
        if !(fits_i32(gh) && fits_i32(gs) && fits_i32(gd) && fits_i32(gi) && fits_i32(hp) && fits_i32(st) && fits_i32(dx)
            && fits_i32(it)) {
            proof {
                let _ = self.grown_field(0);
                let _ = self.grown_field(1);
                let _ = self.grown_field(2);
                let _ = self.grown_field(3);
            }
            return false;
        }
        let equipped = self.equipment.equipped_ids();
        proof {
            assert(equipped@.len() == ids.len());
            assert forall|j: int| 0 <= j < ids.len() implies *equipped@[j] == ids[j] by {
                assert(equipped@.map_values(|x: &ItemId| *x)[j] == ids[j]);
            }
            assert(ids.take(0) =~= Seq::<ItemId>::empty());
        }
        let mut j: usize = 0;
        while j < equipped.len()
            invariant
                j <= equipped@.len(),
                equipped@.len() == ids.len(),
                ids == self.equipment.equipped(),
                forall|k: int| 0 <= k < ids.len() ==> *equipped@[k] == ids[k],
                forall|f: int|
                    0 <= f < 4 ==> {
                        &&& i32::MIN <= growth_field(self.class, f) * levels_gained(self.level) <= i32::MAX
                        &&& i32::MIN <= #[trigger] self.grown_field(f) <= i32::MAX
                    },
                forall|f: int, n: int|
                    0 <= f < 4 && 0 <= n <= j ==> i32::MIN <= self.grown_field(f) + #[trigger] bonus_sum(
                        gear_bonuses(*registry, ids.take(n)),
                        f,
                    ) <= i32::MAX,
                hp == self.grown_field(0) + bonus_sum(gear_bonuses(*registry, ids.take(j as int)), 0),
                st == self.grown_field(1) + bonus_sum(gear_bonuses(*registry, ids.take(j as int)), 1),
                dx == self.grown_field(2) + bonus_sum(gear_bonuses(*registry, ids.take(j as int)), 2),
                it == self.grown_field(3) + bonus_sum(gear_bonuses(*registry, ids.take(j as int)), 3),
            decreases equipped.len() - j,
        {
            let ghost before = gear_bonuses(*registry, ids.take(j as int));
            proof {
                assert(ids.take(j + 1).drop_last() =~= ids.take(j as int));
                assert(ids.take(j + 1).last() == ids[j as int]);
                let _ = gear_bonuses(*registry, ids.take(j + 1));
            }
            if let Some(def) = registry.get(equipped[j]) {
                if let Some(g) = &def.properties.gear_stats {
                    proof {
                        assert(gear_bonuses(*registry, ids.take(j + 1)) == before.push(*g));
                        assert(before.push(*g).drop_last() =~= before);
                        let after = before.push(*g);
                        assert(bonus_sum(after, 0) == bonus_sum(before, 0) + g.hp);
                        assert(bonus_sum(after, 1) == bonus_sum(before, 1) + g.strength);
                        assert(bonus_sum(after, 2) == bonus_sum(before, 2) + g.dexterity);
                        assert(bonus_sum(after, 3) == bonus_sum(before, 3) + g.intellect);
                    }
                    hp = hp + g.hp as i64;
                    st = st + g.strength as i64;
                    dx = dx + g.dexterity as i64;
                    it = it + g.intellect as i64;
                    if !(fits_i32(hp) && fits_i32(st) && fits_i32(dx) && fits_i32(it)) {
                        proof {
                            let _ = bonus_sum(gear_bonuses(*registry, ids.take(j + 1)), 0);
                            let _ = bonus_sum(gear_bonuses(*registry, ids.take(j + 1)), 1);
                            let _ = bonus_sum(gear_bonuses(*registry, ids.take(j + 1)), 2);
                            let _ = bonus_sum(gear_bonuses(*registry, ids.take(j + 1)), 3);
                        }
                        return false;
                    }
                }
            }
            proof {
                assert forall|f: int, n: int|
                    0 <= f < 4 && 0 <= n <= j + 1 implies i32::MIN <= self.grown_field(f) + #[trigger] bonus_sum(
                    gear_bonuses(*registry, ids.take(n)),
                    f,
                ) <= i32::MAX by {
                    if n == j + 1 {
                        let _ = self.grown_field(f);
                    }
                }
            }
            j += 1;
        }
        proof {
            assert(ids.take(ids.len() as int) =~= ids);
        }
        true
    }

    /// Try to level up. Returns the new level if a level-up occurred.
    pub fn try_level_up(&mut self) -> (r: Option<u32>)
        ensures
            old(self).level >= MAX_LEVEL || level_for(old(self).xp) <= old(self).level ==> {
                &&& r is None
                &&& *final(self) == *old(self)
            },
            old(self).level < MAX_LEVEL && level_for(old(self).xp) > old(self).level ==> {
                &&& r == Some(level_for(old(self).xp))
                &&& *final(self) == (Adventurer { level: level_for(old(self).xp), ..*old(self) })
            },
    {
        if self.level >= MAX_LEVEL {
            return None;
        }
        let new_level = level_from_xp(self.xp);
        if new_level > self.level {
            self.level = new_level;
            Some(new_level)
        } else {
            None
        }
    }

    /// Ensure consumable slots are initialised to the correct length.
    pub fn init_consumable_slots(&mut self)
        ensures
            *final(self) == (Adventurer { consumables: final(self).consumables, ..*old(self) }),
            final(self).consumables@ == padded_slots(old(self).consumables@),
    {
        let ghost start = self.consumables@;
        while self.consumables.len() < CONSUMABLE_SLOTS
            invariant
                start == old(self).consumables@,
                *self == (Adventurer { consumables: self.consumables, ..*old(self) }),
                start.len() <= self.consumables@.len(),
                self.consumables@.subrange(0, start.len() as int) == start,
                forall|i: int| start.len() <= i < self.consumables@.len() ==> self.consumables@[i] is None,
                start.len() < CONSUMABLE_SLOTS ==> self.consumables@.len() <= CONSUMABLE_SLOTS,
                start.len() >= CONSUMABLE_SLOTS ==> self.consumables@ == start,
            decreases CONSUMABLE_SLOTS - self.consumables.len(),
        {
            self.consumables.push(None);
        }
        assert(self.consumables@ =~= padded_slots(start));
    }

    /// Equipped consumable item IDs (non-empty slots), in slot order.
    pub fn consumable_ids(&self) -> (ids: Vec<&ItemId>)
        ensures
            ids@.map_values(|x: &ItemId| *x) == filled_slots(self.consumables@),
    {
        let mut out: Vec<&ItemId> = Vec::new();
        let mut i: usize = 0;
        while i < self.consumables.len()
            invariant
                i <= self.consumables@.len(),
                out@.map_values(|x: &ItemId| *x) == filled_slots(self.consumables@.take(i as int)),
            decreases self.consumables.len() - i,
        {
            proof {
                assert(self.consumables@.take(i + 1).drop_last() =~= self.consumables@.take(i as int));
            }
            if let Some(id) = &self.consumables[i] {
                out.push(id);
                assert(out@.map_values(|x: &ItemId| *x) =~= filled_slots(self.consumables@.take(i as int)).push(*id));
            }
            i += 1;
        }
        assert(self.consumables@.take(self.consumables@.len() as int) =~= self.consumables@);
        out
    }
}


// ── Starter roster ────────────────────────────────────────────────────────

/// A freshly recruited adventurer: level 1, no XP, nothing equipped, empty
/// consumable slots, ready for a quest.
pub open spec fn is_recruit(
    a: Adventurer,
    id: Seq<char>,
    name: Seq<char>,
    class: AdventurerClass,
    base_stats: Stats,
) -> bool {
    &&& a.id@ == id
    &&& a.name@ == name
    &&& a.class == class
    &&& a.level == 1
    &&& a.xp == 0
    &&& a.base_stats == base_stats
    &&& a.equipment.weapon is None
    &&& a.equipment.armor is None
    &&& a.equipment.accessory is None
    &&& a.consumables@ == Seq::new(CONSUMABLE_SLOTS as nat, |i: int| None::<ItemId>)
    &&& a.status == AdventurerStatus::Ready
}

fn new_adventurer(id: &str, name: &str, class: AdventurerClass, base_stats: Stats) -> (a: Adventurer)
    ensures
        is_recruit(a, id@, name@, class, base_stats),
{
    let mut consumables: Vec<Option<ItemId>> = Vec::new();
    let mut i: usize = 0;
    while i < CONSUMABLE_SLOTS
        invariant
            i <= CONSUMABLE_SLOTS,
            consumables@ == Seq::new(i as nat, |k: int| None::<ItemId>),
        decreases CONSUMABLE_SLOTS - i,
    {
        consumables.push(None);
        assert(consumables@ =~= Seq::new((i + 1) as nat, |k: int| None::<ItemId>));
        i += 1;
    }
    Adventurer {
        id: id.to_string(),
        name: name.to_string(),
        class,
        level: 1,
        xp: 0,
        base_stats,
        equipment: Equipment::default(),
        consumables,
        status: AdventurerStatus::Ready,
    }
}

/// The five adventurers a new game starts with.
pub fn register_adventurers() -> (roster: Vec<Adventurer>)
    ensures
        roster@.len() == 5,
        is_recruit(roster@[0], "torvald"@, "Torvald"@, AdventurerClass::Warrior,
            Stats { max_hp: 25, strength: 10, dexterity: 4, intellect: 3 }),
        is_recruit(roster@[1], "sylvara"@, "Sylvara"@, AdventurerClass::Rogue,
            Stats { max_hp: 15, strength: 5, dexterity: 12, intellect: 6 }),
        is_recruit(roster@[2], "ember"@, "Ember"@, AdventurerClass::Mage,
            Stats { max_hp: 12, strength: 3, dexterity: 5, intellect: 14 }),
        is_recruit(roster@[3], "aldric"@, "Aldric"@, AdventurerClass::Paladin,
            Stats { max_hp: 22, strength: 8, dexterity: 4, intellect: 7 }),
        is_recruit(roster@[4], "briar"@, "Briar"@, AdventurerClass::Druid,
            Stats { max_hp: 18, strength: 5, dexterity: 7, intellect: 11 }),
{
    let mut roster: Vec<Adventurer> = Vec::new();
    roster.push(new_adventurer("torvald", "Torvald", AdventurerClass::Warrior,
        Stats { max_hp: 25, strength: 10, dexterity: 4, intellect: 3 }));
    roster.push(new_adventurer("sylvara", "Sylvara", AdventurerClass::Rogue,
        Stats { max_hp: 15, strength: 5, dexterity: 12, intellect: 6 }));
    roster.push(new_adventurer("ember", "Ember", AdventurerClass::Mage,
        Stats { max_hp: 12, strength: 3, dexterity: 5, intellect: 14 }));
    roster.push(new_adventurer("aldric", "Aldric", AdventurerClass::Paladin,
        Stats { max_hp: 22, strength: 8, dexterity: 4, intellect: 7 }));
    roster.push(new_adventurer("briar", "Briar", AdventurerClass::Druid,
        Stats { max_hp: 18, strength: 5, dexterity: 7, intellect: 11 }));
    roster
}

fn fits_i32(x: i64) -> (b: bool)
    ensures
        b == (i32::MIN <= x <= i32::MAX),
{
    -0x8000_0000i64 <= x && x <= 0x7fff_ffffi64
}

} // verus!
