use vstd::prelude::*;

use crate::item::ItemId;
use crate::time::{self, DurationMs, Timestamp, SECOND};

verus! {

// ── Constants ─────────────────────────────────────────────────────────────

pub const STARTING_TABLES: u32 = 4;

pub const SEATS_PER_TABLE: u32 = 2;

/// How many visitors can be in the tavern at once (tables × seats).
pub fn max_visitors(tables: u32) -> (n: u32)
    requires
        tables * SEATS_PER_TABLE <= u32::MAX,
    ensures
        n == tables * SEATS_PER_TABLE,
{
    tables * SEATS_PER_TABLE
}

// ── Visitor ───────────────────────────────────────────────────────────────

#[derive(Debug, Clone)]
pub struct Visitor {
    pub name: String,
    /// What they want to eat (item ID, or None if they don't want food).
    pub food_order: Option<ItemId>,
    /// What they want to drink.
    pub drink_order: Option<ItemId>,
    /// Gold they'll pay if served.
    pub gold_reward: u32,
    /// When they arrived.
    pub arrived_at: Timestamp,
    /// How long they'll wait before leaving unhappy (ms).
    pub patience: DurationMs,
    /// Whether they've been served food.
    pub food_served: bool,
    /// Whether they've been served drink.
    pub drink_served: bool,
}

impl Visitor {
    /// Every order the visitor placed has been served.
    pub open spec fn served(self) -> bool {
        (self.food_order is None || self.food_served) && (self.drink_order is None || self.drink_served)
    }

    /// The moment the visitor gives up waiting.
    pub open spec fn leaves_at(self) -> int {
        self.arrived_at + self.patience
    }

    pub fn is_fully_served(&self) -> (b: bool)
        ensures
            b == self.served(),
    {
        (self.food_order.is_none() || self.food_served) && (self.drink_order.is_none() || self.drink_served)
    }

    /// Whether the visitor has run out of patience at `now`.
    pub fn is_patience_expired_at(&self, now: Timestamp) -> (b: bool)
        requires
            self.leaves_at() <= u64::MAX,
        ensures
            b == (now >= self.leaves_at()),
    {
        now >= self.arrived_at + self.patience
    }

    /// Whether the visitor has run out of patience, judged by the system clock.
    pub fn is_patience_expired(&self) -> (b: bool)
        requires
            self.leaves_at() <= u64::MAX,
        ensures
            exists|t: Timestamp| #[trigger] time::done_at(self.arrived_at, self.patience, t) == b,
    {
        let t = time::now();
        let b = self.is_patience_expired_at(t);
        assert(time::done_at(self.arrived_at, self.patience, t) == b);
        b
    }

    /// Time remaining at `now` before they leave.
    pub fn time_remaining_at(&self, now: Timestamp) -> (left: DurationMs)
        requires
            self.leaves_at() <= u64::MAX,
        ensures
            now >= self.leaves_at() ==> left == 0,
            now < self.leaves_at() ==> left == self.leaves_at() - now,
    {
        let deadline = self.arrived_at + self.patience;
        if now >= deadline {
            0
        } else {
            deadline - now
        }
    }

    /// Time remaining before they leave, judged by the system clock.
    pub fn time_remaining(&self) -> (left: DurationMs)
        requires
            self.leaves_at() <= u64::MAX,
        ensures
            left <= self.leaves_at(),
    {
        let t = time::now();
        self.time_remaining_at(t)
    }
}

// ── Visitor generation ────────────────────────────────────────────────────

/// How visitors are described when they walk in.
pub open spec fn visitor_names() -> Seq<Seq<char>> {
    seq!["A weary traveler"@, "A hooded stranger"@, "A local farmer"@, "A wandering bard"@, "A merchant"@, "A retired guard"@, "A curious scholar"@, "A young apprentice"@, "A grizzled hunter"@, "A cheerful dwarf"@]
}

/// Dishes a visitor may order.
pub open spec fn food_menu() -> Seq<Seq<char>> {
    seq!["hearty_stew"@, "berry_tart"@, "herb_bread"@]
}

/// Drinks a visitor may order.
pub open spec fn drink_menu() -> Seq<Seq<char>> {
    seq!["berry_cordial"@, "herbal_tea"@]
}

/// One of the visitor descriptions.
fn visitor_name(i: u32) -> (s: &'static str)
    requires
        i < 10,
    ensures
        s@ == visitor_names()[i as int],
{
    match i {
        0 => "A weary traveler",
        1 => "A hooded stranger",
        2 => "A local farmer",
        3 => "A wandering bard",
        4 => "A merchant",
        5 => "A retired guard",
        6 => "A curious scholar",
        7 => "A young apprentice",
        8 => "A grizzled hunter",
        _ => "A cheerful dwarf",
    }
}

/// One of the dishes.
fn food_item(i: u32) -> (s: &'static str)
    requires
        i < 3,
    ensures
        s@ == food_menu()[i as int],
{
    match i {
        0 => "hearty_stew",
        1 => "berry_tart",
        _ => "herb_bread",
    }
}

/// One of the drinks.
fn drink_item(i: u32) -> (s: &'static str)
    requires
        i < 2,
    ensures
        s@ == drink_menu()[i as int],
{
    match i {
        0 => "berry_cordial",
        _ => "herbal_tea",
    }
}

/// The random draws that decide a visitor.
#[derive(Debug, Clone, Copy)]
pub struct VisitorRolls {
    /// Which description, `0..10`.
    pub name_index: u32,
    /// Food wish roll in `0..100`; below 80 the visitor orders food.
    pub food_roll: u32,
    /// Drink wish roll in `0..100`; below 70 the visitor orders a drink.
    pub drink_roll: u32,
    /// Which dish, `0..3`.
    pub food_index: u32,
    /// Which drink, `0..2`.
    pub drink_index: u32,
    /// Base gold, `3..=8`.
    pub base_gold: u32,
    /// Base patience in seconds, `60..=120`.
    pub patience_secs: u32,
}

/// Gold a visitor pays: the base plus a tenth of the reputation, at most 5 extra.
pub open spec fn visitor_gold(base_gold: u32, reputation: u32) -> int {
    base_gold + if reputation / 10 <= 5 { reputation / 10 } else { 5 }
}

/// How long a visitor waits (ms): the base in seconds plus half a second per
/// point of reputation.
pub open spec fn visitor_patience(patience_secs: u32, reputation: u32) -> int {
    patience_secs * SECOND + (reputation * SECOND) / 2
}

/// Whether a visitor orders food, given the rolls.
pub open spec fn wants_food(r: VisitorRolls) -> bool {
    r.food_roll < 80
}

/// Whether a visitor orders a drink: when the drink roll says so, and always
/// when they order no food, so that everyone orders something.
pub open spec fn orders_drink(r: VisitorRolls) -> bool {
    r.drink_roll < 70 || !wants_food(r)
}

/// Builds the visitor that the given rolls describe, arriving at `now`.
pub fn visitor_from_rolls(reputation: u32, rolls: VisitorRolls, now: Timestamp) -> (v: Visitor)
    requires
        rolls.name_index < 10,
        rolls.food_index < 3,
        rolls.drink_index < 2,
        rolls.base_gold + 5 <= u32::MAX,
    ensures
        v.name@ == visitor_names()[rolls.name_index as int],
        wants_food(rolls) ==> (v.food_order matches Some(f) && f@ == food_menu()[rolls.food_index as int]),
        !wants_food(rolls) ==> v.food_order is None,
        orders_drink(rolls) ==> (v.drink_order matches Some(d) && d@ == drink_menu()[rolls.drink_index as int]),
        !orders_drink(rolls) ==> v.drink_order is None,
        v.gold_reward == visitor_gold(rolls.base_gold, reputation),
        v.arrived_at == now,
        v.patience == visitor_patience(rolls.patience_secs, reputation),
        !v.food_served,
        !v.drink_served,
{
    let name = visitor_name(rolls.name_index).to_string();
    let wants_food = rolls.food_roll < 80;
    let wants_drink = rolls.drink_roll < 70;
    let food_order = if wants_food {
        Some(food_item(rolls.food_index).to_string())
    } else {
        None
    };
    let drink_order = if wants_drink || !wants_food {
        Some(drink_item(rolls.drink_index).to_string())
    } else {
        None
    };
    let tenth = reputation / 10;
    let rep_bonus = if tenth <= 5 { tenth } else { 5 };
    let gold_reward = rolls.base_gold + rep_bonus;
    let patience = rolls.patience_secs as u64 * SECOND + (reputation as u64 * SECOND / 2);
    Visitor {
        name,
        food_order,
        drink_order,
        gold_reward,
        arrived_at: now,
        patience,
        food_served: false,
        drink_served: false,
    }
}

/// Generate a random visitor with food/drink preferences.
pub fn generate_visitor(reputation: u32) -> (v: Visitor)
    ensures
        exists|i: int| 0 <= i < 10 && v.name@ == #[trigger] visitor_names()[i],
        v.food_order matches Some(f) ==> exists|i: int| 0 <= i < 3 && f@ == #[trigger] food_menu()[i],
        v.drink_order matches Some(d) ==> exists|i: int| 0 <= i < 2 && d@ == #[trigger] drink_menu()[i],
        v.food_order is Some || v.drink_order is Some,
        exists|g: u32| 3 <= g <= 8 && v.gold_reward == #[trigger] visitor_gold(g, reputation),
        exists|s: u32| 60 <= s <= 120 && v.patience == #[trigger] visitor_patience(s, reputation),
        !v.food_served,
        !v.drink_served,
{
    let mut rng = crate::random::thread_rng();
    let name_index = crate::random::random_range_inclusive(&mut rng, 0, 9);
    let food_roll = crate::random::random_range_inclusive(&mut rng, 0, 99);
    let drink_roll = crate::random::random_range_inclusive(&mut rng, 0, 99);
    let wants_food = food_roll < 80;
    let wants_drink = drink_roll < 70;
    let food_index = if wants_food {
        crate::random::random_range_inclusive(&mut rng, 0, 2)
    } else {
        0
    };
    let drink_index = if wants_drink || !wants_food {
        crate::random::random_range_inclusive(&mut rng, 0, 1)
    } else {
        0
    };
    let base_gold = crate::random::random_range_inclusive(&mut rng, 3, 8);
    let patience_secs = crate::random::random_range_inclusive(&mut rng, 60, 120);
    let rolls = VisitorRolls { name_index, food_roll, drink_roll, food_index, drink_index, base_gold, patience_secs };
    let now = time::now();
    let v = visitor_from_rolls(reputation, rolls, now);
    proof {
        assert(v.name@ == visitor_names()[name_index as int]);
        assert(v.gold_reward == visitor_gold(base_gold, reputation));
        assert(v.patience == visitor_patience(patience_secs, reputation));
        if v.food_order is Some {
            assert(v.food_order->0@ == food_menu()[food_index as int]);
        }
        if v.drink_order is Some {
            assert(v.drink_order->0@ == drink_menu()[drink_index as int]);
        }
    }
    v
}

// ── Upgrades ──────────────────────────────────────────────────────────────

#[derive(Debug, Clone, Copy, PartialEq, Eq, Structural)]
pub struct TavernUpgrades {
    /// Number of tables (each seats SEATS_PER_TABLE visitors).
    pub tables: u32,
    /// Kitchen level: multiplies food gold value.
    pub kitchen_level: u32,
    /// Cellar level: multiplies drink gold value.
    pub cellar_level: u32,
    /// Rooms: passive gold per day cycle.
    pub rooms: u32,
    /// Noticeboard: unlocks higher quest tiers.
    pub noticeboard_level: u32,
}

impl Default for TavernUpgrades {
    fn default() -> (u: Self)
        ensures
            u == (TavernUpgrades {
                tables: STARTING_TABLES,
                kitchen_level: 1,
                cellar_level: 1,
                rooms: 0,
                noticeboard_level: 0,
            }),
    {
        TavernUpgrades { tables: STARTING_TABLES, kitchen_level: 1, cellar_level: 1, rooms: 0, noticeboard_level: 0 }
    }
}

/// An upgrade the player can purchase.
#[derive(Debug, Clone)]
pub struct UpgradeDef {
    pub id: &'static str,
    pub name: &'static str,
    pub description: &'static str,
    pub gold_cost: u32,
    pub material_cost: Vec<(ItemId, u32)>,
}

/// An upgrade as (id, name, description, gold cost, materials).
pub open spec fn upgrade_view(d: UpgradeDef) -> (Seq<char>, Seq<char>, Seq<char>, u32, Seq<(Seq<char>, u32)>) {
    (d.id@, d.name@, d.description@, d.gold_cost, d.material_cost@.map_values(|m: (ItemId, u32)| (m.0@, m.1)))
}

/// The upgrades on offer for the tavern's current state, in order: another
/// table (up to 8), a better kitchen and cellar (up to level 3), another room
/// (up to 4).
pub open spec fn offered_upgrades(u: TavernUpgrades) -> Seq<(Seq<char>, Seq<char>, Seq<char>, u32, Seq<(Seq<char>, u32)>)> {
    (if u.tables < 8 {
        seq![("table"@, "Add Table"@, "Another table for visitors to sit at."@, ((u.tables + 1) * 30) as u32,
            seq![("planks"@, 4u32)])]
    } else {
        Seq::empty()
    }) + (if u.kitchen_level < 3 {
        seq![("kitchen"@, "Upgrade Kitchen"@, "Better kitchen — food earns more gold."@, (u.kitchen_level * 50) as u32,
            seq![("planks"@, 6u32), ("kindling"@, 3u32)])]
    } else {
        Seq::empty()
    }) + (if u.cellar_level < 3 {
        seq![("cellar"@, "Upgrade Cellar"@, "Better cellar — drinks earn more gold."@, (u.cellar_level * 50) as u32,
            seq![("planks"@, 6u32)])]
    } else {
        Seq::empty()
    }) + (if u.rooms < 4 {
        seq![("room"@, "Add Room"@, "A room for rent — passive gold over time."@, ((u.rooms + 1) * 75) as u32,
            seq![("planks"@, 8u32), ("dried_herbs"@, 2u32)])]
    } else {
        Seq::empty()
    })
}

fn material(id: &str, qty: u32) -> (m: (ItemId, u32))
    ensures
        m.0@ == id@,
        m.1 == qty,
{
    (id.to_string(), qty)
}

/// The upgrades the player can buy next.
pub fn available_upgrades(upgrades: &TavernUpgrades) -> (list: Vec<UpgradeDef>)
    ensures
        list@.map_values(|d: UpgradeDef| upgrade_view(d)) == offered_upgrades(*upgrades),
{
    let mut list: Vec<UpgradeDef> = Vec::new();
    let ghost mut expect: Seq<(Seq<char>, Seq<char>, Seq<char>, u32, Seq<(Seq<char>, u32)>)> = Seq::empty();

    if upgrades.tables < 8 {
        let cost = (upgrades.tables + 1) * 30;
        let mut mats: Vec<(ItemId, u32)> = Vec::new();
        mats.push(material("planks", 4));
        let d = UpgradeDef {
            id: "table",
            name: "Add Table",
            description: "Another table for visitors to sit at.",
            gold_cost: cost,
            material_cost: mats,
        };
        assert(upgrade_view(d).4 =~= seq![("planks"@, 4u32)]);
        list.push(d);
    }
    proof {
        expect = if upgrades.tables < 8 {
            seq![("table"@, "Add Table"@, "Another table for visitors to sit at."@, ((upgrades.tables + 1) * 30) as u32,
                seq![("planks"@, 4u32)])]
        } else {
            Seq::empty()
        };
        assert(list@.map_values(|d: UpgradeDef| upgrade_view(d)) =~= expect);
    }

    if upgrades.kitchen_level < 3 {
        let cost = upgrades.kitchen_level * 50;
        let mut mats: Vec<(ItemId, u32)> = Vec::new();
        mats.push(material("planks", 6));
        mats.push(material("kindling", 3));
        let d = UpgradeDef {
            id: "kitchen",
            name: "Upgrade Kitchen",
            description: "Better kitchen — food earns more gold.",
            gold_cost: cost,
            material_cost: mats,
        };
        assert(upgrade_view(d).4 =~= seq![("planks"@, 6u32), ("kindling"@, 3u32)]);
        list.push(d);
    }
    proof {
        expect = expect + if upgrades.kitchen_level < 3 {
            seq![("kitchen"@, "Upgrade Kitchen"@, "Better kitchen — food earns more gold."@, (upgrades.kitchen_level * 50) as u32,
                seq![("planks"@, 6u32), ("kindling"@, 3u32)])]
        } else {
            Seq::empty()
        };
        assert(list@.map_values(|d: UpgradeDef| upgrade_view(d)) =~= expect);
    }

    if upgrades.cellar_level < 3 {
        let cost = upgrades.cellar_level * 50;
        let mut mats: Vec<(ItemId, u32)> = Vec::new();
        mats.push(material("planks", 6));
        let d = UpgradeDef {
            id: "cellar",
            name: "Upgrade Cellar",
            description: "Better cellar — drinks earn more gold.",
            gold_cost: cost,
            material_cost: mats,
        };
        assert(upgrade_view(d).4 =~= seq![("planks"@, 6u32)]);
        list.push(d);
    }
    proof {
        expect = expect + if upgrades.cellar_level < 3 {
            seq![("cellar"@, "Upgrade Cellar"@, "Better cellar — drinks earn more gold."@, (upgrades.cellar_level * 50) as u32,
                seq![("planks"@, 6u32)])]
        } else {
            Seq::empty()
        };
        assert(list@.map_values(|d: UpgradeDef| upgrade_view(d)) =~= expect);
    }

    if upgrades.rooms < 4 {
        let cost = (upgrades.rooms + 1) * 75;
        let mut mats: Vec<(ItemId, u32)> = Vec::new();
        mats.push(material("planks", 8));
        mats.push(material("dried_herbs", 2));
        let d = UpgradeDef {
            id: "room",
            name: "Add Room",
            description: "A room for rent — passive gold over time.",
            gold_cost: cost,
            material_cost: mats,
        };
        assert(upgrade_view(d).4 =~= seq![("planks"@, 8u32), ("dried_herbs"@, 2u32)]);
        list.push(d);
    }
    proof {
        expect = expect + if upgrades.rooms < 4 {
            seq![("room"@, "Add Room"@, "A room for rent — passive gold over time."@, ((upgrades.rooms + 1) * 75) as u32,
                seq![("planks"@, 8u32), ("dried_herbs"@, 2u32)])]
        } else {
            Seq::empty()
        };
        assert(list@.map_values(|d: UpgradeDef| upgrade_view(d)) =~= expect);
        assert(expect =~= offered_upgrades(*upgrades));
    }
    list
}

// ── Tavern state ──────────────────────────────────────────────────────────

#[derive(Debug, Clone)]
pub struct TavernData {
    pub upgrades: TavernUpgrades,
    pub visitors: Vec<Visitor>,
    pub reputation: u32,
    /// Total gold earned from the tavern (lifetime stat).
    pub total_gold_earned: u32,
    /// Total visitors served (lifetime stat).
    pub total_served: u32,
    /// When the next visitor might arrive (ms timestamp).
    pub next_visitor_at: Timestamp,
    /// Auto-stock: the tavern automatically pulls from inventory.
    pub auto_stock: bool,
}

impl Default for TavernData {
    fn default() -> (t: Self)
        ensures
            t.upgrades == TavernUpgrades::default_spec(),
            t.visitors@.len() == 0,
            t.reputation == 0,
            t.total_gold_earned == 0,
            t.total_served == 0,
            t.next_visitor_at == 0,
            !t.auto_stock,
    {
        TavernData {
            upgrades: TavernUpgrades::default(),
            visitors: Vec::new(),
            reputation: 0,
            total_gold_earned: 0,
            total_served: 0,
            next_visitor_at: 0,
            auto_stock: false,
        }
    }
}

impl TavernUpgrades {
    /// The upgrades a new tavern starts with.
    pub open spec fn default_spec() -> TavernUpgrades {
        TavernUpgrades { tables: STARTING_TABLES, kitchen_level: 1, cellar_level: 1, rooms: 0, noticeboard_level: 0 }
    }
}

/// When the first visitor of a tavern opened at `now` may arrive (30 s later,
/// held at the end of the clock's range).
pub open spec fn first_visitor_at(now: Timestamp) -> int {
    if now + 30 * SECOND <= u64::MAX {
        now + 30 * SECOND
    } else {
        u64::MAX as int
    }
}

/// Seconds until the next visitor: the drawn base less a fifth of the
/// reputation (at most 40 off), but never under 15.
pub open spec fn visitor_interval_secs(base_secs: u64, reputation: u32) -> int {
    let speedup = if reputation / 5 <= 40 { reputation / 5 } else { 40 };
    let left = if base_secs >= speedup { base_secs - speedup } else { 0 };
    if left >= 15 {
        left
    } else {
        15
    }
}

/// When the next visitor is due for an interval base of `base_secs` drawn at
/// `now`: the interval (in seconds) after `now`, held at the end of the clock's range.
pub open spec fn visitor_due(base_secs: u64, now: Timestamp, reputation: u32) -> int {
    let due = now + visitor_interval_secs(base_secs, reputation) * SECOND;
    if due <= u64::MAX {
        due
    } else {
        u64::MAX as int
    }
}

/// How many of `visitors` sit at table `i` when they fill the tables in
/// order, `SEATS_PER_TABLE` to a table.
pub open spec fn seated_at(visitors: int, i: int) -> int {
    let left = visitors - i * SEATS_PER_TABLE;
    if left <= 0 {
        0
    } else if left >= SEATS_PER_TABLE {
        SEATS_PER_TABLE as int
    } else {
        left
    }
}

/// Visitors at each of `tables` tables when `visitors` fill them in order,
/// two to a table, as the tavern scene shows them.
pub fn table_seating(tables: u32, visitors: u32) -> (seats: Vec<u32>)
    ensures
        seats@.len() == tables,
        forall|i: int| 0 <= i < tables ==> #[trigger] seats@[i] == seated_at(visitors as int, i),
{
    let mut out: Vec<u32> = Vec::new();
    let mut placed: u32 = 0;
    let mut i: u32 = 0;
    while i < tables
        invariant
            i <= tables,
            out@.len() == i,
            placed == (if visitors <= 2 * i { visitors as int } else { 2 * i }),
            forall|j: int| 0 <= j < i ==> #[trigger] out@[j] == seated_at(visitors as int, j),
        decreases tables - i,
    {
        let at: u32 = if placed < visitors {
            let left = visitors - placed;
            if left < SEATS_PER_TABLE {
                left
            } else {
                SEATS_PER_TABLE
            }
        } else {
            0
        };
        placed = placed + at;
        out.push(at);
        i = i + 1;
    }
    out
}

/// Whether a visitor may walk in at `now`: the next arrival is due and a
/// seat is free.
pub open spec fn visitor_may_enter(t: TavernData, now: Timestamp) -> bool {
    now >= t.next_visitor_at && t.visitors@.len() < t.upgrades.tables * SEATS_PER_TABLE
}

impl TavernData {
    /// A tavern opened at `now`: default upgrades, nobody inside, the first
    /// visitor due 30 s later, and auto-stock on.
    pub fn new_at(now: Timestamp) -> (t: Self)
        ensures
            t.upgrades == TavernUpgrades::default_spec(),
            t.visitors@.len() == 0,
            t.reputation == 0,
            t.total_gold_earned == 0,
            t.total_served == 0,
            t.next_visitor_at == first_visitor_at(now),
            t.auto_stock,
    {
        TavernData {
            upgrades: TavernUpgrades::default(),
            visitors: Vec::new(),
            reputation: 0,
            total_gold_earned: 0,
            total_served: 0,
            next_visitor_at: now.saturating_add(30 * SECOND),
            auto_stock: true,
        }
    }

    /// A tavern opened now.
    pub fn new() -> (t: Self)
        ensures
            t.upgrades == TavernUpgrades::default_spec(),
            t.visitors@.len() == 0,
            t.reputation == 0,
            t.total_gold_earned == 0,
            t.total_served == 0,
            t.auto_stock,
    {
        let now = time::now();
        Self::new_at(now)
    }

    /// How many visitors can currently fit.
    pub fn capacity(&self) -> (n: u32)
        requires
            self.upgrades.tables * SEATS_PER_TABLE <= u32::MAX,
        ensures
            n == self.upgrades.tables * SEATS_PER_TABLE,
    {
        max_visitors(self.upgrades.tables)
    }

    /// How many visitors are currently seated (as a `u32`).
    pub fn occupancy(&self) -> (n: u32)
        ensures
            n == self.visitors@.len() as u32,
    {
        #[verifier::truncate] (self.visitors.len() as u32)
    }

    /// Sets the next arrival for an interval whose base, in seconds, was
    /// drawn as `base_secs`, counted from `now` (held at the end of the
    /// clock's range).
    pub fn schedule_next_visitor_with(&mut self, base_secs: u64, now: Timestamp)
        requires
            base_secs <= u64::MAX / SECOND,
        ensures
            *final(self) == (TavernData { next_visitor_at: final(self).next_visitor_at, ..*old(self) }),
            now + visitor_interval_secs(base_secs, old(self).reputation) * SECOND <= u64::MAX ==> final(self).next_visitor_at
                == now + visitor_interval_secs(base_secs, old(self).reputation) * SECOND,
            now + visitor_interval_secs(base_secs, old(self).reputation) * SECOND > u64::MAX ==> final(self).next_visitor_at
                == u64::MAX,
    {
        let quarter = self.reputation as u64 / 5;
        let rep_speedup = if quarter <= 40 { quarter } else { 40 };
        let left = base_secs.saturating_sub(rep_speedup);
        let secs = if left >= 15 { left } else { 15 };
        let interval = secs * SECOND;
        self.next_visitor_at = now.saturating_add(interval);
    }

    /// Schedule the next visitor arrival: 30 to 120 seconds from now, sooner
    /// with more reputation.
    pub fn schedule_next_visitor(&mut self)
        ensures
            *final(self) == (TavernData { next_visitor_at: final(self).next_visitor_at, ..*old(self) }),
            exists|base_secs: u64, now: Timestamp|
                30 <= base_secs <= 120 && #[trigger] visitor_due(base_secs, now, old(self).reputation)
                    == final(self).next_visitor_at,
    {
        let mut rng = crate::random::thread_rng();
        let base = crate::random::random_range_inclusive(&mut rng, 30, 120) as u64;
        let now = time::now();
        self.schedule_next_visitor_with(base, now);
        assert(visitor_due(base, now, old(self).reputation) == self.next_visitor_at);
    }

    /// Lets a visitor in at `now` when one is due and a seat is free: a
    /// newly generated visitor takes the next seat and the next arrival is
    /// scheduled. Returns whether someone came in; otherwise nothing changes.
    pub fn admit_visitor_at(&mut self, now: Timestamp) -> (came: bool)
        ensures
            came == visitor_may_enter(*old(self), now),
            !came ==> *final(self) == *old(self),
            came ==> *final(self) == (TavernData {
                visitors: final(self).visitors,
                next_visitor_at: final(self).next_visitor_at,
                ..*old(self)
            }),
            came ==> final(self).visitors@.len() == old(self).visitors@.len() + 1 && final(self).visitors@.drop_last()
                == old(self).visitors@,
            came ==> exists|base_secs: u64, t: Timestamp|
                30 <= base_secs <= 120 && #[trigger] visitor_due(base_secs, t, old(self).reputation)
                    == final(self).next_visitor_at,
    {
        let seats: u64 = self.upgrades.tables as u64 * 2;
        if now < self.next_visitor_at || self.visitors.len() as u64 >= seats {
            return false;
        }
        let v = generate_visitor(self.reputation);
        let ghost before = self.visitors@;
        self.visitors.push(v);
        assert(self.visitors@.drop_last() =~= before);
        self.schedule_next_visitor();
        true
    }

    /// Passive gold from rooms (per tick — called each game update).
    pub fn room_passive_gold(&self) -> (g: u32)
        ensures
            g == self.upgrades.rooms,
    {
        self.upgrades.rooms
    }
}

/// A visitor is let in exactly when the next arrival is due and fewer
/// visitors are seated than the tables hold, two seats to a table (the
/// tavern's capacity, `max_visitors`).
pub proof fn lemma_admission_rule(t: TavernData, now: Timestamp)
    ensures
        visitor_may_enter(t, now) <==> (now >= t.next_visitor_at && t.visitors@.len() < 2 * t.upgrades.tables),
        SEATS_PER_TABLE == 2,
{
}

/// The wait for the next visitor is the drawn base, in seconds, less one
/// second for every five points of reputation (at most forty seconds off),
/// but never under fifteen seconds: five more points of reputation, up to
/// two hundred, shorten a wait above the floor by exactly one second, and
/// more reputation never lengthens it.
pub proof fn lemma_visitor_interval(base: u64, reputation: u32, more: u32)
    ensures
        ({
            let off: int = if reputation / 5 < 40 { (reputation / 5) as int } else { 40 };
            visitor_interval_secs(base, reputation) == if base - off >= 15 { base - off } else { 15 }
        }),
        15 <= visitor_interval_secs(base, reputation) <= if base >= 15 { base as int } else { 15 },
        reputation + 5 <= 200 && base >= reputation / 5 + 16 ==> visitor_interval_secs(base, (reputation + 5) as u32)
            == visitor_interval_secs(base, reputation) - 1,
        reputation <= more ==> visitor_interval_secs(base, more) <= visitor_interval_secs(base, reputation),
{
    assert((reputation + 5) / 5 == reputation / 5 + 1) by (nonlinear_arith)
        requires
            reputation + 5 <= 0x1_0000_0004,
    ;
    if reputation <= more {
        assert(reputation / 5 <= more / 5) by (nonlinear_arith)
            requires
                reputation <= more,
        ;
    }
}

/// Each upgrade track is offered, at its price, until it reaches its cap:
/// another table (up to eight) for thirty gold per table it makes, a
/// kitchen or cellar level (up to three) for fifty gold per current level,
/// another room (up to four) for seventy-five gold per room it makes. One
/// entry is offered per track below its cap, and none for a capped track.
pub proof fn lemma_upgrade_tracks(u: TavernUpgrades)
    ensures
        u.tables < 8 ==> exists|i: int|
            0 <= i < offered_upgrades(u).len() && #[trigger] offered_upgrades(u)[i].0 == "table"@ && offered_upgrades(u)[i].3
                == (u.tables + 1) * 30,
        u.kitchen_level < 3 ==> exists|i: int|
            0 <= i < offered_upgrades(u).len() && #[trigger] offered_upgrades(u)[i].0 == "kitchen"@
                && offered_upgrades(u)[i].3 == u.kitchen_level * 50,
        u.cellar_level < 3 ==> exists|i: int|
            0 <= i < offered_upgrades(u).len() && #[trigger] offered_upgrades(u)[i].0 == "cellar"@
                && offered_upgrades(u)[i].3 == u.cellar_level * 50,
        u.rooms < 4 ==> exists|i: int|
            0 <= i < offered_upgrades(u).len() && #[trigger] offered_upgrades(u)[i].0 == "room"@ && offered_upgrades(u)[i].3
                == (u.rooms + 1) * 75,
        offered_upgrades(u).len() == (if u.tables < 8 { 1int } else { 0 }) + (if u.kitchen_level < 3 { 1int } else { 0 }) + (
        if u.cellar_level < 3 { 1int } else { 0 }) + (if u.rooms < 4 { 1int } else { 0 }),
        u.tables >= 8 ==> forall|i: int| 0 <= i < offered_upgrades(u).len() ==> #[trigger] offered_upgrades(u)[i].0 != "table"@,
        u.kitchen_level >= 3 ==> forall|i: int|
            0 <= i < offered_upgrades(u).len() ==> #[trigger] offered_upgrades(u)[i].0 != "kitchen"@,
        u.cellar_level >= 3 ==> forall|i: int|
            0 <= i < offered_upgrades(u).len() ==> #[trigger] offered_upgrades(u)[i].0 != "cellar"@,
        u.rooms >= 4 ==> forall|i: int| 0 <= i < offered_upgrades(u).len() ==> #[trigger] offered_upgrades(u)[i].0 != "room"@,
{
    reveal_strlit("table");
    reveal_strlit("kitchen");
    reveal_strlit("cellar");
    reveal_strlit("room");
    let e = Seq::<(Seq<char>, Seq<char>, Seq<char>, u32, Seq<(Seq<char>, u32)>)>::empty();
    let a = if u.tables < 8 {
        seq![("table"@, "Add Table"@, "Another table for visitors to sit at."@, ((u.tables + 1) * 30) as u32,
            seq![("planks"@, 4u32)])]
    } else {
        e
    };
    let b = if u.kitchen_level < 3 {
        seq![("kitchen"@, "Upgrade Kitchen"@, "Better kitchen — food earns more gold."@, (u.kitchen_level * 50) as u32,
            seq![("planks"@, 6u32), ("kindling"@, 3u32)])]
    } else {
        e
    };
    let c = if u.cellar_level < 3 {
        seq![("cellar"@, "Upgrade Cellar"@, "Better cellar — drinks earn more gold."@, (u.cellar_level * 50) as u32,
            seq![("planks"@, 6u32)])]
    } else {
        e
    };
    let d = if u.rooms < 4 {
        seq![("room"@, "Add Room"@, "A room for rent — passive gold over time."@, ((u.rooms + 1) * 75) as u32,
            seq![("planks"@, 8u32), ("dried_herbs"@, 2u32)])]
    } else {
        e
    };
    let o = offered_upgrades(u);
    assert(o == a + b + c + d);
    let (la, lb, lc) = (a.len() as int, b.len() as int, c.len() as int);
    assert(forall|i: int| 0 <= i < la ==> o[i] == a[i]);
    assert(forall|i: int| 0 <= i < lb ==> o[la + i] == b[i]);
    assert(forall|i: int| 0 <= i < lc ==> o[la + lb + i] == c[i]);
    assert(forall|i: int| 0 <= i < d.len() ==> o[la + lb + lc + i] == d[i]);
    if u.tables < 8 {
        assert(o[0].0 == "table"@);
    }
    if u.kitchen_level < 3 {
        assert(o[la].0 == "kitchen"@);
    }
    if u.cellar_level < 3 {
        assert(o[la + lb].0 == "cellar"@);
    }
    if u.rooms < 4 {
        assert(o[la + lb + lc].0 == "room"@);
    }
    assert forall|i: int| 0 <= i < o.len() implies (#[trigger] o[i].0 == "table"@ ==> i < la) && (o[i].0 == "kitchen"@
        ==> la <= i < la + lb) && (o[i].0 == "cellar"@ ==> la + lb <= i < la + lb + lc) && (o[i].0 == "room"@ ==> la
        + lb + lc <= i) by {
        if i < la {
            assert(o[i] == a[i]);
        } else if i < la + lb {
            assert(o[i] == b[i - la]);
        } else if i < la + lb + lc {
            assert(o[i] == c[i - la - lb]);
        } else {
            assert(o[i] == d[i - la - lb - lc]);
        }
    }
}

} // verus!
