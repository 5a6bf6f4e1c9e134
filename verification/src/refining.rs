use vstd::prelude::*;

use crate::item::ItemId;
use crate::time::{self, skipped_start, unit_remaining, units_done, DurationMs, Timestamp, SECOND};

verus! {

// ── Stations ──────────────────────────────────────────────────────────────

#[derive(Debug, Clone, Copy, PartialEq, Eq, Structural, Hash)]
pub enum StationKind {
    Workbench,
    Furnace,
    Alchemy,
    Loom,
}

impl StationKind {
    pub fn label(self) -> (s: &'static str)
        ensures
            s@ == match self {
                StationKind::Workbench => "Workbench"@,
                StationKind::Furnace => "Furnace"@,
                StationKind::Alchemy => "Alchemy Table"@,
                StationKind::Loom => "Loom"@,
            },
    {
        match self {
            StationKind::Workbench => "Workbench",
            StationKind::Furnace => "Furnace",
            StationKind::Alchemy => "Alchemy Table",
            StationKind::Loom => "Loom",
        }
    }
}

#[derive(Debug, Clone)]
pub struct RefiningStation {
    pub kind: StationKind,
    pub name: String,
    pub description: String,
    pub unlocked: bool,
}

// ── Recipes ───────────────────────────────────────────────────────────────

#[derive(Debug, Clone)]
pub struct RefiningRecipe {
    pub id: String,
    pub name: String,
    pub station: StationKind,
    pub input_id: ItemId,
    pub input_qty: u32,
    pub output_id: ItemId,
    pub output_qty: u32,
    pub duration_per_unit: DurationMs,
}

// ── Active task ───────────────────────────────────────────────────────────

#[derive(Debug, Clone)]
pub struct RefiningTask {
    pub recipe_id: String,
    pub station: StationKind,
    pub total_units: u32,
    pub completed_units: u32,
    pub started_at: Timestamp,
    pub duration_per_unit: DurationMs,
}

impl RefiningTask {
    /// How many units the timer says should be done at `now` (capped at total).
    pub fn expected_units_done_at(&self, now: Timestamp) -> (n: u32)
        requires
            self.duration_per_unit > 0,
        ensures
            n == units_done(self.started_at, self.duration_per_unit, self.total_units, now),
    {
        let elapsed = now.saturating_sub(self.started_at);
        let units = elapsed / self.duration_per_unit;
        if units >= self.total_units as u64 {
            self.total_units
        } else {
            units as u32
        }
    }

    /// How many units the timer says should be done so far (capped at total),
    /// judged by the system clock.
    pub fn expected_units_done(&self) -> (n: u32)
        requires
            self.duration_per_unit > 0,
        ensures
            n <= self.total_units,
            exists|t: Timestamp|
                #[trigger] units_done(self.started_at, self.duration_per_unit, self.total_units, t) == n,
    {
        let t = time::now();
        let n = self.expected_units_done_at(t);
        assert(units_done(self.started_at, self.duration_per_unit, self.total_units, t) == n);
        n
    }

    pub fn is_batch_done(&self) -> (b: bool)
        ensures
            b == (self.completed_units >= self.total_units),
    {
        self.completed_units >= self.total_units
    }

    /// Time remaining at `now` until the next unit completes (ms); 0 if the batch is done.
    pub fn next_unit_remaining_ms_at(&self, now: Timestamp) -> (ms: DurationMs)
        requires
            self.completed_units < self.total_units ==> (self.completed_units + 1) * self.duration_per_unit
                <= u64::MAX,
        ensures
            ms == unit_remaining(self.started_at, self.duration_per_unit, self.completed_units, self.total_units, now),
    {
        if self.is_batch_done() {
            return 0;
        }
        let elapsed = now.saturating_sub(self.started_at);
        let next_completion = (self.completed_units as u64 + 1) * self.duration_per_unit;
        next_completion.saturating_sub(elapsed)
    }

    /// Time remaining until the next unit completes (ms), judged by the system
    /// clock; 0 if the batch is done.
    pub fn next_unit_remaining_ms(&self) -> (ms: DurationMs)
        requires
            self.completed_units < self.total_units ==> (self.completed_units + 1) * self.duration_per_unit
                <= u64::MAX,
        ensures
            self.completed_units >= self.total_units ==> ms == 0,
            ms <= (self.completed_units + 1) * self.duration_per_unit,
    {
        let t = time::now();
        self.next_unit_remaining_ms_at(t)
    }
}

// ── Refining state ────────────────────────────────────────────────────────

/// One slot per station kind. None = idle.
#[derive(Debug, Clone)]
pub struct RefiningState {
    pub workbench: Option<RefiningTask>,
    pub furnace: Option<RefiningTask>,
    pub alchemy: Option<RefiningTask>,
    pub loom: Option<RefiningTask>,
}

impl Default for RefiningState {
    fn default() -> (s: Self)
        ensures
            s.workbench is None,
            s.furnace is None,
            s.alchemy is None,
            s.loom is None,
    {
        RefiningState { workbench: None, furnace: None, alchemy: None, loom: None }
    }
}

fn slot_can_skip(slot: &Option<RefiningTask>) -> (b: bool)
    ensures
        b == skippable(*slot),
{
    match slot {
        Some(task) => {
            let d = task.duration_per_unit as u128;
            let n = task.total_units as u128;
            proof {
                assert(d * n <= 0xffff_ffff_ffff_ffffu128 * 0xffff_ffffu128) by (nonlinear_arith)
                    requires
                        d <= 0xffff_ffff_ffff_ffffu128,
                        n <= 0xffff_ffffu128,
                ;
            }
            d * n + 1 <= 0xffff_ffff_ffff_ffffu128
        },
        None => true,
    }
}

/// Whether a task's batch length fits the arithmetic of `dev_skip`.
pub open spec fn skippable(slot: Option<RefiningTask>) -> bool {
    slot matches Some(task) ==> task.duration_per_unit * task.total_units + 1 <= u64::MAX
}

/// What `dev_skip` makes of one slot at time `now`.
pub open spec fn skipped_slot(slot: Option<RefiningTask>, now: Timestamp) -> Option<RefiningTask> {
    match slot {
        Some(task) => Some(
            RefiningTask { started_at: skipped_start(task.duration_per_unit, task.total_units, now) as u64, ..task },
        ),
        None => None,
    }
}

impl RefiningState {
    /// The task at one station.
    pub open spec fn slot_of(self, kind: StationKind) -> Option<RefiningTask> {
        match kind {
            StationKind::Workbench => self.workbench,
            StationKind::Furnace => self.furnace,
            StationKind::Alchemy => self.alchemy,
            StationKind::Loom => self.loom,
        }
    }

    /// This state with the task at one station replaced.
    pub open spec fn with_slot(self, kind: StationKind, v: Option<RefiningTask>) -> RefiningState {
        match kind {
            StationKind::Workbench => RefiningState { workbench: v, ..self },
            StationKind::Furnace => RefiningState { furnace: v, ..self },
            StationKind::Alchemy => RefiningState { alchemy: v, ..self },
            StationKind::Loom => RefiningState { loom: v, ..self },
        }
    }

    pub fn slot(&self, kind: StationKind) -> (r: &Option<RefiningTask>)
        ensures
            *r == self.slot_of(kind),
    {
        match kind {
            StationKind::Workbench => &self.workbench,
            StationKind::Furnace => &self.furnace,
            StationKind::Alchemy => &self.alchemy,
            StationKind::Loom => &self.loom,
        }
    }

    pub fn slot_mut(&mut self, kind: StationKind) -> (r: &mut Option<RefiningTask>)
        ensures
            *r == old(self).slot_of(kind),
            *final(self) == old(self).with_slot(kind, *final(r)),
    {
        match kind {
            StationKind::Workbench => &mut self.workbench,
            StationKind::Furnace => &mut self.furnace,
            StationKind::Alchemy => &mut self.alchemy,
            StationKind::Loom => &mut self.loom,
        }
    }

    pub fn is_busy(&self, kind: StationKind) -> (b: bool)
        ensures
            b == self.slot_of(kind) is Some,
    {
        self.slot(kind).is_some()
    }

    /// Starts a batch at station `kind` at time `now` unless the station is
    /// busy; returns whether it started.
    pub fn start_at(
        &mut self,
        kind: StationKind,
        recipe_id: String,
        total_units: u32,
        duration_per_unit: DurationMs,
        now: Timestamp,
    ) -> (started: bool)
        ensures
            started == old(self).slot_of(kind) is None,
            !started ==> *final(self) == *old(self),
            started ==> *final(self) == old(self).with_slot(
                kind,
                Some(
                    RefiningTask {
                        recipe_id,
                        station: kind,
                        total_units,
                        completed_units: 0,
                        started_at: now,
                        duration_per_unit,
                    },
                ),
            ),
    {
        if self.is_busy(kind) {
            return false;
        }
        *self.slot_mut(kind) = Some(RefiningTask {
            recipe_id,
            station: kind,
            total_units,
            completed_units: 0,
            started_at: now,
            duration_per_unit,
        });
        true
    }

    /// Starts a batch at station `kind` now unless the station is busy;
    /// returns whether it started.
    pub fn start(&mut self, kind: StationKind, recipe_id: String, total_units: u32, duration_per_unit: DurationMs) -> (started: bool)
        ensures
            started == old(self).slot_of(kind) is None,
            !started ==> *final(self) == *old(self),
            started ==> (final(self).slot_of(kind) matches Some(task) && task.recipe_id == recipe_id
                && task.station == kind && task.total_units == total_units && task.completed_units == 0
                && task.duration_per_unit == duration_per_unit),
            started ==> *final(self) == old(self).with_slot(kind, final(self).slot_of(kind)),
    {
        let t = time::now();
        self.start_at(kind, recipe_id, total_units, duration_per_unit, t)
    }

    /// Back-dates every running task (as seen at `now`) so its whole batch reads as finished.
    pub fn dev_skip_at(&mut self, now: Timestamp)
        requires
            skippable(old(self).workbench),
            skippable(old(self).furnace),
            skippable(old(self).alchemy),
            skippable(old(self).loom),
        ensures
            final(self).workbench == skipped_slot(old(self).workbench, now),
            final(self).furnace == skipped_slot(old(self).furnace, now),
            final(self).alchemy == skipped_slot(old(self).alchemy, now),
            final(self).loom == skipped_slot(old(self).loom, now),
    {
        skip_slot(&mut self.workbench, now);
        skip_slot(&mut self.furnace, now);
        skip_slot(&mut self.alchemy, now);
        skip_slot(&mut self.loom, now);
    }

    /// Whether `dev_skip` can back-date every running task: each batch's
    /// length, plus one millisecond, fits a `u64`.
    pub fn can_skip(&self) -> (b: bool)
        ensures
            b == (skippable(self.workbench) && skippable(self.furnace) && skippable(self.alchemy) && skippable(
                self.loom,
            )),
    {
        slot_can_skip(&self.workbench) && slot_can_skip(&self.furnace) && slot_can_skip(&self.alchemy)
            && slot_can_skip(&self.loom)
    }

    /// Back-dates every running task so its whole batch reads as finished.
    pub fn dev_skip(&mut self)
        requires
            skippable(old(self).workbench),
            skippable(old(self).furnace),
            skippable(old(self).alchemy),
            skippable(old(self).loom),
        ensures
            exists|t: Timestamp|
                #![trigger skipped_slot(old(self).workbench, t)]
                final(self).workbench == skipped_slot(old(self).workbench, t)
                && final(self).furnace == skipped_slot(old(self).furnace, t)
                && final(self).alchemy == skipped_slot(old(self).alchemy, t)
                && final(self).loom == skipped_slot(old(self).loom, t),
    {
        let t = time::now();
        self.dev_skip_at(t);
    }
}

fn skip_slot(slot: &mut Option<RefiningTask>, now: Timestamp)
    requires
        skippable(*old(slot)),
    ensures
        *final(slot) == skipped_slot(*old(slot), now),
{
    if let Some(task) = slot {
        let needed = task.duration_per_unit * task.total_units as u64 + 1;
        task.started_at = now.saturating_sub(needed);
    }
}

// ── Station and recipe data ───────────────────────────────────────────────

/// A station description.
pub open spec fn is_station(s: RefiningStation, kind: StationKind, name: Seq<char>, description: Seq<char>, unlocked: bool) -> bool {
    &&& s.kind == kind
    &&& s.name@ == name
    &&& s.description@ == description
    &&& s.unlocked == unlocked
}

fn station(kind: StationKind, name: &str, description: &str, unlocked: bool) -> (s: RefiningStation)
    ensures
        is_station(s, kind, name@, description@, unlocked),
{
    RefiningStation { kind, name: name.to_string(), description: description.to_string(), unlocked }
}

/// The refining stations of the tavern; only the workbench starts unlocked.
pub fn register_stations() -> (stations: Vec<RefiningStation>)
    ensures
        stations@.len() == 4,
        is_station(stations@[0], StationKind::Workbench, "Workbench"@,
            "A sturdy oak bench worn smooth by years of work. Boards, bundles, and bottles take shape here."@, true),
        is_station(stations@[1], StationKind::Furnace, "Furnace"@,
            "A cold hearth waiting for ore and coals. Locked until the smith's stones are laid."@, false),
        is_station(stations@[2], StationKind::Alchemy, "Alchemy Table"@,
            "Glassware and reagent racks, all empty for now. The herbalist hasn't arrived."@, false),
        is_station(stations@[3], StationKind::Loom, "Loom"@,
            "A heavy weaving frame in the corner. Awaits fibers and a steady hand."@, false),
{
    let mut stations: Vec<RefiningStation> = Vec::new();
    stations.push(station(StationKind::Workbench, "Workbench",
        "A sturdy oak bench worn smooth by years of work. Boards, bundles, and bottles take shape here.", true));
    stations.push(station(StationKind::Furnace, "Furnace",
        "A cold hearth waiting for ore and coals. Locked until the smith's stones are laid.", false));
    stations.push(station(StationKind::Alchemy, "Alchemy Table",
        "Glassware and reagent racks, all empty for now. The herbalist hasn't arrived.", false));
    stations.push(station(StationKind::Loom, "Loom",
        "A heavy weaving frame in the corner. Awaits fibers and a steady hand.", false));
    stations
}

/// A refining recipe turning `input_qty` of one item into `output_qty` of another.
pub open spec fn is_refining_recipe(
    r: RefiningRecipe,
    id: Seq<char>,
    name: Seq<char>,
    station: StationKind,
    input_id: Seq<char>,
    input_qty: u32,
    output_id: Seq<char>,
    output_qty: u32,
    duration_per_unit: int,
) -> bool {
    &&& r.id@ == id
    &&& r.name@ == name
    &&& r.station == station
    &&& r.input_id@ == input_id
    &&& r.input_qty == input_qty
    &&& r.output_id@ == output_id
    &&& r.output_qty == output_qty
    &&& r.duration_per_unit == duration_per_unit
}

fn workbench_recipe(
    id: &str,
    name: &str,
    input_id: &str,
    input_qty: u32,
    output_id: &str,
    output_qty: u32,
    duration_per_unit: DurationMs,
) -> (r: RefiningRecipe)
    ensures
        is_refining_recipe(r, id@, name@, StationKind::Workbench, input_id@, input_qty, output_id@, output_qty, duration_per_unit as int),
{
    RefiningRecipe {
        id: id.to_string(),
        name: name.to_string(),
        station: StationKind::Workbench,
        input_id: input_id.to_string(),
        input_qty,
        output_id: output_id.to_string(),
        output_qty,
        duration_per_unit,
    }
}

/// The game's refining recipe book, recipe by recipe.
pub open spec fn is_refining_book(b: Seq<RefiningRecipe>) -> bool {
    &&& b.len() == 6
    &&& is_refining_recipe(b[0], "wood_to_planks"@, "Wood → Planks"@, StationKind::Workbench, "wood"@, 1, "planks"@, 1, 30 * SECOND)
    &&& is_refining_recipe(b[1], "wood_to_kindling"@, "Wood → Kindling"@, StationKind::Workbench, "wood"@, 1, "kindling"@, 2, 10 * SECOND)
    &&& is_refining_recipe(b[2], "herbs_to_dried"@, "Herbs → Dried Herbs"@, StationKind::Workbench, "herbs"@, 1, "dried_herbs"@, 1, 15 * SECOND)
    &&& is_refining_recipe(b[3], "herbs_to_crushed"@, "Herbs → Crushed Herbs"@, StationKind::Workbench, "herbs"@, 1, "crushed_herbs"@, 1, 20 * SECOND)
    &&& is_refining_recipe(b[4], "berries_to_dried"@, "Berries → Dried Berries"@, StationKind::Workbench, "berries"@, 1, "dried_berries"@, 1, 15 * SECOND)
    &&& is_refining_recipe(b[5], "berries_to_juice"@, "Berries → Berry Juice"@, StationKind::Workbench, "berries"@, 2, "berry_juice"@, 1, 20 * SECOND)
}

/// The refining recipes of the first phase of the game, all at the workbench.
pub fn register_recipes() -> (book: Vec<RefiningRecipe>)
    ensures
        is_refining_book(book@),
{
    let mut book: Vec<RefiningRecipe> = Vec::new();
    book.push(workbench_recipe("wood_to_planks", "Wood → Planks", "wood", 1, "planks", 1, 30 * SECOND));
    book.push(workbench_recipe("wood_to_kindling", "Wood → Kindling", "wood", 1, "kindling", 2, 10 * SECOND));
    book.push(workbench_recipe("herbs_to_dried", "Herbs → Dried Herbs", "herbs", 1, "dried_herbs", 1, 15 * SECOND));
    book.push(workbench_recipe("herbs_to_crushed", "Herbs → Crushed Herbs", "herbs", 1, "crushed_herbs", 1, 20 * SECOND));
    book.push(workbench_recipe("berries_to_dried", "Berries → Dried Berries", "berries", 1, "dried_berries", 1, 15 * SECOND));
    book.push(workbench_recipe("berries_to_juice", "Berries → Berry Juice", "berries", 2, "berry_juice", 1, 20 * SECOND));
    book
}

} // verus!
