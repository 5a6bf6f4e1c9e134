use vstd::prelude::*;

use crate::gathering::GatherLocation;
use crate::inventory::Inventory;
use crate::item::{rarity_order, rarity_rank, ItemId, ItemRegistry, Rarity};

verus! {

// ── Inventory totals ──────────────────────────────────────────────────────

/// Headline numbers of the inventory screen.
#[derive(Debug, Clone, Copy, PartialEq, Eq, Structural)]
pub struct InventoryStats {
    /// Distinct items held.
    pub unique: usize,
    /// Units held, all items together.
    pub total: u32,
    /// Gold value of everything held that the registry prices.
    pub value: u32,
}

/// Sum of the quantities of a list of entries.
pub open spec fn units_total(entries: Seq<(ItemId, u32)>) -> int
    decreases entries.len(),
{
    if entries.len() == 0 {
        0
    } else {
        units_total(entries.drop_last()) + entries.last().1
    }
}

/// Gold value of a list of entries: each known item's value times its quantity.
pub open spec fn gold_total(entries: Seq<(ItemId, u32)>, registry: ItemRegistry) -> int
    decreases entries.len(),
{
    if entries.len() == 0 {
        0
    } else {
        gold_total(entries.drop_last(), registry) + match registry.lookup(entries.last().0@) {
            Some(d) => d.gold_value * entries.last().1,
            None => 0,
        }
    }
}

proof fn lemma_totals_prefix(entries: Seq<(ItemId, u32)>, registry: ItemRegistry, n: int)
    requires
        0 <= n <= entries.len(),
    ensures
        0 <= units_total(entries.take(n)) <= units_total(entries),
        0 <= gold_total(entries.take(n), registry) <= gold_total(entries, registry),
    decreases entries.len() - n,
{
    if n < entries.len() {
        lemma_totals_prefix(entries, registry, n + 1);
        lemma_totals_nonneg(entries.take(n), registry);
        let t = entries.take(n + 1);
        assert(t.drop_last() =~= entries.take(n));
        assert(t.last() == entries[n]);
        if let Some(d) = registry.lookup(entries[n].0@) {
            assert(0 <= d.gold_value * entries[n].1) by (nonlinear_arith);
        }
    } else {
        assert(entries.take(n) =~= entries);
        lemma_totals_nonneg(entries, registry);
    }
}

proof fn lemma_totals_nonneg(entries: Seq<(ItemId, u32)>, registry: ItemRegistry)
    ensures
        0 <= units_total(entries),
        0 <= gold_total(entries, registry),
    decreases entries.len(),
{
    if entries.len() > 0 {
        lemma_totals_nonneg(entries.drop_last(), registry);
        if let Some(d) = registry.lookup(entries.last().0@) {
            assert(0 <= d.gold_value * entries.last().1) by (nonlinear_arith);
        }
    }
}

/// Whether the inventory's unit count and gold value both fit a `u32`, as
/// `inventory_stats` needs.
pub fn totals_fit(inventory: &Inventory, registry: &ItemRegistry) -> (b: bool)
    ensures
        b == (units_total(inventory.entries()) <= u32::MAX && gold_total(inventory.entries(), *registry) <= u32::MAX),
{
    let items = inventory.items();
    let mut total: u64 = 0;
    let mut value: u64 = 0;
    let mut i: usize = 0;
    while i < items.len()
        invariant
            i <= items@.len(),
            items@ == inventory.entries(),
            total == units_total(items@.take(i as int)),
            value == gold_total(items@.take(i as int), *registry),
            total <= u32::MAX,
            value <= u32::MAX,
        decreases items.len() - i,
    {
        proof {
            lemma_totals_prefix(items@, *registry, i + 1);
            let t = items@.take(i + 1);
            assert(t.drop_last() =~= items@.take(i as int));
            assert(t.last() == items@[i as int]);
        }
        total = total + items[i].1 as u64;
        let worth: u64 = match registry.get(&items[i].0) {
            Some(def) => {
                let g = def.gold_value as u64;
                let q = items[i].1 as u64;
                proof {
                    assert(g * q <= 0xffff_ffffu64 * 0xffff_ffffu64) by (nonlinear_arith)
                        requires
                            g <= 0xffff_ffffu64,
                            q <= 0xffff_ffffu64,
                    ;
                }
                g * q
            },
            None => 0,
        };
        if total > 0xffff_ffffu64 || worth > 0xffff_ffffu64 - value {
            proof {
                lemma_totals_prefix(items@, *registry, i + 1);
            }
            return false;
        }
        value = value + worth;
        i += 1;
    }
    proof {
        assert(items@.take(items@.len() as int) =~= items@);
    }
    true
}

/// Counts distinct items, units and gold value of the inventory.
pub fn inventory_stats(inventory: &Inventory, registry: &ItemRegistry) -> (stats: InventoryStats)
    requires
        units_total(inventory.entries()) <= u32::MAX,
        gold_total(inventory.entries(), *registry) <= u32::MAX,
    ensures
        stats.unique == inventory.entries().len(),
        stats.unique == inventory@.dom().len(),
        stats.total == units_total(inventory.entries()),
        stats.value == gold_total(inventory.entries(), *registry),
{
    let items = inventory.items();
    let mut total: u32 = 0;
    let mut value: u32 = 0;
    let mut i: usize = 0;
    while i < items.len()
        invariant
            i <= items@.len(),
            items@ == inventory.entries(),
            units_total(items@) <= u32::MAX,
            gold_total(items@, *registry) <= u32::MAX,
            total == units_total(items@.take(i as int)),
            value == gold_total(items@.take(i as int), *registry),
        decreases items.len() - i,
    {
        proof {
            lemma_totals_prefix(items@, *registry, i + 1);
            let t = items@.take(i + 1);
            assert(t.drop_last() =~= items@.take(i as int));
            assert(t.last() == items@[i as int]);
        }
        total = total + items[i].1;
        let worth = match registry.get(&items[i].0) {
            Some(def) => {
                proof {
                    lemma_totals_prefix(items@, *registry, i + 1);
                    assert(def.gold_value * items@[i as int].1 <= u32::MAX);
                }
                def.gold_value * items[i].1
            },
            None => 0,
        };
        value = value + worth;
        i += 1;
    }
    proof {
        assert(items@.take(items@.len() as int) =~= items@);
        lemma_distinct_dom_len(items@);
    }
    InventoryStats { unique: items.len(), total, value }
}

/// A list with distinct keys has as many entries as its map has keys.
proof fn lemma_distinct_dom_len(entries: Seq<(ItemId, u32)>)
    requires
        crate::inventory::distinct_keys(entries),
    ensures
        crate::inventory::entries_map(entries).dom().len() == entries.len(),
        crate::inventory::entries_map(entries).dom().finite(),
    decreases entries.len(),
{
    let m = crate::inventory::entries_map(entries);
    if entries.len() == 0 {
        assert(m.dom() =~= Set::<Seq<char>>::empty());
    } else {
        let rest = entries.drop_last();
        assert(crate::inventory::distinct_keys(rest));
        lemma_distinct_dom_len(rest);
        let k = entries.last().0@;
        let mr = crate::inventory::entries_map(rest);
        assert(!mr.dom().contains(k)) by {
            if mr.dom().contains(k) {
                let j = choose|j: int| 0 <= j < rest.len() && #[trigger] rest[j].0@ == k;
                assert(entries[j].0@ == entries[entries.len() - 1].0@);
            }
        }
        assert(m.dom() =~= mr.dom().insert(k)) by {
            assert forall|x: Seq<char>| m.dom().contains(x) <==> mr.dom().insert(k).contains(x) by {
                if m.dom().contains(x) && x != k {
                    let j = choose|j: int| 0 <= j < entries.len() && #[trigger] entries[j].0@ == x;
                    assert(rest[j] == entries[j]);
                }
                if mr.dom().contains(x) {
                    let j = choose|j: int| 0 <= j < rest.len() && #[trigger] rest[j].0@ == x;
                    assert(entries[j] == rest[j]);
                }
                if x == k {
                    assert(entries[entries.len() - 1].0@ == k);
                }
            }
        }
    }
}

// ── Finds of a location ───────────────────────────────────────────────────

/// Every item id a location can drop, duration by duration, guaranteed
/// entries before the random pool.
pub open spec fn location_ids(durations: Seq<crate::gathering::GatherDuration>) -> Seq<ItemId>
    decreases durations.len(),
{
    if durations.len() == 0 {
        Seq::empty()
    } else {
        let d = durations.last();
        location_ids(durations.drop_last()) + d.drop_table.guaranteed@.map_values(
            |e: crate::gathering::DropEntry| e.item_id,
        ) + d.drop_table.random_pool@.map_values(|e: crate::gathering::DropEntry| e.item_id)
    }
}

/// Adds the registered name and rarity of item `id` unless an entry of that
/// name is already listed or the registry does not know the item.
pub open spec fn note_find(seen: Seq<(String, Rarity)>, id: ItemId, registry: ItemRegistry) -> Seq<(String, Rarity)> {
    match registry.lookup(id@) {
        Some(def) => if exists|j: int| 0 <= j < seen.len() && #[trigger] seen[j].0@ == def.name@ {
            seen
        } else {
            seen.push((def.name, def.rarity))
        },
        None => seen,
    }
}

/// The distinct (name, rarity) finds of a list of item ids, in order of first appearance.
pub open spec fn finds(ids: Seq<ItemId>, registry: ItemRegistry) -> Seq<(String, Rarity)>
    decreases ids.len(),
{
    if ids.len() == 0 {
        Seq::empty()
    } else {
        note_find(finds(ids.drop_last(), registry), ids.last(), registry)
    }
}

/// No two finds carry the same name.
pub proof fn lemma_finds_distinct(ids: Seq<ItemId>, registry: ItemRegistry)
    ensures
        forall|a: int, b: int|
            0 <= a < b < finds(ids, registry).len() ==> finds(ids, registry)[a].0@ != finds(ids, registry)[b].0@,
    decreases ids.len(),
{
    if ids.len() > 0 {
        lemma_finds_distinct(ids.drop_last(), registry);
        let prev = finds(ids.drop_last(), registry);
        let cur = finds(ids, registry);
        assert forall|a: int, b: int| 0 <= a < b < cur.len() implies cur[a].0@ != cur[b].0@ by {
            if b < prev.len() {
                assert(cur[a] == prev[a] && cur[b] == prev[b]);
            } else {
                assert(cur[a] == prev[a]);
            }
        }
    }
}

/// The finds of one rarity, in the order they were found.
pub open spec fn of_rank(s: Seq<(String, Rarity)>, r: int) -> Seq<(String, Rarity)>
    decreases s.len(),
{
    if s.len() == 0 {
        Seq::empty()
    } else if rarity_rank(s.last().1) == r {
        of_rank(s.drop_last(), r).push(s.last())
    } else {
        of_rank(s.drop_last(), r)
    }
}

/// A stable ordering of finds by rarity, most common first.
pub open spec fn by_rarity(s: Seq<(String, Rarity)>) -> Seq<(String, Rarity)> {
    of_rank(s, 0) + of_rank(s, 1) + of_rank(s, 2) + of_rank(s, 3)
}

/// Unique (name, rarity) pairs from a location's drop tables, sorted by
/// rarity (most common first, ties in order of first appearance).
pub fn collect_unique_drops(location: &GatherLocation, registry: &ItemRegistry) -> (found: Vec<(String, Rarity)>)
    ensures
        found@ == by_rarity(finds(location_ids(location.durations@), *registry)),
{
    // Every item id, in table order.
    let mut ids: Vec<ItemId> = Vec::new();
    let mut d: usize = 0;
    while d < location.durations.len()
        invariant
            d <= location.durations@.len(),
            ids@ == location_ids(location.durations@.take(d as int)),
        decreases location.durations.len() - d,
    {
        let table = &location.durations[d].drop_table;
        let ghost start = ids@;
        let mut e: usize = 0;
        while e < table.guaranteed.len()
            invariant
                e <= table.guaranteed@.len(),
                ids@ == start + table.guaranteed@.take(e as int).map_values(|x: crate::gathering::DropEntry| x.item_id),
            decreases table.guaranteed.len() - e,
        {
            ids.push(table.guaranteed[e].item_id.clone());
            assert(ids@ =~= start + table.guaranteed@.take(e + 1).map_values(|x: crate::gathering::DropEntry| x.item_id));
            e += 1;
        }
        assert(table.guaranteed@.take(table.guaranteed@.len() as int) =~= table.guaranteed@);
        let ghost mid = ids@;
        let mut e: usize = 0;
        while e < table.random_pool.len()
            invariant
                e <= table.random_pool@.len(),
                ids@ == mid + table.random_pool@.take(e as int).map_values(|x: crate::gathering::DropEntry| x.item_id),
            decreases table.random_pool.len() - e,
        {
            ids.push(table.random_pool[e].item_id.clone());
            assert(ids@ =~= mid + table.random_pool@.take(e + 1).map_values(|x: crate::gathering::DropEntry| x.item_id));
            e += 1;
        }
        assert(table.random_pool@.take(table.random_pool@.len() as int) =~= table.random_pool@);
        proof {
            let t = location.durations@.take(d + 1);
            assert(t.drop_last() =~= location.durations@.take(d as int));
            assert(t.last() == location.durations@[d as int]);
        }
        d += 1;
    }
    assert(location.durations@.take(location.durations@.len() as int) =~= location.durations@);

    // Distinct finds, in order of first appearance.
    let mut seen: Vec<(String, Rarity)> = Vec::new();
    let mut i: usize = 0;
    while i < ids.len()
        invariant
            i <= ids@.len(),
            seen@ == finds(ids@.take(i as int), *registry),
        decreases ids.len() - i,
    {
        proof {
            let t = ids@.take(i + 1);
            assert(t.drop_last() =~= ids@.take(i as int));
            assert(t.last() == ids@[i as int]);
        }
        if let Some(def) = registry.get(&ids[i]) {
            let mut j: usize = 0;
            let mut dup = false;
            while j < seen.len()
                invariant_except_break
                    j <= seen@.len(),
                    !dup,
                    forall|l: int| 0 <= l < j ==> seen@[l].0@ != def.name@,
                ensures
                    dup ==> exists|l: int| 0 <= l < seen@.len() && #[trigger] seen@[l].0@ == def.name@,
                    !dup ==> forall|l: int| 0 <= l < seen@.len() ==> #[trigger] seen@[l].0@ != def.name@,
                decreases seen.len() - j,
            {
                if seen[j].0 == def.name {
                    dup = true;
                    break;
                }
                j += 1;
            }
            if !dup {
                seen.push((def.name.clone(), def.rarity));
            }
        }
        i += 1;
    }
    assert(ids@.take(ids@.len() as int) =~= ids@);

    // Stable ordering by rarity.
    let mut sorted: Vec<(String, Rarity)> = Vec::new();
    let mut r: u8 = 0;
    while r < 4
        invariant
            r <= 4,
            sorted@ == (if r == 0 { Seq::empty() } else if r == 1 { of_rank(seen@, 0) } else if r == 2 {
                of_rank(seen@, 0) + of_rank(seen@, 1)
            } else if r == 3 {
                of_rank(seen@, 0) + of_rank(seen@, 1) + of_rank(seen@, 2)
            } else {
                by_rarity(seen@)
            }),
        decreases 4 - r,
    {
        let ghost before = sorted@;
        let mut k: usize = 0;
        while k < seen.len()
            invariant
                k <= seen@.len(),
                r < 4,
                sorted@ == before + of_rank(seen@.take(k as int), r as int),
            decreases seen.len() - k,
        {
            proof {
                let t = seen@.take(k + 1);
                assert(t.drop_last() =~= seen@.take(k as int));
                assert(t.last() == seen@[k as int]);
            }
            if rarity_order(seen[k].1) == r {
                sorted.push((seen[k].0.clone(), seen[k].1));
                assert(sorted@ =~= before + of_rank(seen@.take(k + 1), r as int));
            }
            k += 1;
        }
        assert(seen@.take(seen@.len() as int) =~= seen@);
        r += 1;
    }
    sorted
}

} // verus!
