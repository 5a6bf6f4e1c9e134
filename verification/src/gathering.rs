use vstd::prelude::*;

use crate::inventory::{count_of, Inventory};
use crate::item::ItemId;
use crate::time::{self, deadline, DurationMs, Timestamp, MINUTE, SECOND};

verus! {

// ── Drop tables ───────────────────────────────────────────────────────────

#[derive(Debug, Clone)]
pub struct DropEntry {
    pub item_id: ItemId,
    pub min_qty: u32,
    pub max_qty: u32,
    /// Relative probability weight (higher = more likely).
    pub weight: u32,
}

#[derive(Debug, Clone)]
pub struct DropTable {
    /// Always dropped on completion.
    pub guaranteed: Vec<DropEntry>,
    /// Weighted random selection pool.
    pub random_pool: Vec<DropEntry>,
    /// Number of random picks from the pool.
    pub random_picks: u32,
}

/// Position of the first entry for item `k`, or -1 if there is none.
pub open spec fn key_index(m: Seq<(ItemId, u32)>, k: Seq<char>) -> int
    decreases m.len(),
{
    if m.len() == 0 {
        -1
    } else if m[0].0@ == k {
        0
    } else {
        let r = key_index(m.drop_first(), k);
        if r < 0 {
            -1
        } else {
            r + 1
        }
    }
}

/// Folds one drop into a merged list: its quantity is added to the entry
/// already held for the item, or the drop is appended as a new entry.
pub open spec fn merge_step(m: Seq<(ItemId, u32)>, e: (ItemId, u32)) -> Seq<(ItemId, u32)> {
    let j = key_index(m, e.0@);
    if j >= 0 {
        m.update(j, (m[j].0, (m[j].1 + e.1) as u32))
    } else {
        m.push(e)
    }
}

/// Drops merged so that each item appears once, in order of first appearance.
pub open spec fn merged(s: Seq<(ItemId, u32)>) -> Seq<(ItemId, u32)>
    decreases s.len(),
{
    if s.len() == 0 {
        Seq::empty()
    } else {
        merge_step(merged(s.drop_last()), s.last())
    }
}

/// Sum of all quantities in a list of drops.
pub open spec fn qty_sum(s: Seq<(ItemId, u32)>) -> int
    decreases s.len(),
{
    if s.len() == 0 {
        0
    } else {
        qty_sum(s.drop_last()) + s.last().1
    }
}

/// Sum of the quantities of item `k` in a list of drops.
pub open spec fn qty_total(s: Seq<(ItemId, u32)>, k: Seq<char>) -> int
    decreases s.len(),
{
    if s.len() == 0 {
        0
    } else {
        qty_total(s.drop_last(), k) + if s.last().0@ == k {
            s.last().1 as int
        } else {
            0
        }
    }
}

/// Quantity a merged list holds for item `k` (zero if absent).
pub open spec fn amount_of(m: Seq<(ItemId, u32)>, k: Seq<char>) -> int {
    let j = key_index(m, k);
    if j >= 0 {
        m[j].1 as int
    } else {
        0
    }
}

/// Whether some drop in the list is of item `k`.
pub open spec fn has_item(s: Seq<(ItemId, u32)>, k: Seq<char>) -> bool {
    exists|i: int| 0 <= i < s.len() && #[trigger] s[i].0@ == k
}

/// No item appears in two entries of the list.
pub open spec fn distinct_items(m: Seq<(ItemId, u32)>) -> bool {
    forall|a: int, b: int| 0 <= a < m.len() && 0 <= b < m.len() && a != b ==> m[a].0@ != m[b].0@
}

/// `key_index` is the first position holding the item, or -1 when none does.
proof fn lemma_key_index(m: Seq<(ItemId, u32)>, k: Seq<char>)
    ensures
        -1 <= key_index(m, k) < m.len(),
        key_index(m, k) == -1 <==> (forall|i: int| 0 <= i < m.len() ==> m[i].0@ != k),
        key_index(m, k) >= 0 ==> m[key_index(m, k)].0@ == k,
        forall|l: int| 0 <= l < key_index(m, k) ==> m[l].0@ != k,
    decreases m.len(),
{
    if m.len() > 0 && m[0].0@ != k {
        lemma_key_index(m.drop_first(), k);
        let r = key_index(m.drop_first(), k);
        assert forall|l: int| 0 <= l < key_index(m, k) implies m[l].0@ != k by {
            if l > 0 {
                assert(m[l] == m.drop_first()[l - 1]);
            }
        }
        if r == -1 {
            assert forall|i: int| 0 <= i < m.len() implies m[i].0@ != k by {
                if i > 0 {
                    assert(m[i] == m.drop_first()[i - 1]);
                }
            }
        }
    }
}

/// Two lists with the same item at each position have the same `key_index`.
proof fn lemma_key_index_same_keys(m1: Seq<(ItemId, u32)>, m2: Seq<(ItemId, u32)>, k: Seq<char>)
    requires
        m1.len() == m2.len(),
        forall|i: int| 0 <= i < m1.len() ==> m1[i].0@ == m2[i].0@,
    ensures
        key_index(m1, k) == key_index(m2, k),
{
    lemma_key_index(m1, k);
    lemma_key_index(m2, k);
    let a = key_index(m1, k);
    let b = key_index(m2, k);
    if a >= 0 && b >= 0 {
        if a < b {
            assert(m2[a].0@ == k);
        } else if b < a {
            assert(m1[b].0@ == k);
        }
    } else if a >= 0 {
        assert(m2[a].0@ == k);
    } else if b >= 0 {
        assert(m1[b].0@ == k);
    }
}

/// Appending an entry leaves earlier positions of other items in place.
proof fn lemma_key_index_push(m: Seq<(ItemId, u32)>, e: (ItemId, u32), k: Seq<char>)
    ensures
        key_index(m, k) >= 0 ==> key_index(m.push(e), k) == key_index(m, k),
        key_index(m, k) < 0 && e.0@ == k ==> key_index(m.push(e), k) == m.len(),
        key_index(m, k) < 0 && e.0@ != k ==> key_index(m.push(e), k) == -1,
{
    lemma_key_index(m, k);
    lemma_key_index(m.push(e), k);
    let a = key_index(m, k);
    let b = key_index(m.push(e), k);
    if a >= 0 {
        assert(m.push(e)[a] == m[a]);
        if b < a {
            assert(m.push(e)[b] == m[b]);
        }
    } else {
        if b >= 0 && b < m.len() {
            assert(m.push(e)[b] == m[b]);
        }
        if e.0@ == k {
            assert(m.push(e)[m.len() as int].0@ == k);
        }
    }
}

proof fn lemma_qty_total_le_sum(s: Seq<(ItemId, u32)>, k: Seq<char>)
    ensures
        0 <= qty_total(s, k) <= qty_sum(s),
    decreases s.len(),
{
    if s.len() > 0 {
        lemma_qty_total_le_sum(s.drop_last(), k);
    }
}

/// Merging keeps items distinct and, when the quantities fit a `u32`, holds
/// for each item exactly the sum of its drops.
pub proof fn lemma_merged(s: Seq<(ItemId, u32)>)
    requires
        qty_sum(s) <= u32::MAX,
    ensures
        distinct_items(merged(s)),
        forall|k: Seq<char>| #[trigger] amount_of(merged(s), k) == qty_total(s, k),
        forall|i: int| 0 <= i < merged(s).len() ==> merged(s)[i].1 > 0 || qty_total(s, #[trigger] merged(s)[i].0@) == 0,
        forall|k: Seq<char>| #[trigger] key_index(merged(s), k) >= 0 <==> has_item(s, k),
        (forall|i: int| 0 <= i < s.len() ==> #[trigger] s[i].1 > 0) ==> forall|i: int|
            0 <= i < merged(s).len() ==> #[trigger] merged(s)[i].1 > 0,
    decreases s.len(),
{
    if s.len() > 0 {
        let s0 = s.drop_last();
        let e = s.last();
        lemma_merged(s0);
        let m = merged(s0);
        let j = key_index(m, e.0@);
        lemma_key_index(m, e.0@);
        assert(merged(s) == merge_step(m, e));
        assert forall|k: Seq<char>| has_item(s, k) <==> (has_item(s0, k) || e.0@ == k) by {
            if has_item(s, k) {
                let i = choose|i: int| 0 <= i < s.len() && #[trigger] s[i].0@ == k;
                if i < s0.len() {
                    assert(s0[i] == s[i]);
                }
            }
            if has_item(s0, k) {
                let i = choose|i: int| 0 <= i < s0.len() && #[trigger] s0[i].0@ == k;
                assert(s[i] == s0[i]);
            }
            if e.0@ == k {
                assert(s[s.len() - 1] == e);
            }
        }
        if forall|i: int| 0 <= i < s.len() ==> #[trigger] s[i].1 > 0 {
            assert forall|i: int| 0 <= i < s0.len() implies #[trigger] s0[i].1 > 0 by {
                assert(s0[i] == s[i]);
            }
            assert(e.1 > 0) by {
                assert(s[s.len() - 1] == e);
            }
        }
        if j >= 0 {
            lemma_qty_total_le_sum(s0, e.0@);
            assert(amount_of(m, e.0@) == qty_total(s0, e.0@));
            let m2 = m.update(j, (m[j].0, (m[j].1 + e.1) as u32));
            assert(m2 == merged(s));
            assert forall|a: int, b: int| 0 <= a < m2.len() && 0 <= b < m2.len() && a != b implies m2[a].0@ != m2[b].0@ by {
                assert(m2[a].0@ == m[a].0@);
                assert(m2[b].0@ == m[b].0@);
            }
            assert(qty_sum(s) == qty_sum(s0) + e.1);
            assert forall|k: Seq<char>| #[trigger] amount_of(m2, k) == qty_total(s, k) by {
                lemma_key_index_same_keys(m, m2, k);
                lemma_key_index(m, k);
                assert(amount_of(m, k) == qty_total(s0, k));
                assert(qty_total(s, k) == qty_total(s0, k) + if e.0@ == k { e.1 as int } else { 0 });
                if k == e.0@ {
                    assert(m2[j].1 == m[j].1 + e.1);
                } else if key_index(m, k) >= 0 {
                    assert(m2[key_index(m, k)] == m[key_index(m, k)]);
                }
            }
            assert forall|i: int| 0 <= i < m2.len() implies m2[i].1 > 0 || qty_total(s, #[trigger] m2[i].0@) == 0 by {
                let k = m2[i].0@;
                lemma_key_index_same_keys(m, m2, k);
                lemma_key_index(m, k);
                lemma_key_index(m2, k);
                assert(amount_of(m2, k) == qty_total(s, k));
                let ki = key_index(m2, k);
                if ki != i {
                    assert(m[ki].0@ == m[i].0@);
                }
            }
            assert forall|k: Seq<char>| #[trigger] key_index(m2, k) >= 0 <==> has_item(s, k) by {
                lemma_key_index_same_keys(m, m2, k);
                if k == e.0@ {
                    assert(key_index(m, k) >= 0);
                }
            }
        } else {
            let m2 = m.push(e);
            assert(m2 == merged(s));
            assert forall|a: int, b: int| 0 <= a < m2.len() && 0 <= b < m2.len() && a != b implies m2[a].0@ != m2[b].0@ by {
                if a == m.len() {
                    assert(m2[b] == m[b]);
                } else if b == m.len() {
                    assert(m2[a] == m[a]);
                } else {
                    assert(m2[a] == m[a]);
                    assert(m2[b] == m[b]);
                }
            }
            assert forall|k: Seq<char>| #[trigger] amount_of(m2, k) == qty_total(s, k) by {
                lemma_key_index_push(m, e, k);
                lemma_key_index(m, k);
                assert(amount_of(m, k) == qty_total(s0, k));
                assert(qty_total(s, k) == qty_total(s0, k) + if e.0@ == k { e.1 as int } else { 0 });
                assert(m2[m.len() as int] == e);
                if key_index(m, k) >= 0 {
                    assert(m2[key_index(m, k)] == m[key_index(m, k)]);
                }
            }
            assert forall|i: int| 0 <= i < m2.len() implies m2[i].1 > 0 || qty_total(s, #[trigger] m2[i].0@) == 0 by {
                let k = m2[i].0@;
                lemma_key_index_push(m, e, k);
                lemma_key_index(m2, k);
                assert(amount_of(m2, k) == qty_total(s, k));
                let ki = key_index(m2, k);
                if ki != i {
                    assert(m2[ki].0@ == m2[i].0@);
                }
            }
            assert forall|k: Seq<char>| #[trigger] key_index(m2, k) >= 0 <==> has_item(s, k) by {
                lemma_key_index_push(m, e, k);
            }
            if forall|i: int| 0 <= i < s.len() ==> #[trigger] s[i].1 > 0 {
                assert forall|i: int| 0 <= i < m2.len() implies #[trigger] m2[i].1 > 0 by {
                    if i < m.len() {
                        assert(m2[i] == m[i]);
                    }
                }
            }
        }
    }
}

/// Position of the first entry for item `id` in `m`.
fn find_item(m: &Vec<(ItemId, u32)>, id: &ItemId) -> (r: Option<usize>)
    ensures
        match r {
            Some(j) => j as int == key_index(m@, id@),
            None => key_index(m@, id@) == -1,
        },
{
    proof {
        lemma_key_index(m@, id@);
    }
    let mut j: usize = 0;
    while j < m.len()
        invariant
            j <= m@.len(),
            forall|l: int| 0 <= l < j ==> m@[l].0@ != id@,
        decreases m.len() - j,
    {
        if m[j].0 == *id {
            proof {
                lemma_key_index(m@, id@);
                let r = key_index(m@, id@);
                if r >= 0 && r > j {
                    assert(m@[j as int].0@ == id@);
                }
            }
            return Some(j);
        }
        j += 1;
    }
    proof {
        lemma_key_index(m@, id@);
    }
    None
}

/// A count held at the largest a `u32` can hold.
pub open spec fn capped(n: int) -> int {
    if n <= u32::MAX {
        n
    } else {
        u32::MAX as int
    }
}

/// The stock `inv1` is `inv0` with `drops` (distinct items) put in: each
/// dropped item's count grows by its quantity, held at the largest a `u32`
/// can hold, and every other count stays.
pub open spec fn drops_stored(inv0: Map<Seq<char>, u32>, inv1: Map<Seq<char>, u32>, drops: Seq<(ItemId, u32)>) -> bool {
    &&& forall|j: int|
        0 <= j < drops.len() ==> count_of(inv1, #[trigger] drops[j].0@) == capped(count_of(inv0, drops[j].0@) + drops[j].1)
    &&& forall|k: Seq<char>| !has_item(drops, k) ==> #[trigger] count_of(inv1, k) == count_of(inv0, k)
}

/// Puts what an expedition brought back into the stock: each drop is
/// added, as much of it as the item's count can still hold; other items
/// keep their counts.
pub fn store_drops(inventory: &mut Inventory, drops: &Vec<(ItemId, u32)>)
    requires
        distinct_items(drops@),
    ensures
        drops_stored(old(inventory)@, final(inventory)@, drops@),
{
    let ghost inv0 = inventory@;
    let mut i: usize = 0;
    while i < drops.len()
        invariant
            i <= drops@.len(),
            distinct_items(drops@),
            forall|j: int|
                0 <= j < i ==> count_of(inventory@, #[trigger] drops@[j].0@) == capped(count_of(inv0, drops@[j].0@) + drops@[j].1),
            forall|k: Seq<char>| !has_item(drops@.take(i as int), k) ==> #[trigger] count_of(inventory@, k) == count_of(inv0, k),
        decreases drops.len() - i,
    {
        let id = &drops[i].0;
        let qty = drops[i].1;
        let ghost before = inventory@;
        proof {
            if has_item(drops@.take(i as int), id@) {
                let j = choose|j: int| 0 <= j < drops@.take(i as int).len() && #[trigger] drops@.take(i as int)[j].0@ == id@;
                assert(drops@[j].0@ == drops@[i as int].0@);
            }
        }
        let held = inventory.count(id);
        let room = u32::MAX - held;
        let amount = if qty <= room { qty } else { room };
        inventory.add(id, amount);
        proof {
            assert forall|j: int| 0 <= j < i + 1 implies count_of(inventory@, #[trigger] drops@[j].0@) == capped(
                count_of(inv0, drops@[j].0@) + drops@[j].1,
            ) by {
                if j < i {
                    assert(drops@[j].0@ != id@);
                }
            }
            assert forall|k: Seq<char>| !has_item(drops@.take(i + 1), k) implies #[trigger] count_of(inventory@, k) == count_of(inv0, k) by {
                assert(drops@.take(i + 1)[i as int] == drops@[i as int]);
                assert(k != id@);
                if has_item(drops@.take(i as int), k) {
                    let j = choose|j: int| 0 <= j < drops@.take(i as int).len() && #[trigger] drops@.take(i as int)[j].0@ == k;
                    assert(drops@.take(i + 1)[j] == drops@.take(i as int)[j]);
                    assert(has_item(drops@.take(i + 1), k));
                }
                assert(count_of(before, k) == count_of(inv0, k));
                assert(count_of(inventory@, k) == count_of(before, k));
            }
        }
        i += 1;
    }
    proof {
        assert(drops@.take(drops@.len() as int) =~= drops@);
    }
}

/// Merges drops of the same item into one entry (quantities added), keeping
/// the order in which items first appear.
pub fn merge_drops(drops: Vec<(ItemId, u32)>) -> (m: Vec<(ItemId, u32)>)
    requires
        qty_sum(drops@) <= u32::MAX,
    ensures
        m@ == merged(drops@),
{
    let mut out: Vec<(ItemId, u32)> = Vec::new();
    let mut i: usize = 0;
    proof {
        lemma_qty_sum_prefix(drops@, 0);
        assert(drops@.take(0) =~= Seq::<(ItemId, u32)>::empty());
    }
    while i < drops.len()
        invariant
            i <= drops@.len(),
            qty_sum(drops@) <= u32::MAX,
            out@ == merged(drops@.take(i as int)),
            qty_sum(drops@.take(i as int)) <= qty_sum(drops@),
        decreases drops.len() - i,
    {
        let ghost pre = drops@.take(i as int);
        let ghost post = drops@.take(i + 1);
        proof {
            assert(post.drop_last() =~= pre);
            assert(post.last() == drops@[i as int]);
            lemma_qty_sum_prefix(drops@, i + 1);
            lemma_merged(pre);
            lemma_qty_total_le_sum(pre, drops@[i as int].0@);
            lemma_key_index(out@, drops@[i as int].0@);
        }
        let id = drops[i].0.clone();
        let qty = drops[i].1;
        match find_item(&out, &id) {
            Some(j) => {
                proof {
                    assert(amount_of(out@, id@) == qty_total(pre, id@));
                }
                let key = out[j].0.clone();
                let n = out[j].1 + qty;
                out.set(j, (key, n));
            },
            None => {
                out.push((id, qty));
            },
        }
        i += 1;
    }
    assert(drops@.take(drops@.len() as int) =~= drops@);
    out
}

proof fn lemma_qty_sum_prefix(s: Seq<(ItemId, u32)>, n: int)
    requires
        0 <= n <= s.len(),
    ensures
        qty_sum(s.take(n)) <= qty_sum(s),
    decreases s.len() - n,
{
    if n < s.len() {
        lemma_qty_sum_prefix(s, n + 1);
        assert(s.take(n + 1).drop_last() =~= s.take(n));
        assert(s.take(n + 1).last() == s[n]);
    } else {
        assert(s.take(n) =~= s);
    }
}

/// Sum of the weights of the first `n` entries of a pool.
pub open spec fn weight_prefix(pool: Seq<DropEntry>, n: int) -> int
    decreases n,
{
    if n <= 0 || n > pool.len() {
        0
    } else {
        weight_prefix(pool, n - 1) + pool[n - 1].weight
    }
}

/// Sum of the weights of all entries of a pool.
pub open spec fn total_weight(pool: Seq<DropEntry>) -> int {
    weight_prefix(pool, pool.len() as int)
}

/// The first entry, from position `i` on, whose running weight exceeds `roll`.
pub open spec fn pick_from(pool: Seq<DropEntry>, roll: int, i: int) -> Option<int>
    decreases pool.len() - i,
{
    if i < 0 || i >= pool.len() {
        None
    } else if roll < weight_prefix(pool, i + 1) {
        Some(i)
    } else {
        pick_from(pool, roll, i + 1)
    }
}

/// The pool entry a roll selects: the first whose running weight exceeds it.
pub open spec fn picked_index(pool: Seq<DropEntry>, roll: int) -> Option<int> {
    pick_from(pool, roll, 0)
}

proof fn lemma_weight_prefix_mono(pool: Seq<DropEntry>, a: int, b: int)
    requires
        0 <= a <= b <= pool.len(),
    ensures
        0 <= weight_prefix(pool, a) <= weight_prefix(pool, b),
    decreases b - a,
{
    if a < b {
        lemma_weight_prefix_mono(pool, a, b - 1);
    } else {
        lemma_weight_prefix_nonneg(pool, a);
    }
}

proof fn lemma_weight_prefix_nonneg(pool: Seq<DropEntry>, n: int)
    ensures
        0 <= weight_prefix(pool, n),
    decreases n,
{
    if n > 0 && n <= pool.len() {
        lemma_weight_prefix_nonneg(pool, n - 1);
    }
}

/// A roll below the total weight always selects an entry, and a selected
/// entry has positive weight.
pub proof fn lemma_pick(pool: Seq<DropEntry>, roll: int, i: int)
    requires
        0 <= i <= pool.len(),
        weight_prefix(pool, i) <= roll,
    ensures
        roll < total_weight(pool) ==> pick_from(pool, roll, i) is Some,
        pick_from(pool, roll, i) matches Some(j) ==> i <= j < pool.len() && pool[j].weight > 0,
    decreases pool.len() - i,
{
    if i < pool.len() && roll >= weight_prefix(pool, i + 1) {
        lemma_pick(pool, roll, i + 1);
    }
    if i == pool.len() {
        assert(total_weight(pool) == weight_prefix(pool, i));
    }
}

/// Index of the pool entry that `roll` selects: the first entry whose running
/// weight exceeds it; `None` if the roll reaches past the total.
pub fn pick_weighted(pool: &Vec<DropEntry>, roll: u32) -> (r: Option<usize>)
    requires
        total_weight(pool@) <= u32::MAX,
    ensures
        match r {
            Some(j) => picked_index(pool@, roll as int) == Some(j as int),
            None => picked_index(pool@, roll as int) is None,
        },
{
    let mut cumulative: u32 = 0;
    let mut i: usize = 0;
    while i < pool.len()
        invariant
            i <= pool@.len(),
            total_weight(pool@) <= u32::MAX,
            cumulative == weight_prefix(pool@, i as int),
            picked_index(pool@, roll as int) == pick_from(pool@, roll as int, i as int),
        decreases pool.len() - i,
    {
        proof {
            lemma_weight_prefix_mono(pool@, i + 1, pool@.len() as int);
        }
        cumulative = cumulative + pool[i].weight;
        if roll < cumulative {
            return Some(i);
        }
        i += 1;
    }
    None
}

/// Sum of `max_qty` over the first `n` entries.
pub open spec fn max_qty_sum(entries: Seq<DropEntry>, n: int) -> int
    decreases n,
{
    if n <= 0 || n > entries.len() {
        0
    } else {
        max_qty_sum(entries, n - 1) + entries[n - 1].max_qty
    }
}

/// Largest `max_qty` among the first `n` entries that can be picked (positive weight).
pub open spec fn pool_max_qty(pool: Seq<DropEntry>, n: int) -> int
    decreases n,
{
    if n <= 0 || n > pool.len() {
        0
    } else {
        let rest = pool_max_qty(pool, n - 1);
        if pool[n - 1].weight > 0 && pool[n - 1].max_qty > rest {
            pool[n - 1].max_qty as int
        } else {
            rest
        }
    }
}

/// The most a roll of the table can yield in total: every guaranteed entry
/// at its maximum plus every random pick at the largest pickable maximum.
pub open spec fn max_yield(t: DropTable) -> int {
    max_qty_sum(t.guaranteed@, t.guaranteed@.len() as int) + t.random_picks * pool_max_qty(
        t.random_pool@,
        t.random_pool@.len() as int,
    )
}

/// Whether `roll` can run on the table without an empty quantity range or
/// an arithmetic overflow.
pub open spec fn rollable(t: DropTable) -> bool {
    &&& forall|i: int| 0 <= i < t.guaranteed@.len() ==> #[trigger] t.guaranteed@[i].min_qty <= t.guaranteed@[i].max_qty
    &&& forall|i: int|
        0 <= i < t.random_pool@.len() && t.random_pool@[i].weight > 0 ==> #[trigger] t.random_pool@[i].min_qty
            <= t.random_pool@[i].max_qty
    &&& total_weight(t.random_pool@) <= u32::MAX
    &&& max_yield(t) <= u32::MAX
}

proof fn lemma_pool_max(pool: Seq<DropEntry>, n: int, j: int)
    requires
        0 <= j < n <= pool.len(),
        pool[j].weight > 0,
    ensures
        pool[j].max_qty <= pool_max_qty(pool, n),
    decreases n,
{
    if j < n - 1 {
        lemma_pool_max(pool, n - 1, j);
    }
}

proof fn lemma_pool_max_nonneg(pool: Seq<DropEntry>, n: int)
    ensures
        0 <= pool_max_qty(pool, n),
    decreases n,
{
    if n > 0 && n <= pool.len() {
        lemma_pool_max_nonneg(pool, n - 1);
    }
}

proof fn lemma_max_qty_sum_mono(entries: Seq<DropEntry>, a: int, b: int)
    requires
        0 <= a <= b <= entries.len(),
    ensures
        0 <= max_qty_sum(entries, a) <= max_qty_sum(entries, b),
    decreases b - a,
{
    if a < b {
        lemma_max_qty_sum_mono(entries, a, b - 1);
    } else {
        lemma_max_qty_sum_nonneg(entries, a);
    }
}

proof fn lemma_max_qty_sum_nonneg(entries: Seq<DropEntry>, n: int)
    ensures
        0 <= max_qty_sum(entries, n),
    decreases n,
{
    if n > 0 && n <= entries.len() {
        lemma_max_qty_sum_nonneg(entries, n - 1);
    }
}

/// The values a roll of a table draws: a quantity for each guaranteed
/// entry, then for each random pick the weight roll and the quantity.
pub struct RollDraws {
    pub guaranteed: Vec<u32>,
    pub picks: Vec<(u32, u32)>,
}

/// Drops of the first `n` guaranteed entries for the drawn quantities `q`
/// (a zero quantity drops nothing).
pub open spec fn guaranteed_drops(g: Seq<DropEntry>, q: Seq<u32>, n: int) -> Seq<(ItemId, u32)>
    decreases n,
{
    if n <= 0 || n > g.len() {
        Seq::empty()
    } else {
        let prev = guaranteed_drops(g, q, n - 1);
        if q[n - 1] > 0 {
            prev.push((g[n - 1].item_id, q[n - 1]))
        } else {
            prev
        }
    }
}

/// Drops of the first `n` random picks: each roll selects a pool entry by
/// weight, which drops the drawn quantity (a zero quantity drops nothing).
pub open spec fn pick_drops(pool: Seq<DropEntry>, picks: Seq<(u32, u32)>, n: int) -> Seq<(ItemId, u32)>
    decreases n,
{
    if n <= 0 || n > picks.len() {
        Seq::empty()
    } else {
        let prev = pick_drops(pool, picks, n - 1);
        match picked_index(pool, picks[n - 1].0 as int) {
            Some(j) => if picks[n - 1].1 > 0 {
                prev.push((pool[j].item_id, picks[n - 1].1))
            } else {
                prev
            },
            None => prev,
        }
    }
}

/// Every drop of a roll with the given draws, before merging.
pub open spec fn raw_drops(t: DropTable, gq: Seq<u32>, picks: Seq<(u32, u32)>) -> Seq<(ItemId, u32)> {
    guaranteed_drops(t.guaranteed@, gq, t.guaranteed@.len() as int) + pick_drops(t.random_pool@, picks, picks.len() as int)
}

/// Whether the draws are ones a roll of the table can make: each guaranteed
/// quantity in its entry's range; `random_picks` picks when the pool has
/// weight (none otherwise), each roll below the total weight and each
/// quantity in the range of the entry it selects.
pub open spec fn draws_fit(t: DropTable, gq: Seq<u32>, picks: Seq<(u32, u32)>) -> bool {
    &&& gq.len() == t.guaranteed@.len()
    &&& forall|i: int| 0 <= i < gq.len() ==> t.guaranteed@[i].min_qty <= #[trigger] gq[i] <= t.guaranteed@[i].max_qty
    &&& picks.len() == if total_weight(t.random_pool@) > 0 {
        t.random_picks as int
    } else {
        0
    }
    &&& forall|p: int|
        0 <= p < picks.len() ==> (#[trigger] picks[p]).0 < total_weight(t.random_pool@) && (picked_index(
            t.random_pool@,
            picks[p].0 as int,
        ) matches Some(j) ==> t.random_pool@[j].min_qty <= picks[p].1 <= t.random_pool@[j].max_qty)
}

/// Whether item `k` can drop from the table: a guaranteed entry names it, or
/// the table makes random picks and a pool entry of positive weight names it.
pub open spec fn droppable(t: DropTable, k: Seq<char>) -> bool {
    ||| exists|i: int| 0 <= i < t.guaranteed@.len() && #[trigger] t.guaranteed@[i].item_id@ == k
    ||| t.random_picks > 0 && exists|i: int|
        0 <= i < t.random_pool@.len() && t.random_pool@[i].weight > 0 && #[trigger] t.random_pool@[i].item_id@ == k
}

/// Sum of `max_qty` over the first `n` entries naming item `k`.
pub open spec fn item_max_sum(entries: Seq<DropEntry>, n: int, k: Seq<char>) -> int
    decreases n,
{
    if n <= 0 || n > entries.len() {
        0
    } else {
        item_max_sum(entries, n - 1, k) + if entries[n - 1].item_id@ == k {
            entries[n - 1].max_qty as int
        } else {
            0
        }
    }
}

/// What every roll of the table gives: items distinct, quantities positive,
/// every item droppable, each guaranteed entry's item at least at its
/// minimum, and each item at most its guaranteed maximums plus one pool
/// maximum per pick.
pub open spec fn roll_outcome(t: DropTable, drops: Seq<(ItemId, u32)>) -> bool {
    &&& distinct_items(drops)
    &&& forall|i: int| 0 <= i < drops.len() ==> #[trigger] drops[i].1 > 0
    &&& forall|i: int| 0 <= i < drops.len() ==> droppable(t, #[trigger] drops[i].0@)
    &&& forall|i: int|
        0 <= i < t.guaranteed@.len() ==> amount_of(drops, #[trigger] t.guaranteed@[i].item_id@) >= t.guaranteed@[i].min_qty
    &&& forall|i: int|
        0 <= i < t.guaranteed@.len() && t.guaranteed@[i].min_qty > 0 ==> key_index(
            drops,
            #[trigger] t.guaranteed@[i].item_id@,
        ) >= 0
    &&& forall|k: Seq<char>|
        #[trigger] amount_of(drops, k) <= item_max_sum(t.guaranteed@, t.guaranteed@.len() as int, k) + t.random_picks
            * pool_max_qty(t.random_pool@, t.random_pool@.len() as int)
}

proof fn lemma_item_max_sum_nonneg(entries: Seq<DropEntry>, n: int, k: Seq<char>)
    ensures
        0 <= item_max_sum(entries, n, k),
    decreases n,
{
    if n > 0 && n <= entries.len() {
        lemma_item_max_sum_nonneg(entries, n - 1, k);
    }
}

impl DropTable {
    /// Whether `roll` can run on the table: no guaranteed entry and no
    /// pickable pool entry has a minimum above its maximum, the pool's total
    /// weight fits a `u32`, and so does the most a roll can yield.
    pub fn is_rollable(&self) -> (b: bool)
        ensures
            b == rollable(*self),
    {
        let ghost g = self.guaranteed@;
        let ghost p = self.random_pool@;
        proof {
            lemma_pool_max_nonneg(p, p.len() as int);
        }
        let mut gsum: u64 = 0;
        let mut i: usize = 0;
        while i < self.guaranteed.len()
            invariant
                g == self.guaranteed@,
                p == self.random_pool@,
                i <= g.len(),
                gsum == max_qty_sum(g, i as int),
                gsum <= u32::MAX,
                forall|j: int| 0 <= j < i ==> #[trigger] g[j].min_qty <= g[j].max_qty,
            decreases self.guaranteed.len() - i,
        {
            let e = &self.guaranteed[i];
            if e.min_qty > e.max_qty {
                return false;
            }
            gsum = gsum + e.max_qty as u64;
            if gsum > 0xffff_ffffu64 {
                proof {
                    assert(gsum == max_qty_sum(g, i + 1));
                    lemma_max_qty_sum_mono(g, i + 1, g.len() as int);
                    lemma_pool_max_nonneg(p, p.len() as int);
                    let pm = pool_max_qty(p, p.len() as int);
                    assert(self.random_picks * pm >= 0) by (nonlinear_arith)
                        requires
                            pm >= 0,
                    ;
                    assert(max_yield(*self) > u32::MAX);
                }
                return false;
            }
            i += 1;
        }
        let mut wsum: u64 = 0;
        let mut pmax: u32 = 0;
        let mut k: usize = 0;
        while k < self.random_pool.len()
            invariant
                p == self.random_pool@,
                k <= p.len(),
                wsum == weight_prefix(p, k as int),
                wsum <= u32::MAX,
                pmax == pool_max_qty(p, k as int),
                forall|j: int| 0 <= j < k && p[j].weight > 0 ==> #[trigger] p[j].min_qty <= p[j].max_qty,
            decreases self.random_pool.len() - k,
        {
            let e = &self.random_pool[k];
            if e.weight > 0 && e.min_qty > e.max_qty {
                return false;
            }
            wsum = wsum + e.weight as u64;
            if wsum > 0xffff_ffffu64 {
                proof {
                    lemma_weight_prefix_mono(p, k + 1, p.len() as int);
                }
                return false;
            }
            if e.weight > 0 && e.max_qty > pmax {
                pmax = e.max_qty;
            }
            k += 1;
        }
        let picks: u128 = self.random_picks as u128;
        let top: u128 = pmax as u128;
        proof {
            assert(picks * top <= 0xffff_ffffu128 * 0xffff_ffffu128) by (nonlinear_arith)
                requires
                    picks <= 0xffff_ffffu128,
                    top <= 0xffff_ffffu128,
            ;
        }
        let most: u128 = gsum as u128 + picks * top;
        most <= 0xffff_ffffu128
    }

    /// Rolls the table with the given draws: every guaranteed entry drops its
    /// drawn quantity, then each pick drops its quantity of the pool entry
    /// its roll selects; zero quantities are skipped and drops of the same
    /// item are merged, in order of first appearance.
    #[verifier::spinoff_prover]
    pub fn roll_with(&self, draws: &RollDraws) -> (drops: Vec<(ItemId, u32)>)
        requires
            rollable(*self),
            draws_fit(*self, draws.guaranteed@, draws.picks@),
        ensures
            drops@ == merged(raw_drops(*self, draws.guaranteed@, draws.picks@)),
            roll_outcome(*self, drops@),
    {
        let ghost gs = self.guaranteed@;
        let ghost pool = self.random_pool@;
        let ghost gq = draws.guaranteed@;
        let ghost pk = draws.picks@;
        let mut raw: Vec<(ItemId, u32)> = Vec::new();
        let ghost gmax = max_qty_sum(gs, gs.len() as int);
        let ghost pmax = pool_max_qty(pool, pool.len() as int);
        proof {
            lemma_pool_max_nonneg(pool, pool.len() as int);
            assert(0 <= self.random_picks * pmax) by (nonlinear_arith)
                requires
                    0 <= pmax,
            ;
        }

        // Guaranteed drops
        let mut g: usize = 0;
        while g < self.guaranteed.len()
            invariant
                gs == self.guaranteed@,
                pool == self.random_pool@,
                gq == draws.guaranteed@,
                g <= gs.len(),
                rollable(*self),
                draws_fit(*self, gq, pk),
                gmax == max_qty_sum(gs, gs.len() as int),
                pmax == pool_max_qty(pool, pool.len() as int),
                0 <= self.random_picks * pmax,
                raw@ == guaranteed_drops(gs, gq, g as int),
                qty_sum(raw@) <= max_qty_sum(gs, g as int),
                forall|k: Seq<char>| #[trigger] qty_total(raw@, k) <= item_max_sum(gs, g as int, k),
                forall|i: int| 0 <= i < g ==> qty_total(raw@, #[trigger] gs[i].item_id@) >= gs[i].min_qty,
                forall|i: int| 0 <= i < raw@.len() ==> #[trigger] raw@[i].1 > 0,
                forall|i: int| 0 <= i < raw@.len() ==> droppable(*self, #[trigger] raw@[i].0@),
                forall|i: int| 0 <= i < g && gs[i].min_qty > 0 ==> has_item(raw@, #[trigger] gs[i].item_id@),
            decreases gs.len() - g,
        {
            proof {
                lemma_max_qty_sum_mono(gs, g + 1, gs.len() as int);
            }
            let entry = &self.guaranteed[g];
            let qty = draws.guaranteed[g];
            assert(qty == gq[g as int]);
            let ghost before = raw@;
            if qty > 0 {
                raw.push((entry.item_id.clone(), qty));
                proof {
                    assert(raw@.drop_last() =~= before);
                    assert(raw@[raw@.len() - 1].0@ == gs[g as int].item_id@);
                    assert forall|i: int| 0 <= i < raw@.len() implies droppable(*self, #[trigger] raw@[i].0@) by {
                        if i < before.len() {
                            assert(raw@[i] == before[i]);
                        } else {
                            assert(gs[g as int].item_id@ == raw@[i].0@);
                        }
                    }
                    assert forall|i: int| 0 <= i < g + 1 && gs[i].min_qty > 0 implies has_item(raw@, #[trigger] gs[i].item_id@) by {
                        if i < g {
                            let w = choose|w: int| 0 <= w < before.len() && #[trigger] before[w].0@ == gs[i].item_id@;
                            assert(raw@[w] == before[w]);
                        } else {
                            assert(raw@[raw@.len() - 1].0@ == gs[i].item_id@);
                        }
                    }
                }
            }
            proof {
                assert(gs[g as int].min_qty <= gq[g as int] <= gs[g as int].max_qty);
                assert forall|k: Seq<char>| #[trigger] qty_total(raw@, k) <= item_max_sum(gs, g + 1, k) by {
                    lemma_item_max_sum_nonneg(gs, g as int, k);
                    assert(qty_total(before, k) <= item_max_sum(gs, g as int, k));
                    if qty > 0 {
                        assert(raw@.drop_last() =~= before);
                        assert(raw@.last().0@ == gs[g as int].item_id@);
                        assert(raw@.last().1 == qty);
                    } else {
                        assert(raw@ == before);
                    }
                }
                assert forall|i: int| 0 <= i < g + 1 implies qty_total(raw@, #[trigger] gs[i].item_id@) >= gs[i].min_qty by {
                    lemma_qty_total_le_sum(before, gs[i].item_id@);
                }
            }
            g += 1;
        }

        // Random picks
        let ghost graw = raw@;
        if self.random_pool.len() > 0 {
            let pool_total = pool_weight(&self.random_pool);
            if pool_total > 0 {
                let mut p: u32 = 0;
                while p < self.random_picks
                    invariant
                        gs == self.guaranteed@,
                        pool == self.random_pool@,
                        pk == draws.picks@,
                        rollable(*self),
                        draws_fit(*self, gq, pk),
                        pool_total == total_weight(pool),
                        pool_total > 0,
                        pk.len() == self.random_picks,
                        p <= self.random_picks,
                        graw == guaranteed_drops(gs, gq, gs.len() as int),
                        raw@ == graw + pick_drops(pool, pk, p as int),
                        pmax == pool_max_qty(pool, pool.len() as int),
                        qty_sum(raw@) <= gmax + p * pmax,
                        gmax + self.random_picks * pmax <= u32::MAX,
                        0 <= pmax,
                        forall|k: Seq<char>|
                            #[trigger] qty_total(raw@, k) <= item_max_sum(gs, gs.len() as int, k) + p * pmax,
                        forall|i: int| 0 <= i < gs.len() ==> qty_total(raw@, #[trigger] gs[i].item_id@) >= gs[i].min_qty,
                        forall|i: int| 0 <= i < raw@.len() ==> #[trigger] raw@[i].1 > 0,
                        forall|i: int| 0 <= i < raw@.len() ==> droppable(*self, #[trigger] raw@[i].0@),
                        forall|i: int| 0 <= i < gs.len() && gs[i].min_qty > 0 ==> has_item(raw@, #[trigger] gs[i].item_id@),
                    decreases self.random_picks - p,
                {
                    let (roll, qty) = draws.picks[p as usize];
                    assert(pk[p as int] == (roll, qty));
                    proof {
                        lemma_pick(pool, roll as int, 0);
                    }
                    let ghost before = raw@;
                    proof {
                        assert(p * pmax <= (p + 1) * pmax) by (nonlinear_arith)
                            requires
                                0 <= pmax,
                        ;
                    }
                    let picked = pick_weighted(&self.random_pool, roll);
                    if let Some(j) = picked {
                        let entry = &self.random_pool[j];
                        if qty > 0 {
                            proof {
                                lemma_pool_max(pool, pool.len() as int, j as int);
                                assert(qty_sum(before) + qty <= gmax + (p + 1) * pmax) by (nonlinear_arith)
                                    requires
                                        qty_sum(before) <= gmax + p * pmax,
                                        qty <= pmax,
                                ;
                            }
                            raw.push((entry.item_id.clone(), qty));
                            proof {
                                assert(raw@.drop_last() =~= before);
                                assert(raw@[raw@.len() - 1].0@ == pool[j as int].item_id@);
                                assert forall|i: int| 0 <= i < raw@.len() implies droppable(*self, #[trigger] raw@[i].0@) by {
                                    if i < before.len() {
                                        assert(raw@[i] == before[i]);
                                    } else {
                                        assert(pool[j as int].item_id@ == raw@[i].0@);
                                    }
                                }
                                assert forall|i: int| 0 <= i < gs.len() && gs[i].min_qty > 0 implies has_item(raw@, #[trigger] gs[i].item_id@) by {
                                    let w = choose|w: int| 0 <= w < before.len() && #[trigger] before[w].0@ == gs[i].item_id@;
                                    assert(raw@[w] == before[w]);
                                }
                                assert forall|k: Seq<char>| #[trigger] qty_total(raw@, k) <= item_max_sum(gs, gs.len() as int, k) + (p + 1) * pmax by {
                                    assert(qty_total(before, k) <= item_max_sum(gs, gs.len() as int, k) + p * pmax);
                                    assert(p * pmax + pmax == (p + 1) * pmax) by (nonlinear_arith);
                                }
                                assert forall|i: int| 0 <= i < gs.len() implies qty_total(raw@, #[trigger] gs[i].item_id@) >= gs[i].min_qty by {
                                    assert(qty_total(before, gs[i].item_id@) >= gs[i].min_qty);
                                }
                            }
                        }
                    }
                    proof {
                        assert(graw + pick_drops(pool, pk, p + 1) =~= raw@) by {
                            assert(pick_drops(pool, pk, p + 1) == match picked_index(pool, roll as int) {
                                Some(j) => if qty > 0 {
                                    pick_drops(pool, pk, p as int).push((pool[j].item_id, qty))
                                } else {
                                    pick_drops(pool, pk, p as int)
                                },
                                None => pick_drops(pool, pk, p as int),
                            });
                        }
                        assert(p * pmax <= (p + 1) * pmax) by (nonlinear_arith)
                            requires
                                0 <= pmax,
                        ;
                        assert((p + 1) * pmax <= self.random_picks * pmax) by (nonlinear_arith)
                            requires
                                0 <= pmax,
                                p + 1 <= self.random_picks,
                        ;
                    }
                    p += 1;
                }
                proof {
                    assert(raw@ =~= raw_drops(*self, gq, pk));
                    assert forall|k: Seq<char>| #[trigger] qty_total(raw@, k) <= item_max_sum(gs, gs.len() as int, k) + self.random_picks * pmax by {
                    }
                }
            } else {
                proof {
                    assert(pk.len() == 0);
                    assert(raw@ =~= raw_drops(*self, gq, pk));
                }
            }
        } else {
            proof {
                assert(total_weight(pool) == 0);
                assert(pk.len() == 0);
                assert(raw@ =~= raw_drops(*self, gq, pk));
            }
        }
        proof {
            assert(raw@ == raw_drops(*self, gq, pk));
            assert(qty_sum(raw@) <= u32::MAX) by {
                assert(qty_sum(raw@) <= gmax + self.random_picks * pmax);
            }
            assert forall|k: Seq<char>| #[trigger] qty_total(raw@, k) <= item_max_sum(gs, gs.len() as int, k) + self.random_picks * pmax by {
                lemma_item_max_sum_nonneg(gs, gs.len() as int, k);
            }
        }

        // Merge duplicates
        proof {
            lemma_merged(raw@);
        }
        let merged_drops = merge_drops(raw);
        proof {
            let m = merged_drops@;
            assert forall|i: int| 0 <= i < m.len() implies droppable(*self, #[trigger] m[i].0@) by {
                let k = m[i].0@;
                lemma_key_index(m, k);
                assert(key_index(m, k) >= 0);
                let w = choose|w: int| 0 <= w < raw@.len() && #[trigger] raw@[w].0@ == k;
                assert(droppable(*self, raw@[w].0@));
            }
            assert forall|i: int| 0 <= i < gs.len() && gs[i].min_qty > 0 implies key_index(m, #[trigger] gs[i].item_id@) >= 0 by {
                assert(has_item(raw@, gs[i].item_id@));
            }
            assert forall|i: int| 0 <= i < gs.len() implies amount_of(m, #[trigger] gs[i].item_id@) >= gs[i].min_qty by {
                assert(amount_of(m, gs[i].item_id@) == qty_total(raw@, gs[i].item_id@));
            }
            assert forall|k: Seq<char>| #[trigger] amount_of(m, k) <= item_max_sum(gs, gs.len() as int, k) + self.random_picks * pmax by {
                assert(amount_of(m, k) == qty_total(raw@, k));
            }
        }
        merged_drops
    }

    /// Rolls the table: every guaranteed entry drops a random quantity in its
    /// range, then each random pick selects a pool entry by weight and drops a
    /// random quantity of it; zero quantities are skipped and drops of the
    /// same item are merged, in order of first appearance. The result is
    /// `roll_with` for some draws the table can make.
    pub fn roll(&self) -> (drops: Vec<(ItemId, u32)>)
        requires
            rollable(*self),
        ensures
            roll_outcome(*self, drops@),
            exists|gq: Seq<u32>, picks: Seq<(u32, u32)>|
                draws_fit(*self, gq, picks) && drops@ == #[trigger] merged(raw_drops(*self, gq, picks)),
    {
        let mut rng = crate::random::thread_rng();
        let mut gq: Vec<u32> = Vec::new();
        let mut g: usize = 0;
        while g < self.guaranteed.len()
            invariant
                g <= self.guaranteed@.len(),
                rollable(*self),
                gq@.len() == g,
                forall|i: int| 0 <= i < g ==> self.guaranteed@[i].min_qty <= #[trigger] gq@[i] <= self.guaranteed@[i].max_qty,
            decreases self.guaranteed.len() - g,
        {
            let entry = &self.guaranteed[g];
            let qty = crate::random::random_range_inclusive(&mut rng, entry.min_qty, entry.max_qty);
            gq.push(qty);
            g += 1;
        }
        let mut picks: Vec<(u32, u32)> = Vec::new();
        let pool_total = pool_weight(&self.random_pool);
        if pool_total > 0 {
            let mut p: u32 = 0;
            while p < self.random_picks
                invariant
                    rollable(*self),
                    pool_total == total_weight(self.random_pool@),
                    pool_total > 0,
                    p <= self.random_picks,
                    picks@.len() == p,
                    forall|q: int|
                        0 <= q < p ==> (#[trigger] picks@[q]).0 < total_weight(self.random_pool@) && (picked_index(
                            self.random_pool@,
                            picks@[q].0 as int,
                        ) matches Some(j) ==> self.random_pool@[j].min_qty <= picks@[q].1
                            <= self.random_pool@[j].max_qty),
                decreases self.random_picks - p,
            {
                let roll = crate::random::random_range_inclusive(&mut rng, 0, pool_total - 1);
                proof {
                    lemma_pick(self.random_pool@, roll as int, 0);
                }
                let qty = match pick_weighted(&self.random_pool, roll) {
                    Some(j) => crate::random::random_range_inclusive(
                        &mut rng,
                        self.random_pool[j].min_qty,
                        self.random_pool[j].max_qty,
                    ),
                    None => 0,
                };
                picks.push((roll, qty));
                p += 1;
            }
        }
        let draws = RollDraws { guaranteed: gq, picks };
        let drops = self.roll_with(&draws);
        assert(draws_fit(*self, draws.guaranteed@, draws.picks@) && drops@ == merged(
            raw_drops(*self, draws.guaranteed@, draws.picks@),
        ));
        drops
    }
}

/// Total weight of a pool.
fn pool_weight(pool: &Vec<DropEntry>) -> (w: u32)
    requires
        total_weight(pool@) <= u32::MAX,
    ensures
        w == total_weight(pool@),
{
    let mut sum: u32 = 0;
    let mut i: usize = 0;
    while i < pool.len()
        invariant
            i <= pool@.len(),
            total_weight(pool@) <= u32::MAX,
            sum == weight_prefix(pool@, i as int),
        decreases pool.len() - i,
    {
        proof {
            lemma_weight_prefix_mono(pool@, i + 1, pool@.len() as int);
        }
        sum = sum + pool[i].weight;
        i += 1;
    }
    sum
}

// ── Locations ─────────────────────────────────────────────────────────────

#[derive(Debug, Clone)]
pub struct GatherDuration {
    pub label: String,
    pub duration_ms: DurationMs,
    pub drop_table: DropTable,
}

#[derive(Debug, Clone)]
pub struct GatherLocation {
    pub id: String,
    pub name: String,
    pub description: String,
    pub unlocked: bool,
    pub durations: Vec<GatherDuration>,
}

// ── Active tasks ──────────────────────────────────────────────────────────

#[derive(Debug, Clone)]
pub struct GatherTask {
    pub location_id: String,
    pub duration_index: usize,
    pub started_at: Timestamp,
    pub duration_ms: DurationMs,
}

impl GatherTask {
    /// Whether the expedition has run its course, judged by the system clock
    /// (`time::is_complete_at` applied to the time read).
    pub fn is_complete(&self) -> (done: bool)
        requires
            deadline(self.started_at, self.duration_ms) <= u64::MAX,
        ensures
            exists|t: Timestamp| #[trigger] time::done_at(self.started_at, self.duration_ms, t) == done,
    {
        time::is_complete(self.started_at, self.duration_ms)
    }

    /// Milliseconds until the expedition returns, judged by the system clock.
    pub fn remaining_ms(&self) -> (left: DurationMs)
        requires
            deadline(self.started_at, self.duration_ms) <= u64::MAX,
        ensures
            left <= deadline(self.started_at, self.duration_ms),
    {
        time::remaining(self.started_at, self.duration_ms)
    }
}

#[derive(Debug, Clone)]
pub struct GatheringState {
    pub slots: Vec<Option<GatherTask>>,
    pub max_slots: usize,
}

impl Default for GatheringState {
    fn default() -> (s: Self)
        ensures
            s.slots@ == seq![None::<GatherTask>],
            s.max_slots == 1,
    {
        Self::new()
    }
}

/// Whether location `l` is the first of `locations` with id `id`.
pub open spec fn first_location(locations: Seq<GatherLocation>, id: Seq<char>, l: int) -> bool {
    &&& 0 <= l < locations.len()
    &&& locations[l].id@ == id
    &&& forall|m: int| 0 <= m < l ==> #[trigger] locations[m].id@ != id
}

/// The drop table of trip `d` at the first location with id `id`, if there
/// is such a location and it has such a trip.
pub open spec fn table_for(locations: Seq<GatherLocation>, id: Seq<char>, d: int) -> Option<DropTable> {
    if exists|l: int| #[trigger] first_location(locations, id, l) {
        let l = choose|l: int| #[trigger] first_location(locations, id, l);
        if 0 <= d < locations[l].durations@.len() {
            Some(locations[l].durations@[d].drop_table)
        } else {
            None
        }
    } else {
        None
    }
}

proof fn lemma_first_location_unique(locations: Seq<GatherLocation>, id: Seq<char>, a: int, b: int)
    requires
        first_location(locations, id, a),
        first_location(locations, id, b),
    ensures
        a == b,
{
    if a < b {
        assert(locations[a].id@ != id);
    } else if b < a {
        assert(locations[b].id@ != id);
    }
}

/// The drop table of trip `d` at the first location with id `id`.
pub fn drop_table_for<'a>(locations: &'a Vec<GatherLocation>, id: &String, d: usize) -> (t: Option<&'a DropTable>)
    ensures
        match t {
            Some(tb) => table_for(locations@, id@, d as int) == Some(*tb),
            None => table_for(locations@, id@, d as int) is None,
        },
{
    let mut l: usize = 0;
    while l < locations.len()
        invariant
            l <= locations@.len(),
            forall|m: int| 0 <= m < l ==> #[trigger] locations@[m].id@ != id@,
        decreases locations.len() - l,
    {
        if crate::ui::str_eq(locations[l].id.as_str(), id.as_str()) {
            proof {
                assert(first_location(locations@, id@, l as int));
                let c = choose|c: int| #[trigger] first_location(locations@, id@, c);
                lemma_first_location_unique(locations@, id@, c, l as int);
            }
            if d < locations[l].durations.len() {
                return Some(&locations[l].durations[d].drop_table);
            } else {
                return None;
            }
        }
        l += 1;
    }
    proof {
        assert forall|c: int| !first_location(locations@, id@, c) by {
            if 0 <= c < locations@.len() {
                assert(locations@[c].id@ != id@);
            }
        }
    }
    None
}

/// Whether the expedition in slot `slot` has run its course at `now`.
pub open spec fn expedition_done(g: GatheringState, slot: int, now: Timestamp) -> bool {
    &&& 0 <= slot < g.slots@.len()
    &&& g.slots@[slot] matches Some(task)
    &&& deadline(task.started_at, task.duration_ms) <= u64::MAX
    &&& time::done_at(task.started_at, task.duration_ms, now)
}

/// Brings back the expedition in slot `slot` if it has run its course at
/// `now`: the slot is freed, the drop table of its location and trip is
/// rolled, when there is one and it can be rolled, and the drops are put
/// into the stock. Returns the drops (none when no table could be rolled),
/// or `None`, changing nothing, when no expedition there has finished.
pub fn collect_expedition_at(
    gathering: &mut GatheringState,
    inventory: &mut Inventory,
    locations: &Vec<GatherLocation>,
    slot: usize,
    now: Timestamp,
) -> (r: Option<Vec<(ItemId, u32)>>)
    ensures
        r is Some <==> expedition_done(*old(gathering), slot as int, now),
        r is None ==> *final(gathering) == *old(gathering) && final(inventory)@ == old(inventory)@,
        r is Some ==> final(gathering).slots@ == old(gathering).slots@.update(slot as int, None)
            && final(gathering).max_slots == old(gathering).max_slots,
        r matches Some(drops) ==> ({
            let task = old(gathering).slots@[slot as int]->0;
            let table = table_for(locations@, task.location_id@, task.duration_index as int);
            &&& (table matches Some(tb) && rollable(tb)) ==> roll_outcome(table->0, drops@) && drops_stored(
                old(inventory)@,
                final(inventory)@,
                drops@,
            )
            &&& !(table matches Some(tb) && rollable(tb)) ==> drops@.len() == 0 && final(inventory)@ == old(inventory)@
        }),
{
    if slot >= gathering.slots.len() {
        return None;
    }
    let finished = match &gathering.slots[slot] {
        Some(task) => match task.started_at.checked_add(task.duration_ms) {
            Some(_) => time::is_complete_at(task.started_at, task.duration_ms, now),
            None => false,
        },
        None => false,
    };
    if !finished {
        return None;
    }
    let task = gathering.complete(slot).unwrap();
    let mut drops: Vec<(ItemId, u32)> = Vec::new();
    match drop_table_for(locations, &task.location_id, task.duration_index) {
        Some(table) => {
            if table.is_rollable() {
                drops = table.roll();
                store_drops(inventory, &drops);
            }
        },
        None => {},
    }
    Some(drops)
}

impl GatheringState {
    /// One idle gathering slot, and room for no more.
    pub fn new() -> (s: Self)
        ensures
            s.slots@ == seq![None::<GatherTask>],
            s.max_slots == 1,
    {
        let mut slots: Vec<Option<GatherTask>> = Vec::new();
        slots.push(None);
        assert(slots@ =~= seq![None::<GatherTask>]);
        GatheringState { slots, max_slots: 1 }
    }

    /// Sends an expedition out from slot `slot` at time `now`; fails (and
    /// changes nothing) if the slot does not exist or is busy.
    pub fn start_at(
        &mut self,
        slot: usize,
        location_id: String,
        duration_index: usize,
        duration_ms: DurationMs,
        now: Timestamp,
    ) -> (started: bool)
        ensures
            started == (slot < old(self).slots@.len() && old(self).slots@[slot as int] is None),
            !started ==> *final(self) == *old(self),
            started ==> final(self).max_slots == old(self).max_slots,
            started ==> final(self).slots@ == old(self).slots@.update(
                slot as int,
                Some(GatherTask { location_id, duration_index, started_at: now, duration_ms }),
            ),
    {
        if slot >= self.slots.len() || self.slots[slot].is_some() {
            return false;
        }
        self.slots.set(slot, Some(GatherTask { location_id, duration_index, started_at: now, duration_ms }));
        true
    }

    /// Sends an expedition out from slot `slot` now; fails (and changes
    /// nothing) if the slot does not exist or is busy.
    pub fn start(&mut self, slot: usize, location_id: String, duration_index: usize, duration_ms: DurationMs) -> (started: bool)
        ensures
            started == (slot < old(self).slots@.len() && old(self).slots@[slot as int] is None),
            !started ==> *final(self) == *old(self),
            started ==> final(self).max_slots == old(self).max_slots,
            started ==> final(self).slots@.len() == old(self).slots@.len(),
            started ==> forall|i: int|
                0 <= i < old(self).slots@.len() && i != slot ==> final(self).slots@[i] == old(self).slots@[i],
            started ==> (final(self).slots@[slot as int] matches Some(task) && task.location_id == location_id
                && task.duration_index == duration_index && task.duration_ms == duration_ms),
    {
        let t = time::now();
        self.start_at(slot, location_id, duration_index, duration_ms, t)
    }

    /// Takes the task out of slot `slot`, leaving it empty; `None` if the slot
    /// does not exist or was already empty.
    pub fn complete(&mut self, slot: usize) -> (task: Option<GatherTask>)
        ensures
            slot >= old(self).slots@.len() ==> task is None && *final(self) == *old(self),
            slot < old(self).slots@.len() ==> {
                &&& task == old(self).slots@[slot as int]
                &&& final(self).slots@ == old(self).slots@.update(slot as int, None)
                &&& final(self).max_slots == old(self).max_slots
            },
    {
        if slot >= self.slots.len() {
            return None;
        }
        let task = self.slots.remove(slot);
        self.slots.insert(slot, None);
        assert(self.slots@ =~= old(self).slots@.update(slot as int, None));
        task
    }

    pub fn has_empty_slot(&self) -> (b: bool)
        ensures
            b == exists|i: int| 0 <= i < self.slots@.len() && self.slots@[i] is None,
    {
        let mut i: usize = 0;
        while i < self.slots.len()
            invariant
                i <= self.slots@.len(),
                forall|j: int| 0 <= j < i ==> self.slots@[j] is Some,
            decreases self.slots.len() - i,
        {
            if self.slots[i].is_none() {
                return true;
            }
            i += 1;
        }
        false
    }

    pub fn first_empty_slot(&self) -> (r: Option<usize>)
        ensures
            match r {
                Some(i) => i < self.slots@.len() && self.slots@[i as int] is None
                    && forall|j: int| 0 <= j < i ==> self.slots@[j] is Some,
                None => forall|j: int| 0 <= j < self.slots@.len() ==> self.slots@[j] is Some,
            },
    {
        let mut i: usize = 0;
        while i < self.slots.len()
            invariant
                i <= self.slots@.len(),
                forall|j: int| 0 <= j < i ==> self.slots@[j] is Some,
            decreases self.slots.len() - i,
        {
            if self.slots[i].is_none() {
                return Some(i);
            }
            i += 1;
        }
        None
    }

    /// Adds an empty slot if fewer than `max_slots` exist.
    pub fn add_slot(&mut self)
        ensures
            final(self).max_slots == old(self).max_slots,
            old(self).slots@.len() < old(self).max_slots ==> final(self).slots@ == old(self).slots@.push(None),
            old(self).slots@.len() >= old(self).max_slots ==> final(self).slots@ == old(self).slots@,
            old(self).slots@.len() <= old(self).max_slots ==> final(self).slots@.len() <= final(self).max_slots,
    {
        if self.slots.len() < self.max_slots {
            self.slots.push(None);
        }
    }
}

/// The entries of a drop list, as (item, min, max, weight).
pub open spec fn entries_view(es: Seq<DropEntry>) -> Seq<(Seq<char>, u32, u32, u32)> {
    es.map_values(|e: DropEntry| (e.item_id@, e.min_qty, e.max_qty, e.weight))
}

/// A gathering duration with its label, length and drop table.
pub open spec fn is_duration(
    d: GatherDuration,
    label: Seq<char>,
    duration_ms: int,
    guaranteed: Seq<(Seq<char>, u32, u32, u32)>,
    random_pool: Seq<(Seq<char>, u32, u32, u32)>,
    random_picks: u32,
) -> bool {
    &&& d.label@ == label
    &&& d.duration_ms == duration_ms
    &&& entries_view(d.drop_table.guaranteed@) == guaranteed
    &&& entries_view(d.drop_table.random_pool@) == random_pool
    &&& d.drop_table.random_picks == random_picks
}

fn drop_entry(item_id: &str, min_qty: u32, max_qty: u32, weight: u32) -> (e: DropEntry)
    ensures
        e.item_id@ == item_id@,
        e.min_qty == min_qty,
        e.max_qty == max_qty,
        e.weight == weight,
{
    DropEntry { item_id: item_id.to_string(), min_qty, max_qty, weight }
}

/// The game's gathering locations, with their trips and drop tables.
pub open spec fn is_location_book(b: Seq<GatherLocation>) -> bool {
    &&& b.len() == 1
    &&& b[0].id@ == "whispering_woods"@
    &&& b[0].name@ == "Whispering Woods"@
    &&& b[0].description@ == "Ancient trees murmur secrets to those who listen. Rich in wood, herbs, and wild berries."@
    &&& b[0].unlocked
    &&& b[0].durations@.len() == 3
    &&& is_duration(b[0].durations@[0], "Quick Forage"@, 10 * SECOND, seq![("wood"@, 1u32, 2u32, 0u32)], seq![("herbs"@, 1u32, 1u32, 20u32)], 1)
    &&& is_duration(b[0].durations@[1], "Standard Expedition"@, 45 * SECOND, seq![("wood"@, 3u32, 5u32, 0u32), ("herbs"@, 1u32, 1u32, 0u32)], seq![("berries"@, 1u32, 2u32, 70u32)], 1)
    &&& is_duration(b[0].durations@[2], "Deep Expedition"@, 3 * MINUTE, seq![("wood"@, 5u32, 8u32, 0u32), ("herbs"@, 2u32, 3u32, 0u32), ("berries"@, 1u32, 2u32, 0u32)], seq![("heartwood"@, 1u32, 1u32, 5u32)], 1)
}

/// The gathering locations of the first phase of the game: the Whispering
/// Woods, with a quick, a standard and a deep expedition.
pub fn register_locations() -> (locations: Vec<GatherLocation>)
    ensures
        is_location_book(locations@),
{
    let mut durations: Vec<GatherDuration> = Vec::new();
    {
        let mut guaranteed: Vec<DropEntry> = Vec::new();
        guaranteed.push(drop_entry("wood", 1, 2, 0));
        let mut random_pool: Vec<DropEntry> = Vec::new();
        random_pool.push(drop_entry("herbs", 1, 1, 20));
        assert(entries_view(guaranteed@) =~= seq![("wood"@, 1u32, 2u32, 0u32)]);
        assert(entries_view(random_pool@) =~= seq![("herbs"@, 1u32, 1u32, 20u32)]);
        durations.push(GatherDuration {
            label: "Quick Forage".to_string(),
            duration_ms: 10 * SECOND,
            drop_table: DropTable { guaranteed, random_pool, random_picks: 1 },
        });
    }
    {
        let mut guaranteed: Vec<DropEntry> = Vec::new();
        guaranteed.push(drop_entry("wood", 3, 5, 0));
        guaranteed.push(drop_entry("herbs", 1, 1, 0));
        let mut random_pool: Vec<DropEntry> = Vec::new();
        random_pool.push(drop_entry("berries", 1, 2, 70));
        assert(entries_view(guaranteed@) =~= seq![("wood"@, 3u32, 5u32, 0u32), ("herbs"@, 1u32, 1u32, 0u32)]);
        assert(entries_view(random_pool@) =~= seq![("berries"@, 1u32, 2u32, 70u32)]);
        durations.push(GatherDuration {
            label: "Standard Expedition".to_string(),
            duration_ms: 45 * SECOND,
            drop_table: DropTable { guaranteed, random_pool, random_picks: 1 },
        });
    }
    {
        let mut guaranteed: Vec<DropEntry> = Vec::new();
        guaranteed.push(drop_entry("wood", 5, 8, 0));
        guaranteed.push(drop_entry("herbs", 2, 3, 0));
        guaranteed.push(drop_entry("berries", 1, 2, 0));
        let mut random_pool: Vec<DropEntry> = Vec::new();
        random_pool.push(drop_entry("heartwood", 1, 1, 5));
        assert(entries_view(guaranteed@) =~= seq![("wood"@, 5u32, 8u32, 0u32), ("herbs"@, 2u32, 3u32, 0u32), ("berries"@, 1u32, 2u32, 0u32)]);
        assert(entries_view(random_pool@) =~= seq![("heartwood"@, 1u32, 1u32, 5u32)]);
        durations.push(GatherDuration {
            label: "Deep Expedition".to_string(),
            duration_ms: 3 * MINUTE,
            drop_table: DropTable { guaranteed, random_pool, random_picks: 1 },
        });
    }
    let mut locations: Vec<GatherLocation> = Vec::new();
    locations.push(GatherLocation {
        id: "whispering_woods".to_string(),
        name: "Whispering Woods".to_string(),
        description: "Ancient trees murmur secrets to those who listen. Rich in wood, herbs, and wild berries.".to_string(),
        unlocked: true,
        durations,
    });
    locations
}

/// Completing a slot right after an expedition was started in it gives back
/// that expedition and leaves the slots as they were.
pub proof fn lemma_start_then_complete(slots: Seq<Option<GatherTask>>, slot: int, task: GatherTask)
    requires
        0 <= slot < slots.len(),
        slots[slot] is None,
    ensures
        slots.update(slot, Some(task))[slot] == Some(task),
        slots.update(slot, Some(task)).update(slot, None) == slots,
{
    assert(slots.update(slot, Some(task)).update(slot, None) =~= slots);
}

} // verus!
