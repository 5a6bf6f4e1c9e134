use vstd::prelude::*;

use crate::item::{ItemCategory, ItemId, ItemRegistry};

verus! {

/// No two entries of the list name the same item.
pub open spec fn distinct_keys(entries: Seq<(ItemId, u32)>) -> bool {
    forall|i: int, j: int|
        0 <= i < entries.len() && 0 <= j < entries.len() && i != j ==> entries[i].0@ != entries[j].0@
}

/// Whether some entry of the list names item `k`.
pub open spec fn has_key(entries: Seq<(ItemId, u32)>, k: Seq<char>) -> bool {
    exists|i: int| 0 <= i < entries.len() && #[trigger] entries[i].0@ == k
}

/// The map from item id to quantity that a list of entries describes.
pub open spec fn entries_map(entries: Seq<(ItemId, u32)>) -> Map<Seq<char>, u32> {
    Map::new(
        |k: Seq<char>| has_key(entries, k),
        |k: Seq<char>| entries[choose|i: int| 0 <= i < entries.len() && #[trigger] entries[i].0@ == k].1,
    )
}

/// Quantity held of item `k`: zero when there is no entry for it.
pub open spec fn count_of(m: Map<Seq<char>, u32>, k: Seq<char>) -> u32 {
    if m.contains_key(k) {
        m[k]
    } else {
        0
    }
}

/// What `Inventory::remove` leaves behind when it succeeds: the entry is
/// dropped when its count reaches zero, and otherwise lowered.
pub open spec fn after_remove(m: Map<Seq<char>, u32>, k: Seq<char>, amount: u32) -> Map<Seq<char>, u32> {
    if !m.contains_key(k) {
        m
    } else if m[k] == amount {
        m.remove(k)
    } else {
        m.insert(k, (m[k] - amount) as u32)
    }
}

/// Each entry of a list with distinct keys is what the map holds for its key.
pub proof fn lemma_entry(entries: Seq<(ItemId, u32)>, i: int)
    requires
        distinct_keys(entries),
        0 <= i < entries.len(),
    ensures
        entries_map(entries).contains_key(entries[i].0@),
        entries_map(entries)[entries[i].0@] == entries[i].1,
{
    let k = entries[i].0@;
    assert(has_key(entries, k));
    let j = choose|j: int| 0 <= j < entries.len() && #[trigger] entries[j].0@ == k;
    assert(entries[j].0@ == k);
}

/// Replacing the count of entry `i` replaces it in the map.
proof fn lemma_update(entries: Seq<(ItemId, u32)>, i: int, key: ItemId, n: u32)
    requires
        distinct_keys(entries),
        0 <= i < entries.len(),
        key@ == entries[i].0@,
    ensures
        distinct_keys(entries.update(i, (key, n))),
        entries_map(entries.update(i, (key, n))) == entries_map(entries).insert(entries[i].0@, n),
{
    let s2 = entries.update(i, (key, n));
    let m1 = entries_map(entries).insert(entries[i].0@, n);
    let m2 = entries_map(s2);
    assert forall|k: Seq<char>| #[trigger] m2.contains_key(k) <==> m1.contains_key(k) by {
        if has_key(entries, k) {
            let j = choose|j: int| 0 <= j < entries.len() && #[trigger] entries[j].0@ == k;
            assert(s2[j].0@ == k);
        }
        if has_key(s2, k) {
            let j = choose|j: int| 0 <= j < s2.len() && #[trigger] s2[j].0@ == k;
            assert(entries[j].0@ == k);
        }
    }
    assert forall|k: Seq<char>| #[trigger] m2.contains_key(k) implies m2[k] == m1[k] by {
        let j = choose|j: int| 0 <= j < s2.len() && #[trigger] s2[j].0@ == k;
        lemma_entry(s2, j);
        if j != i {
            lemma_entry(entries, j);
        }
    }
    assert(m2 =~= m1);
}

/// Appending an entry for a new key inserts it into the map.
proof fn lemma_push(entries: Seq<(ItemId, u32)>, e: (ItemId, u32))
    requires
        distinct_keys(entries),
        !has_key(entries, e.0@),
    ensures
        distinct_keys(entries.push(e)),
        entries_map(entries.push(e)) == entries_map(entries).insert(e.0@, e.1),
{
    let s2 = entries.push(e);
    assert(distinct_keys(s2)) by {
        assert forall|i: int, j: int|
            0 <= i < s2.len() && 0 <= j < s2.len() && i != j implies s2[i].0@ != s2[j].0@ by {
            if i == entries.len() {
                assert(entries[j].0@ == s2[j].0@);
            } else if j == entries.len() {
                assert(entries[i].0@ == s2[i].0@);
            }
        }
    }
    let m1 = entries_map(entries).insert(e.0@, e.1);
    let m2 = entries_map(s2);
    assert forall|k: Seq<char>| #[trigger] m2.contains_key(k) <==> m1.contains_key(k) by {
        if has_key(entries, k) {
            let j = choose|j: int| 0 <= j < entries.len() && #[trigger] entries[j].0@ == k;
            assert(s2[j].0@ == k);
        }
        if k == e.0@ {
            assert(s2[entries.len() as int].0@ == k);
        }
        if has_key(s2, k) {
            let j = choose|j: int| 0 <= j < s2.len() && #[trigger] s2[j].0@ == k;
            if j < entries.len() {
                assert(entries[j].0@ == k);
            }
        }
    }
    assert forall|k: Seq<char>| #[trigger] m2.contains_key(k) implies m2[k] == m1[k] by {
        let j = choose|j: int| 0 <= j < s2.len() && #[trigger] s2[j].0@ == k;
        lemma_entry(s2, j);
        if j < entries.len() {
            lemma_entry(entries, j);
        }
    }
    assert(m2 =~= m1);
}

/// Dropping entry `i` removes its key from the map.
proof fn lemma_remove(entries: Seq<(ItemId, u32)>, i: int)
    requires
        distinct_keys(entries),
        0 <= i < entries.len(),
    ensures
        distinct_keys(entries.remove(i)),
        entries_map(entries.remove(i)) == entries_map(entries).remove(entries[i].0@),
{
    let s2 = entries.remove(i);
    assert(distinct_keys(s2)) by {
        assert forall|a: int, b: int|
            0 <= a < s2.len() && 0 <= b < s2.len() && a != b implies s2[a].0@ != s2[b].0@ by {
            let a1 = if a < i { a } else { a + 1 };
            let b1 = if b < i { b } else { b + 1 };
            assert(s2[a] == entries[a1]);
            assert(s2[b] == entries[b1]);
        }
    }
    let m1 = entries_map(entries).remove(entries[i].0@);
    let m2 = entries_map(s2);
    assert forall|k: Seq<char>| #[trigger] m2.contains_key(k) <==> m1.contains_key(k) by {
        if has_key(s2, k) {
            let j = choose|j: int| 0 <= j < s2.len() && #[trigger] s2[j].0@ == k;
            let j1 = if j < i { j } else { j + 1 };
            assert(entries[j1].0@ == k);
        }
        if has_key(entries, k) && k != entries[i].0@ {
            let j = choose|j: int| 0 <= j < entries.len() && #[trigger] entries[j].0@ == k;
            let j2 = if j < i { j } else { j - 1 };
            assert(s2[j2].0@ == k);
        }
    }
    assert forall|k: Seq<char>| #[trigger] m2.contains_key(k) implies m2[k] == m1[k] by {
        let j = choose|j: int| 0 <= j < s2.len() && #[trigger] s2[j].0@ == k;
        let j1 = if j < i { j } else { j + 1 };
        lemma_entry(s2, j);
        lemma_entry(entries, j1);
    }
    assert(m2 =~= m1);
}

/// Quantities of items held. Each item appears in at most one entry.
#[derive(Debug)]
pub struct Inventory {
    items: Vec<(ItemId, u32)>,
}

impl View for Inventory {
    type V = Map<Seq<char>, u32>;

    closed spec fn view(&self) -> Map<Seq<char>, u32> {
        entries_map(self.items@)
    }
}

impl Clone for Inventory {
    fn clone(&self) -> (copy: Self)
        ensures
            copy@ == self@,
    {
        proof {
            use_type_invariant(self);
        }
        let mut items: Vec<(ItemId, u32)> = Vec::new();
        let mut i: usize = 0;
        while i < self.items.len()
            invariant
                i <= self.items@.len(),
                items@ == self.items@.subrange(0, i as int),
            decreases self.items.len() - i,
        {
            let key = self.items[i].0.clone();
            items.push((key, self.items[i].1));
            assert(items@ =~= self.items@.subrange(0, i + 1));
            i += 1;
        }
        assert(items@ =~= self.items@);
        Inventory { items }
    }
}

impl Default for Inventory {
    fn default() -> (inv: Self)
        ensures
            inv@ == Map::<Seq<char>, u32>::empty(),
    {
        Inventory::new()
    }
}

impl Inventory {
    /// The entries held, in the order the inventory keeps them.
    pub closed spec fn entries(&self) -> Seq<(ItemId, u32)> {
        self.items@
    }

    #[verifier::type_invariant]
    spec fn well_formed(self) -> bool {
        distinct_keys(self.items@)
    }

    /// An inventory holding nothing.
    pub fn new() -> (inv: Self)
        ensures
            inv@ == Map::<Seq<char>, u32>::empty(),
    {
        let inv = Inventory { items: Vec::new() };
        assert(inv@ =~= Map::<Seq<char>, u32>::empty());
        inv
    }

    fn find(&self, id: &ItemId) -> (r: Option<usize>)
        ensures
            match r {
                Some(i) => i < self.items@.len() && self.items@[i as int].0@ == id@,
                None => !has_key(self.items@, id@),
            },
    {
        let mut i: usize = 0;
        while i < self.items.len()
            invariant
                i <= self.items@.len(),
                forall|j: int| 0 <= j < i ==> self.items@[j].0@ != id@,
            decreases self.items.len() - i,
        {
            if self.items[i].0 == *id {
                return Some(i);
            }
            i += 1;
        }
        None
    }

    /// Adds `amount` of an item (an entry is made even when `amount` is zero).
    pub fn add(&mut self, id: &ItemId, amount: u32)
        requires
            count_of(old(self)@, id@) + amount <= u32::MAX,
        ensures
            final(self)@ == old(self)@.insert(id@, (count_of(old(self)@, id@) + amount) as u32),
    {
        proof {
            use_type_invariant(&*self);
        }
        match self.find(id) {
            Some(i) => {
                proof {
                    lemma_entry(self.items@, i as int);
                    lemma_update(self.items@, i as int, self.items@[i as int].0, (self.items@[i as int].1 + amount) as u32);
                }
                let key = self.items[i].0.clone();
                let n = self.items[i].1 + amount;
                let mut items = Vec::new();
                std::mem::swap(&mut items, &mut self.items);
                items.set(i, (key, n));
                self.items = items;
            }
            None => {
                let key = id.clone();
                proof {
                    lemma_push(self.items@, (key, amount));
                }
                let mut items = Vec::new();
                std::mem::swap(&mut items, &mut self.items);
                items.push((key, amount));
                self.items = items;
            }
        }
    }

    /// Removes `amount` of an item. Returns false (and removes nothing) if
    /// fewer than `amount` are held; an entry whose count reaches zero is dropped.
    pub fn remove(&mut self, id: &ItemId, amount: u32) -> (ok: bool)
        ensures
            ok == (count_of(old(self)@, id@) >= amount),
            ok ==> final(self)@ == after_remove(old(self)@, id@, amount),
            !ok ==> final(self)@ == old(self)@,
    {
        proof {
            use_type_invariant(&*self);
        }
        let Some(i) = self.find(id) else {
            assert(!old(self)@.contains_key(id@));
            return amount == 0;
        };
        proof {
            lemma_entry(self.items@, i as int);
        }
        let current = self.items[i].1;
        if current < amount {
            return false;
        }
        let new = current - amount;
        let mut items = Vec::new();
        std::mem::swap(&mut items, &mut self.items);
        if new == 0 {
            proof {
                lemma_remove(items@, i as int);
            }
            items.remove(i);
        } else {
            let key = items[i].0.clone();
            proof {
                lemma_update(items@, i as int, key, new);
            }
            items.set(i, (key, new));
        }
        self.items = items;
        true
    }

    /// Quantity held of an item (zero if none).
    pub fn count(&self, id: &ItemId) -> (n: u32)
        ensures
            n == count_of(self@, id@),
    {
        proof {
            use_type_invariant(self);
        }
        match self.find(id) {
            Some(i) => {
                proof {
                    lemma_entry(self.items@, i as int);
                }
                self.items[i].1
            },
            None => 0,
        }
    }

    /// Whether at least `amount` of an item is held.
    pub fn has(&self, id: &ItemId, amount: u32) -> (b: bool)
        ensures
            b == (count_of(self@, id@) >= amount),
    {
        self.count(id) >= amount
    }

    /// Whether every requirement `(item, quantity)` is met.
    pub fn has_all(&self, requirements: &[(ItemId, u32)]) -> (b: bool)
        ensures
            b == (forall|i: int|
                0 <= i < requirements@.len() ==> count_of(self@, #[trigger] requirements@[i].0@)
                    >= requirements@[i].1),
    {
        let mut i: usize = 0;
        while i < requirements.len()
            invariant
                i <= requirements@.len(),
                forall|j: int|
                    0 <= j < i ==> count_of(self@, #[trigger] requirements@[j].0@) >= requirements@[j].1,
            decreases requirements.len() - i,
        {
            if !self.has(&requirements[i].0, requirements[i].1) {
                return false;
            }
            i += 1;
        }
        true
    }

    /// Every entry held, one per item (in no particular order).
    pub fn items(&self) -> (entries: &Vec<(ItemId, u32)>)
        ensures
            entries@ == self.entries(),
            distinct_keys(entries@),
            entries_map(entries@) == self@,
    {
        proof {
            use_type_invariant(self);
        }
        &self.items
    }

    /// Entries for items whose registered definition is in category `cat`;
    /// items the registry does not know are left out.
    pub fn items_in_category(&self, registry: &ItemRegistry, cat: &ItemCategory) -> (found: Vec<(ItemId, u32)>)
        ensures
            distinct_keys(found@),
            entries_map(found@) == self@.restrict(
                Set::new(|k: Seq<char>| registry.lookup(k) matches Some(d) && d.category == *cat),
            ),
    {
        proof {
            use_type_invariant(self);
        }
        let ghost keep = Set::new(|k: Seq<char>| registry.lookup(k) matches Some(d) && d.category == *cat);
        let mut found: Vec<(ItemId, u32)> = Vec::new();
        let mut i: usize = 0;
        while i < self.items.len()
            invariant
                i <= self.items@.len(),
                distinct_keys(self.items@),
                keep == Set::new(|k: Seq<char>| registry.lookup(k) matches Some(d) && d.category == *cat),
                distinct_keys(found@),
                forall|j: int| 0 <= j < found@.len() ==> exists|m: int| 0 <= m < i && #[trigger] found@[j] == self.items@[m],
                entries_map(found@) == entries_map(self.items@.subrange(0, i as int)).restrict(keep),
            decreases self.items.len() - i,
        {
            let ghost before = found@;
            let ghost pre = self.items@.subrange(0, i as int);
            let ghost post = self.items@.subrange(0, i + 1);
            proof {
                lemma_prefix_distinct(self.items@, i as int + 1);
                lemma_prefix_distinct(self.items@, i as int);
                assert(post =~= pre.push(self.items@[i as int]));
                assert(!has_key(pre, self.items@[i as int].0@)) by {
                    if has_key(pre, self.items@[i as int].0@) {
                        let m = choose|m: int| 0 <= m < pre.len() && #[trigger] pre[m].0@ == self.items@[i as int].0@;
                        assert(self.items@[m].0@ == self.items@[i as int].0@);
                    }
                }
                lemma_push(pre, self.items@[i as int]);
            }
            let keep_it = match registry.get(&self.items[i].0) {
                Some(def) => def.category == *cat,
                None => false,
            };
            if keep_it {
                let key = self.items[i].0.clone();
                proof {
                    assert(!has_key(before, key@)) by {
                        if has_key(before, key@) {
                            let j = choose|j: int| 0 <= j < before.len() && #[trigger] before[j].0@ == key@;
                            let m = choose|m: int| 0 <= m < i && #[trigger] before[j] == self.items@[m];
                            assert(self.items@[m].0@ == self.items@[i as int].0@);
                        }
                    }
                    lemma_push(before, (key, self.items@[i as int].1));
                    assert(keep.contains(key@));
                    assert(entries_map(found@.push((key, self.items@[i as int].1))) =~= entries_map(post).restrict(keep));
                }
                found.push((key, self.items[i].1));
                proof {
                    assert forall|j: int| 0 <= j < found@.len() implies exists|m: int| 0 <= m < i + 1 && #[trigger] found@[j] == self.items@[m] by {
                        if j == before.len() {
                            assert(found@[j] == self.items@[i as int]);
                        } else {
                            assert(found@[j] == before[j]);
                        }
                    }
                }
            } else {
                proof {
                    assert(!keep.contains(self.items@[i as int].0@));
                    assert(entries_map(found@) =~= entries_map(post).restrict(keep));
                }
            }
            i += 1;
        }
        proof {
            assert(self.items@.subrange(0, self.items@.len() as int) =~= self.items@);
        }
        found
    }

    /// Whether no entry is held at all.
    pub fn is_empty(&self) -> (b: bool)
        ensures
            b == (self@ =~= Map::<Seq<char>, u32>::empty()),
    {
        proof {
            use_type_invariant(self);
            if self.items@.len() > 0 {
                lemma_entry(self.items@, 0);
            }
        }
        self.items.len() == 0
    }
}

/// Adding some of an item and then removing as much gives back the counts
/// held before, item by item.
pub proof fn lemma_add_then_remove(m: Map<Seq<char>, u32>, k: Seq<char>, amount: u32)
    requires
        count_of(m, k) + amount <= u32::MAX,
    ensures
        ({
            let added = m.insert(k, (count_of(m, k) + amount) as u32);
            &&& count_of(added, k) >= amount
            &&& forall|x: Seq<char>| #[trigger] count_of(after_remove(added, k, amount), x) == count_of(m, x)
        }),
{
}

/// A prefix of a list with distinct keys has distinct keys.
proof fn lemma_prefix_distinct(entries: Seq<(ItemId, u32)>, n: int)
    requires
        distinct_keys(entries),
        0 <= n <= entries.len(),
    ensures
        distinct_keys(entries.subrange(0, n)),
{
}

} // verus!
