//! Facts about the game's content as a whole: its crafting and refining
//! books, its gathering locations and its icon table.
use vstd::prelude::*;
use crate::crafting::{inputs_view, is_crafting_book, CraftingCategory, CraftingRecipe};
use crate::gathering::{droppable, entries_view, is_location_book, GatherLocation};
use crate::refining::{is_refining_book, RefiningRecipe};
use crate::ui::{icon_table, table_lookup};

verus! {

/// Whether some refining recipe of `book` makes item `k`.
pub open spec fn refined_into(book: Seq<RefiningRecipe>, k: Seq<char>) -> bool {
    exists|r: int| 0 <= r < book.len() && #[trigger] book[r].output_id@ == k
}

/// Whether some trip to some location of `locations` can drop item `k`.
pub open spec fn dropped_at(locations: Seq<GatherLocation>, k: Seq<char>) -> bool {
    exists|l: int, d: int|
        0 <= l < locations.len() && 0 <= d < locations[l].durations@.len() && #[trigger] droppable(
            locations[l].durations@[d].drop_table,
            k,
        )
}

/// Whether the icon table has an entry for item `k`.
pub open spec fn has_icon(k: Seq<char>) -> bool {
    table_lookup(icon_table(), k) is Some
}

proof fn lemma_lookup_finds(table: Seq<(Seq<char>, Seq<char>)>, k: Seq<char>, i: int)
    requires
        0 <= i < table.len(),
        table[i].0 == k,
    ensures
        table_lookup(table, k) is Some,
    decreases i,
{
    if table[0].0 != k {
        assert(table.drop_first()[i - 1] == table[i]);
        lemma_lookup_finds(table.drop_first(), k, i - 1);
    }
}

proof fn lemma_lookup_listed(table: Seq<(Seq<char>, Seq<char>)>, k: Seq<char>)
    requires
        table_lookup(table, k) is Some,
    ensures
        exists|i: int| 0 <= i < table.len() && #[trigger] table[i].0 == k,
    decreases table.len(),
{
    if table[0].0 != k {
        lemma_lookup_listed(table.drop_first(), k);
        let i = choose|i: int| 0 <= i < table.drop_first().len() && #[trigger] table.drop_first()[i].0 == k;
        assert(table[i + 1].0 == k);
    } else {
        assert(table[0].0 == k);
    }
}

/// An item has an icon exactly when the icon table lists its id.
pub proof fn lemma_icon_iff_listed(k: Seq<char>)
    ensures
        has_icon(k) <==> exists|i: int| 0 <= i < icon_table().len() && #[trigger] icon_table()[i].0 == k,
{
    if has_icon(k) {
        lemma_lookup_listed(icon_table(), k);
    }
    if exists|i: int| 0 <= i < icon_table().len() && #[trigger] icon_table()[i].0 == k {
        let i = choose|i: int| 0 <= i < icon_table().len() && #[trigger] icon_table()[i].0 == k;
        lemma_lookup_finds(icon_table(), k, i);
    }
}

proof fn lemma_drops_are_raw(locations: Seq<GatherLocation>, k: Seq<char>)
    requires
        is_location_book(locations),
        dropped_at(locations, k),
    ensures
        k == "wood"@ || k == "herbs"@ || k == "berries"@ || k == "heartwood"@,
{
    let (l, d) = choose|l: int, d: int|
        0 <= l < locations.len() && 0 <= d < locations[l].durations@.len() && #[trigger] droppable(
            locations[l].durations@[d].drop_table,
            k,
        );
    assert(l == 0);
    let t = locations[0].durations@[d].drop_table;
    let g = t.guaranteed@;
    let p = t.random_pool@;
    assert(entries_view(g).len() == g.len());
    assert(entries_view(p).len() == p.len());
    if exists|i: int| 0 <= i < g.len() && #[trigger] g[i].item_id@ == k {
        let i = choose|i: int| 0 <= i < g.len() && #[trigger] g[i].item_id@ == k;
        assert(entries_view(g)[i].0 == k);
        if d == 0 {
            assert(entries_view(g)[0].0 == "wood"@);
        } else if d == 1 {
            assert(i == 0 ==> entries_view(g)[0].0 == "wood"@);
            assert(i == 1 ==> entries_view(g)[1].0 == "herbs"@);
        } else {
            assert(i == 0 ==> entries_view(g)[0].0 == "wood"@);
            assert(i == 1 ==> entries_view(g)[1].0 == "herbs"@);
            assert(i == 2 ==> entries_view(g)[2].0 == "berries"@);
        }
    } else {
        let i = choose|i: int| 0 <= i < p.len() && p[i].weight > 0 && #[trigger] p[i].item_id@ == k;
        assert(entries_view(p)[i].0 == k);
        if d == 0 {
            assert(entries_view(p)[0].0 == "herbs"@);
        } else if d == 1 {
            assert(entries_view(p)[0].0 == "berries"@);
        } else {
            assert(entries_view(p)[0].0 == "heartwood"@);
        }
    }
}

/// Whether `k` is one of the items that crafting recipes ask for.
spec fn is_ingredient(k: Seq<char>) -> bool {
    k == "berry_juice"@ || k == "crushed_herbs"@ || k == "dried_berries"@ || k == "dried_herbs"@ || k == "heartwood"@ || k == "kindling"@ || k == "planks"@
}

proof fn lemma_ingredients(craft: Seq<CraftingRecipe>, r: int, j: int)
    requires
        is_crafting_book(craft),
        0 <= r < craft.len(),
        0 <= j < craft[r].inputs@.len(),
    ensures
        is_ingredient(craft[r].inputs@[j].0@),
{
    let k = craft[r].inputs@[j].0@;
    assert(inputs_view(craft[r].inputs@).len() == craft[r].inputs@.len());
    assert(inputs_view(craft[r].inputs@)[j].0 == k);
    if r == 0 {
        assert(j == 0 ==> inputs_view(craft[0].inputs@)[0].0 == "planks"@);
    } else if r == 1 {
        assert(j == 0 ==> inputs_view(craft[1].inputs@)[0].0 == "planks"@);
        assert(j == 1 ==> inputs_view(craft[1].inputs@)[1].0 == "kindling"@);
    } else if r == 2 {
        assert(j == 0 ==> inputs_view(craft[2].inputs@)[0].0 == "planks"@);
        assert(j == 1 ==> inputs_view(craft[2].inputs@)[1].0 == "crushed_herbs"@);
    } else if r == 3 {
        assert(j == 0 ==> inputs_view(craft[3].inputs@)[0].0 == "planks"@);
    } else if r == 4 {
        assert(j == 0 ==> inputs_view(craft[4].inputs@)[0].0 == "dried_herbs"@);
        assert(j == 1 ==> inputs_view(craft[4].inputs@)[1].0 == "planks"@);
    } else if r == 5 {
        assert(j == 0 ==> inputs_view(craft[5].inputs@)[0].0 == "dried_berries"@);
        assert(j == 1 ==> inputs_view(craft[5].inputs@)[1].0 == "kindling"@);
    } else if r == 6 {
        assert(j == 0 ==> inputs_view(craft[6].inputs@)[0].0 == "heartwood"@);
        assert(j == 1 ==> inputs_view(craft[6].inputs@)[1].0 == "planks"@);
    } else if r == 7 {
        assert(j == 0 ==> inputs_view(craft[7].inputs@)[0].0 == "dried_herbs"@);
        assert(j == 1 ==> inputs_view(craft[7].inputs@)[1].0 == "dried_berries"@);
        assert(j == 2 ==> inputs_view(craft[7].inputs@)[2].0 == "kindling"@);
    } else if r == 8 {
        assert(j == 0 ==> inputs_view(craft[8].inputs@)[0].0 == "dried_berries"@);
        assert(j == 1 ==> inputs_view(craft[8].inputs@)[1].0 == "planks"@);
    } else if r == 9 {
        assert(j == 0 ==> inputs_view(craft[9].inputs@)[0].0 == "dried_herbs"@);
        assert(j == 1 ==> inputs_view(craft[9].inputs@)[1].0 == "kindling"@);
    } else if r == 10 {
        assert(j == 0 ==> inputs_view(craft[10].inputs@)[0].0 == "berry_juice"@);
        assert(j == 1 ==> inputs_view(craft[10].inputs@)[1].0 == "dried_berries"@);
    } else if r == 11 {
        assert(j == 0 ==> inputs_view(craft[11].inputs@)[0].0 == "crushed_herbs"@);
        assert(j == 1 ==> inputs_view(craft[11].inputs@)[1].0 == "kindling"@);
    } else if r == 12 {
        assert(j == 0 ==> inputs_view(craft[12].inputs@)[0].0 == "crushed_herbs"@);
        assert(j == 1 ==> inputs_view(craft[12].inputs@)[1].0 == "berry_juice"@);
    } else if r == 13 {
        assert(j == 0 ==> inputs_view(craft[13].inputs@)[0].0 == "crushed_herbs"@);
        assert(j == 1 ==> inputs_view(craft[13].inputs@)[1].0 == "berry_juice"@);
    } else if r == 14 {
        assert(j == 0 ==> inputs_view(craft[14].inputs@)[0].0 == "crushed_herbs"@);
        assert(j == 1 ==> inputs_view(craft[14].inputs@)[1].0 == "kindling"@);
    } else if r == 15 {
        assert(j == 0 ==> inputs_view(craft[15].inputs@)[0].0 == "crushed_herbs"@);
        assert(j == 1 ==> inputs_view(craft[15].inputs@)[1].0 == "berry_juice"@);
    } else if r == 16 {
        assert(j == 0 ==> inputs_view(craft[16].inputs@)[0].0 == "crushed_herbs"@);
        assert(j == 1 ==> inputs_view(craft[16].inputs@)[1].0 == "dried_herbs"@);
    }
}

/// Every ingredient that a recipe of the crafting book asks for can be had
/// in the game: a recipe of the refining book makes it, or a trip to one of
/// the gathering locations can drop it.
pub proof fn lemma_ingredients_obtainable(
    craft: Seq<CraftingRecipe>,
    refine: Seq<RefiningRecipe>,
    locations: Seq<GatherLocation>,
)
    requires
        is_crafting_book(craft),
        is_refining_book(refine),
        is_location_book(locations),
    ensures
        forall|r: int, j: int|
            0 <= r < craft.len() && 0 <= j < craft[r].inputs@.len() ==> refined_into(
                refine,
                #[trigger] craft[r].inputs@[j].0@,
            ) || dropped_at(locations, craft[r].inputs@[j].0@),
{
    assert(refine[0].output_id@ == "planks"@);
    assert(refine[1].output_id@ == "kindling"@);
    assert(refine[2].output_id@ == "dried_herbs"@);
    assert(refine[3].output_id@ == "crushed_herbs"@);
    assert(refine[4].output_id@ == "dried_berries"@);
    assert(refine[5].output_id@ == "berry_juice"@);
    let deep = locations[0].durations@[2].drop_table;
    assert(entries_view(deep.random_pool@).len() == deep.random_pool@.len());
    assert(entries_view(deep.random_pool@)[0] == ("heartwood"@, 1u32, 1u32, 5u32));
    assert(deep.random_pool@[0].item_id@ == "heartwood"@);
    assert(deep.random_pool@[0].weight > 0);
    assert(droppable(deep, "heartwood"@));
    assert(dropped_at(locations, "heartwood"@));
    assert forall|r: int, j: int| 0 <= r < craft.len() && 0 <= j < craft[r].inputs@.len() implies refined_into(
        refine,
        #[trigger] craft[r].inputs@[j].0@,
    ) || dropped_at(locations, craft[r].inputs@[j].0@) by {
        lemma_ingredients(craft, r, j);
    }
}

/// Every item that the game can hand out has an icon: each item a gathering
/// trip can drop, each item a refining recipe makes, and each item a
/// crafting recipe outside the consumables makes.
pub proof fn lemma_items_have_icons(
    craft: Seq<CraftingRecipe>,
    refine: Seq<RefiningRecipe>,
    locations: Seq<GatherLocation>,
)
    requires
        is_crafting_book(craft),
        is_refining_book(refine),
        is_location_book(locations),
    ensures
        forall|k: Seq<char>| dropped_at(locations, k) ==> has_icon(k),
        forall|r: int| 0 <= r < refine.len() ==> has_icon(#[trigger] refine[r].output_id@),
        forall|r: int|
            0 <= r < craft.len() && craft[r].category != CraftingCategory::Consumables ==> has_icon(
                #[trigger] craft[r].output_id@,
            ),
{
    let t = icon_table();
    assert(t[0].0 == "wood"@);
    lemma_lookup_finds(t, "wood"@, 0);
    assert(t[1].0 == "herbs"@);
    lemma_lookup_finds(t, "herbs"@, 1);
    assert(t[2].0 == "berries"@);
    lemma_lookup_finds(t, "berries"@, 2);
    assert(t[3].0 == "heartwood"@);
    lemma_lookup_finds(t, "heartwood"@, 3);
    assert(t[4].0 == "planks"@);
    lemma_lookup_finds(t, "planks"@, 4);
    assert(t[5].0 == "kindling"@);
    lemma_lookup_finds(t, "kindling"@, 5);
    assert(t[6].0 == "dried_herbs"@);
    lemma_lookup_finds(t, "dried_herbs"@, 6);
    assert(t[7].0 == "crushed_herbs"@);
    lemma_lookup_finds(t, "crushed_herbs"@, 7);
    assert(t[8].0 == "dried_berries"@);
    lemma_lookup_finds(t, "dried_berries"@, 8);
    assert(t[9].0 == "berry_juice"@);
    lemma_lookup_finds(t, "berry_juice"@, 9);
    assert(t[10].0 == "wooden_club"@);
    lemma_lookup_finds(t, "wooden_club"@, 10);
    assert(t[11].0 == "hunters_bow"@);
    lemma_lookup_finds(t, "hunters_bow"@, 11);
    assert(t[12].0 == "herbalists_staff"@);
    lemma_lookup_finds(t, "herbalists_staff"@, 12);
    assert(t[13].0 == "bark_vest"@);
    lemma_lookup_finds(t, "bark_vest"@, 13);
    assert(t[14].0 == "herb_cloak"@);
    lemma_lookup_finds(t, "herb_cloak"@, 14);
    assert(t[15].0 == "berry_pendant"@);
    lemma_lookup_finds(t, "berry_pendant"@, 15);
    assert(t[16].0 == "heartwood_charm"@);
    lemma_lookup_finds(t, "heartwood_charm"@, 16);
    assert(t[17].0 == "hearty_stew"@);
    lemma_lookup_finds(t, "hearty_stew"@, 17);
    assert(t[18].0 == "berry_tart"@);
    lemma_lookup_finds(t, "berry_tart"@, 18);
    assert(t[19].0 == "herb_bread"@);
    lemma_lookup_finds(t, "herb_bread"@, 19);
    assert(t[20].0 == "berry_cordial"@);
    lemma_lookup_finds(t, "berry_cordial"@, 20);
    assert(t[21].0 == "herbal_tea"@);
    lemma_lookup_finds(t, "herbal_tea"@, 21);
    assert forall|k: Seq<char>| dropped_at(locations, k) implies has_icon(k) by {
        lemma_drops_are_raw(locations, k);
    }
    assert forall|r: int| 0 <= r < refine.len() implies has_icon(#[trigger] refine[r].output_id@) by {
        assert(r == 0 ==> refine[r].output_id@ == "planks"@);
        assert(r == 1 ==> refine[r].output_id@ == "kindling"@);
        assert(r == 2 ==> refine[r].output_id@ == "dried_herbs"@);
        assert(r == 3 ==> refine[r].output_id@ == "crushed_herbs"@);
        assert(r == 4 ==> refine[r].output_id@ == "dried_berries"@);
        assert(r == 5 ==> refine[r].output_id@ == "berry_juice"@);
    }
    assert forall|r: int| 0 <= r < craft.len() && craft[r].category != CraftingCategory::Consumables implies has_icon(
        #[trigger] craft[r].output_id@,
    ) by {
        assert(r == 0 ==> craft[r].output_id@ == "wooden_club"@);
        assert(r == 1 ==> craft[r].output_id@ == "hunters_bow"@);
        assert(r == 2 ==> craft[r].output_id@ == "herbalists_staff"@);
        assert(r == 3 ==> craft[r].output_id@ == "bark_vest"@);
        assert(r == 4 ==> craft[r].output_id@ == "herb_cloak"@);
        assert(r == 5 ==> craft[r].output_id@ == "berry_pendant"@);
        assert(r == 6 ==> craft[r].output_id@ == "heartwood_charm"@);
        assert(r == 7 ==> craft[r].output_id@ == "hearty_stew"@);
        assert(r == 8 ==> craft[r].output_id@ == "berry_tart"@);
        assert(r == 9 ==> craft[r].output_id@ == "herb_bread"@);
        assert(r == 10 ==> craft[r].output_id@ == "berry_cordial"@);
        assert(r == 11 ==> craft[r].output_id@ == "herbal_tea"@);
    }
}

} // verus!
