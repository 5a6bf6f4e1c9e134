use vstd::prelude::*;

verus! {

/// Whether two strings hold the same characters.
pub fn str_eq(a: &str, b: &str) -> (same: bool)
    ensures
        same == (a@ == b@),
{
    let n = a.unicode_len();
    if n != b.unicode_len() {
        return false;
    }
    let mut i: usize = 0;
    while i < n
        invariant
            n == a@.len(),
            n == b@.len(),
            i <= n,
            forall|j: int| 0 <= j < i ==> a@[j] == b@[j],
        decreases n - i,
    {
        if a.get_char(i) != b.get_char(i) {
            return false;
        }
        i += 1;
    }
    assert(a@ =~= b@);
    true
}

/// Position of the first key equal to `key` in a lookup table.
pub open spec fn table_lookup(table: Seq<(Seq<char>, Seq<char>)>, key: Seq<char>) -> Option<Seq<char>>
    decreases table.len(),
{
    if table.len() == 0 {
        None
    } else if table[0].0 == key {
        Some(table[0].1)
    } else {
        table_lookup(table.drop_first(), key)
    }
}

fn lookup(table: &[(&'static str, &'static str)], key: &str) -> (r: Option<&'static str>)
    ensures
        match r {
            Some(v) => table_lookup(table@.map_values(|e: (&'static str, &'static str)| (e.0@, e.1@)), key@) == Some(v@),
            None => table_lookup(table@.map_values(|e: (&'static str, &'static str)| (e.0@, e.1@)), key@) is None,
        },
{
    let ghost view = table@.map_values(|e: (&'static str, &'static str)| (e.0@, e.1@));
    let mut i: usize = 0;
    assert(view.subrange(0, view.len() as int) =~= view);
    while i < table.len()
        invariant
            i <= table@.len(),
            view == table@.map_values(|e: (&'static str, &'static str)| (e.0@, e.1@)),
            table_lookup(view, key@) == table_lookup(view.subrange(i as int, view.len() as int), key@),
        decreases table.len() - i,
    {
        let ghost rest = view.subrange(i as int, view.len() as int);
        assert(rest.drop_first() =~= view.subrange(i + 1, view.len() as int));
        assert(rest[0] == (table@[i as int].0@, table@[i as int].1@));
        if str_eq(table[i].0, key) {
            return Some(table[i].1);
        }
        i += 1;
    }
    None
}

// ── Map tiles ─────────────────────────────────────────────────────────────

#[derive(Debug, Clone, Copy, PartialEq, Eq, Structural, Hash)]
pub enum MapTile {
    Empty,
    Treasure,
    Rest,
    Trap,
    Combat,
    Boss,
    Party,
    Fog,
    LadderDown,
    LadderUp,
}

/// Art file of each map tile, relative to the asset directory.
pub open spec fn tile_asset(tile: MapTile) -> Seq<char> {
    match tile {
        MapTile::Empty => "tiles/empty.png"@,
        MapTile::Treasure => "tiles/treasure.png"@,
        MapTile::Rest => "tiles/rest.png"@,
        MapTile::Trap => "tiles/trap.png"@,
        MapTile::Combat => "tiles/combat.png"@,
        MapTile::Boss => "tiles/boss.png"@,
        MapTile::Party => "tiles/party.png"@,
        MapTile::Fog => "tiles/fog.png"@,
        MapTile::LadderDown => "tiles/ladder_down.png"@,
        MapTile::LadderUp => "tiles/ladder_up.png"@,
    }
}

/// The art file (relative to the asset directory) shown for a map tile.
pub fn map_tile_bytes(tile: MapTile) -> (path: &'static str)
    ensures
        path@ == tile_asset(tile),
{
    match tile {
        MapTile::Empty => "tiles/empty.png",
        MapTile::Treasure => "tiles/treasure.png",
        MapTile::Rest => "tiles/rest.png",
        MapTile::Trap => "tiles/trap.png",
        MapTile::Combat => "tiles/combat.png",
        MapTile::Boss => "tiles/boss.png",
        MapTile::Party => "tiles/party.png",
        MapTile::Fog => "tiles/fog.png",
        MapTile::LadderDown => "tiles/ladder_down.png",
        MapTile::LadderUp => "tiles/ladder_up.png",
    }
}

// ── Portraits and icons ───────────────────────────────────────────────────

/// Portrait files of the starting adventurers, by adventurer id.
pub open spec fn portrait_table() -> Seq<(Seq<char>, Seq<char>)> {
    seq![
        ("torvald"@, "portraits/torvald.png"@),
        ("sylvara"@, "portraits/sylvara.png"@),
        ("ember"@, "portraits/ember.png"@),
        ("aldric"@, "portraits/aldric.png"@),
        ("briar"@, "portraits/briar.png"@),
    ]
}

/// Portrait files of enemies, by enemy name.
pub open spec fn enemy_table() -> Seq<(Seq<char>, Seq<char>)> {
    seq![
        ("Giant Rat"@, "enemies/giant_rat.png"@),
        ("Rat King"@, "enemies/rat_king.png"@),
        ("Cellar Spider"@, "enemies/cellar_spider.png"@),
        ("Cave Spider"@, "enemies/cave_spider.png"@),
        ("Giant Snake"@, "enemies/giant_snake.png"@),
        ("Brood Mother"@, "enemies/brood_mother.png"@),
    ]
}

/// Icon files of items, by item id.
pub open spec fn icon_table() -> Seq<(Seq<char>, Seq<char>)> {
    seq![
        ("wood"@, "items/wood.png"@),
        ("herbs"@, "items/herbs.png"@),
        ("berries"@, "items/berries.png"@),
        ("heartwood"@, "items/heartwood.png"@),
        ("planks"@, "items/planks.png"@),
        ("kindling"@, "items/kindling.png"@),
        ("dried_herbs"@, "items/dried_herbs.png"@),
        ("crushed_herbs"@, "items/crushed_herbs.png"@),
        ("dried_berries"@, "items/dried_berries.png"@),
        ("berry_juice"@, "items/berry_juice.png"@),
        ("wooden_club"@, "items/wooden_club.png"@),
        ("hunters_bow"@, "items/hunters_bow.png"@),
        ("herbalists_staff"@, "items/herbalists_staff.png"@),
        ("bark_vest"@, "items/bark_vest.png"@),
        ("herb_cloak"@, "items/herb_cloak.png"@),
        ("berry_pendant"@, "items/berry_pendant.png"@),
        ("heartwood_charm"@, "items/heartwood_charm.png"@),
        ("hearty_stew"@, "items/hearty_stew.png"@),
        ("berry_tart"@, "items/berry_tart.png"@),
        ("herb_bread"@, "items/herb_bread.png"@),
        ("berry_cordial"@, "items/berry_cordial.png"@),
        ("herbal_tea"@, "items/herbal_tea.png"@),
    ]
}

/// The portrait file of an adventurer, if one is drawn for that id.
pub fn adventurer_portrait_bytes(id: &str) -> (path: Option<&'static str>)
    ensures
        match path {
            Some(p) => table_lookup(portrait_table(), id@) == Some(p@),
            None => table_lookup(portrait_table(), id@) is None,
        },
{
    let table: [(&'static str, &'static str); 5] = [
        ("torvald", "portraits/torvald.png"),
        ("sylvara", "portraits/sylvara.png"),
        ("ember", "portraits/ember.png"),
        ("aldric", "portraits/aldric.png"),
        ("briar", "portraits/briar.png"),
    ];
    assert(table@.map_values(|e: (&'static str, &'static str)| (e.0@, e.1@)) =~= portrait_table());
    lookup(&table, id)
}

/// The portrait file of an enemy, if one is drawn for that name.
pub fn enemy_portrait_bytes(name: &str) -> (path: Option<&'static str>)
    ensures
        match path {
            Some(p) => table_lookup(enemy_table(), name@) == Some(p@),
            None => table_lookup(enemy_table(), name@) is None,
        },
{
    let table: [(&'static str, &'static str); 6] = [
        ("Giant Rat", "enemies/giant_rat.png"),
        ("Rat King", "enemies/rat_king.png"),
        ("Cellar Spider", "enemies/cellar_spider.png"),
        ("Cave Spider", "enemies/cave_spider.png"),
        ("Giant Snake", "enemies/giant_snake.png"),
        ("Brood Mother", "enemies/brood_mother.png"),
    ];
    assert(table@.map_values(|e: (&'static str, &'static str)| (e.0@, e.1@)) =~= enemy_table());
    lookup(&table, name)
}

/// The icon file of an item, if one is registered for that id.
pub fn item_icon_bytes(item_id: &str) -> (path: Option<&'static str>)
    ensures
        match path {
            Some(p) => table_lookup(icon_table(), item_id@) == Some(p@),
            None => table_lookup(icon_table(), item_id@) is None,
        },
{
    let table: [(&'static str, &'static str); 22] = [
        ("wood", "items/wood.png"),
        ("herbs", "items/herbs.png"),
        ("berries", "items/berries.png"),
        ("heartwood", "items/heartwood.png"),
        ("planks", "items/planks.png"),
        ("kindling", "items/kindling.png"),
        ("dried_herbs", "items/dried_herbs.png"),
        ("crushed_herbs", "items/crushed_herbs.png"),
        ("dried_berries", "items/dried_berries.png"),
        ("berry_juice", "items/berry_juice.png"),
        ("wooden_club", "items/wooden_club.png"),
        ("hunters_bow", "items/hunters_bow.png"),
        ("herbalists_staff", "items/herbalists_staff.png"),
        ("bark_vest", "items/bark_vest.png"),
        ("herb_cloak", "items/herb_cloak.png"),
        ("berry_pendant", "items/berry_pendant.png"),
        ("heartwood_charm", "items/heartwood_charm.png"),
        ("hearty_stew", "items/hearty_stew.png"),
        ("berry_tart", "items/berry_tart.png"),
        ("herb_bread", "items/herb_bread.png"),
        ("berry_cordial", "items/berry_cordial.png"),
        ("herbal_tea", "items/herbal_tea.png"),
    ];
    assert(table@.map_values(|e: (&'static str, &'static str)| (e.0@, e.1@)) =~= icon_table());
    lookup(&table, item_id)
}

} // verus!
