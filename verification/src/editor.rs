//! The map editor's choices that do not depend on how it is drawn.
use vstd::prelude::*;

use crate::common::{MapLayer, Point2, Tile, TileAnimation, TILE_SIZE};
use crate::text::chars_of;

verus! {

/// The tabs of the map editor.
#[derive(Clone, Copy, Debug, PartialEq, Eq, Structural)]
pub enum Tab {
    Tileset,
    Zones,
    Settings,
    Tools,
}

impl Tab {
    /// The tab's title.
    pub open spec fn spec_label(self) -> Seq<char> {
        match self {
            Tab::Tileset => "Tileset"@,
            Tab::Zones => "Zones"@,
            Tab::Settings => "Settings"@,
            Tab::Tools => "Tools"@,
        }
    }

    /// The tab's title.
    pub fn label(&self) -> (s: String)
        ensures
            s@ == self.spec_label(),
    {
        proof {
            reveal_strlit("Tileset");
            reveal_strlit("Zones");
            reveal_strlit("Settings");
            reveal_strlit("Tools");
        }
        match self {
            Tab::Tileset => "Tileset".to_owned(),
            Tab::Zones => "Zones".to_owned(),
            Tab::Settings => "Settings".to_owned(),
            Tab::Tools => "Tools".to_owned(),
        }
    }
}

/// What the map editor asks of the game.
#[derive(Clone, Debug)]
pub enum Wants {
    /// Close the editor and save the map.
    Save,
    /// Close the editor without saving.
    Close,
    /// Move the player to the given map.
    Warp(String),
    /// Resize the map to the given width and height.
    Resize(u32, u32),
    /// Fill a layer with a tile, or clear it.
    Fill(MapLayer, Option<Tile>),
}

/// `a` divided by the positive `b`, rounded toward zero.
pub open spec fn toward_zero(a: int, b: int) -> int {
    if a >= 0 {
        a / b
    } else {
        -((-a) / b)
    }
}

/// The tile picked in the tileset at pixel (`x`, `y`): the tile under
/// that pixel, autotiled or animated as chosen.
pub fn picked_tile(x: i32, y: i32, autotile: bool, animated: bool, animation: TileAnimation) -> (t: Tile)
    ensures
        t.texture.x == toward_zero(x as int, TILE_SIZE as int),
        t.texture.y == toward_zero(y as int, TILE_SIZE as int),
        t.autotile == autotile,
        t.animation == (if animated { Some(animation) } else { None::<TileAnimation> }),
{
    Tile {
        texture: Point2 { x: x / TILE_SIZE, y: y / TILE_SIZE },
        autotile,
        animation: if animated { Some(animation) } else { None },
    }
}

/// Whether `text` occurs in `s` starting at index `i`.
pub open spec fn occurs_at(s: Seq<char>, text: Seq<char>, i: int) -> bool {
    0 <= i && i + text.len() <= s.len() && s.subrange(i, i + text.len()) == text
}

/// Whether `text` occurs somewhere in `s`.
pub open spec fn occurs_in(s: Seq<char>, text: Seq<char>) -> bool {
    exists|i: int| occurs_at(s, text, i)
}

/// Whether `text` occurs in `s` at index `i`, compared character by character.
fn matches_at(s: &Vec<char>, text: &Vec<char>, i: usize) -> (r: bool)
    requires
        i + text@.len() <= s@.len(),
    ensures
        r == occurs_at(s@, text@, i as int),
{
    let mut k: usize = 0;
    while k < text.len()
        invariant
            i + text@.len() <= s@.len(),
            s@.len() == s.len(),
            k <= text@.len(),
            forall|j: int| 0 <= j < k ==> s@[i + j] == text@[j],
        decreases text@.len() - k,
    {
        if s[i + k] != text[k] {
            assert(s@.subrange(i as int, i + text@.len())[k as int] != text@[k as int]);
            return false;
        }
        k = k + 1;
    }
    assert(s@.subrange(i as int, i + text@.len()) =~= text@);
    true
}

/// Whether `text` occurs in `s`.
pub fn contains_text(s: &str, text: &str) -> (r: bool)
    ensures
        r == occurs_in(s@, text@),
{
    let sc = chars_of(s);
    let tc = chars_of(text);
    if tc.len() > sc.len() {
        return false;
    }
    let last = sc.len() - tc.len();
    let mut i: usize = 0;
    loop
        invariant
            sc@ == s@,
            tc@ == text@,
            last == sc@.len() - tc@.len(),
            i <= last,
            forall|j: int| 0 <= j < i ==> !occurs_at(s@, text@, j),
        decreases last - i,
    {
        if matches_at(&sc, &tc, i) {
            return true;
        }
        if i == last {
            return false;
        }
        i = i + 1;
    }
}

/// The suggestions that contain what has been typed, in their order.
pub open spec fn suggested(items: Seq<Seq<char>>, typed: Seq<char>) -> Seq<Seq<char>> {
    items.filter(|item: Seq<char>| occurs_in(item, typed))
}

/// The suggestions that contain what has been typed, in their order.
pub fn suggestions(items: &Vec<String>, typed: &str) -> (r: Vec<String>)
    ensures
        r@.map_values(|m: String| m@) == suggested(items@.map_values(|m: String| m@), typed@),
{
    let ghost names = items@.map_values(|m: String| m@);
    let ghost pred = |item: Seq<char>| occurs_in(item, typed@);
    let mut r: Vec<String> = Vec::new();
    let mut i: usize = 0;
    while i < items.len()
        invariant
            i <= items@.len(),
            names == items@.map_values(|m: String| m@),
            pred == (|item: Seq<char>| occurs_in(item, typed@)),
            r@.map_values(|m: String| m@) == names.take(i as int).filter(pred),
        decreases items@.len() - i,
    {
        proof {
            assert(names.take(i as int + 1).drop_last() =~= names.take(i as int));
            assert(names.take(i as int + 1).last() == items@[i as int]@);
            reveal(Seq::filter);
        }
        if contains_text(items[i].as_str(), typed) {
            let ghost before = r@;
            r.push(items[i].clone());
            assert(r@.map_values(|m: String| m@) =~= before.map_values(|m: String| m@).push(items@[i as int]@));
        }
        i = i + 1;
    }
    assert(names.take(items@.len() as int) =~= names);
    r
}

} // verus!
