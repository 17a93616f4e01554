//! Maps: the courses of an event.

use std::collections::HashMap;
use vstd::prelude::*;
use crate::ids::Id;

verus! {

/// The settings of a map or route: values under their keys.
pub type Perks = HashMap<String, String>;

/// What the perks of a draft come to: those given, or none where the draft
/// leaves them out.
pub open spec fn perks_or_none(perks: Option<Perks>) -> Map<String, String> {
    match perks {
        Some(given) => given@,
        None => Map::empty(),
    }
}

/// The perks of a draft, or none where the draft leaves them out.
pub fn settle_perks(perks: Option<Perks>) -> (settled: Perks)
    ensures
        settled@ == perks_or_none(perks),
{
    match perks {
        Some(given) => given,
        None => HashMap::new(),
    }
}

/// A copy of `perks`.
pub fn copy_perks(perks: &Perks) -> (copy: Perks)
    ensures
        copy@ == perks@,
{
    perks.clone()
}

/// What a request to create a map brings.
#[derive(Debug, PartialEq, Eq)]
pub struct MapDraft {
    /// The name, which no other map of the same event may have.
    pub map_name: String,
    pub perks: Option<Perks>,
}

/// A course of an event.
#[derive(Debug, PartialEq, Eq)]
pub struct GameMap {
    pub id: Id,
    pub map_name: String,
    pub perks: Perks,
}

/// What a map says.
pub ghost struct MapView {
    pub id: Id,
    pub map_name: Seq<char>,
    pub perks: Map<String, String>,
}

impl View for GameMap {
    type V = MapView;

    open spec fn view(&self) -> MapView {
        MapView { id: self.id, map_name: self.map_name@, perks: self.perks@ }
    }
}

impl MapDraft {
    /// The map that this draft becomes under the identifier `id`.
    pub open spec fn recorded(&self, id: Id) -> MapView {
        MapView { id, map_name: self.map_name@, perks: perks_or_none(self.perks) }
    }

    /// Turns the draft into the map with the identifier `id`.
    pub fn record(self, id: Id) -> (map: GameMap)
        ensures
            map@ == self.recorded(id),
    {
        GameMap { id, map_name: self.map_name, perks: settle_perks(self.perks) }
    }
}

impl GameMap {
    /// The draft that becomes this map again under the map's identifier.
    pub fn to_draft(&self) -> (draft: MapDraft)
        ensures
            draft.recorded(self.id) == self@,
            draft.map_name@ == self.map_name@,
            draft.perks is Some,
    {
        MapDraft { map_name: self.map_name.clone(), perks: Some(copy_perks(&self.perks)) }
    }
}

impl Clone for GameMap {
    fn clone(&self) -> (copy: GameMap)
        ensures
            copy@ == self@,
    {
        GameMap { id: self.id, map_name: self.map_name.clone(), perks: copy_perks(&self.perks) }
    }
}

/// What a sequence of maps says.
pub open spec fn map_views(maps: Seq<GameMap>) -> Seq<MapView> {
    maps.map_values(|m: GameMap| m@)
}

/// A copy of `maps`.
pub fn copy_maps(maps: &Vec<GameMap>) -> (copy: Vec<GameMap>)
    ensures
        map_views(copy@) == map_views(maps@),
{
    let mut copy: Vec<GameMap> = Vec::new();
    let mut i: usize = 0;
    while i < maps.len()
        invariant
            i <= maps.len(),
            copy.len() == i,
            forall|j: int| 0 <= j < i ==> copy[j]@ == maps[j]@,
        decreases maps.len() - i,
    {
        copy.push(maps[i].clone());
        i += 1;
    }
    assert(map_views(copy@) =~= map_views(maps@));
    copy
}

} // verus!
