//! Routes: the scored variants of a map.
//!
//! The store reads a route's identifier and name. The lines, boards and
//! positions that lay the route out in the game are carried as one text that
//! the store never opens, and the objects placed along it as one text each.

use vstd::prelude::*;
use crate::game_map::{copy_perks, perks_or_none, settle_perks, Perks};
use crate::ids::Id;
use crate::text::{copy_texts, texts};

verus! {

/// What the placed objects of a draft come to: those given, or none where the
/// draft leaves them out.
pub open spec fn entities_or_none(entities: Option<Vec<String>>) -> Seq<Seq<char>> {
    match entities {
        Some(given) => texts(given@),
        None => Seq::empty(),
    }
}

/// The placed objects of a draft, or an empty list where the draft leaves
/// them out.
pub fn settle_entities(entities: Option<Vec<String>>) -> (settled: Vec<String>)
    ensures
        texts(settled@) == entities_or_none(entities),
{
    match entities {
        Some(given) => given,
        None => {
            let settled: Vec<String> = Vec::new();
            assert(texts(settled@) =~= Seq::empty());
            settled
        },
    }
}

/// What a request to create a route brings.
#[derive(Debug, PartialEq, Eq)]
pub struct RouteDraft {
    /// The name, which no other route of the same map may have.
    pub name: String,
    pub perks: Option<Perks>,
    /// The objects placed along the route, one text each.
    pub entities: Option<Vec<String>>,
    /// The layout of the route in the game.
    pub geometry: String,
}

/// A scored variant of a map.
#[derive(Debug, PartialEq, Eq)]
pub struct MapRoute {
    pub id: Id,
    pub name: String,
    pub perks: Perks,
    pub entities: Vec<String>,
    pub geometry: String,
}

/// A configuration of a map: another word for a route.
pub type MapConfiguration = MapRoute;

/// What a route says.
pub ghost struct RouteView {
    pub id: Id,
    pub name: Seq<char>,
    pub perks: Map<String, String>,
    pub entities: Seq<Seq<char>>,
    pub geometry: Seq<char>,
}

impl View for MapRoute {
    type V = RouteView;

    open spec fn view(&self) -> RouteView {
        RouteView {
            id: self.id,
            name: self.name@,
            perks: self.perks@,
            entities: texts(self.entities@),
            geometry: self.geometry@,
        }
    }
}

impl RouteDraft {
    /// The route that this draft becomes under the identifier `id`.
    pub open spec fn recorded(&self, id: Id) -> RouteView {
        RouteView {
            id,
            name: self.name@,
            perks: perks_or_none(self.perks),
            entities: entities_or_none(self.entities),
            geometry: self.geometry@,
        }
    }

    /// Turns the draft into the route with the identifier `id`.
    pub fn record(self, id: Id) -> (route: MapRoute)
        ensures
            route@ == self.recorded(id),
    {
        MapRoute {
            id,
            name: self.name,
            perks: settle_perks(self.perks),
            entities: settle_entities(self.entities),
            geometry: self.geometry,
        }
    }
}

impl MapRoute {
    /// The draft that becomes this route again under the route's identifier.
    pub fn to_draft(&self) -> (draft: RouteDraft)
        ensures
            draft.recorded(self.id) == self@,
            draft.name@ == self.name@,
            draft.perks is Some,
            draft.entities is Some,
    {
        RouteDraft {
            name: self.name.clone(),
            perks: Some(copy_perks(&self.perks)),
            entities: Some(copy_texts(&self.entities)),
            geometry: self.geometry.clone(),
        }
    }
}

impl Clone for MapRoute {
    fn clone(&self) -> (copy: MapRoute)
        ensures
            copy@ == self@,
    {
        MapRoute {
            id: self.id,
            name: self.name.clone(),
            perks: copy_perks(&self.perks),
            entities: copy_texts(&self.entities),
            geometry: self.geometry.clone(),
        }
    }
}

/// What a sequence of routes says.
pub open spec fn route_views(routes: Seq<MapRoute>) -> Seq<RouteView> {
    routes.map_values(|r: MapRoute| r@)
}

/// A copy of `routes`.
pub fn copy_routes(routes: &Vec<MapRoute>) -> (copy: Vec<MapRoute>)
    ensures
        route_views(copy@) == route_views(routes@),
{
    let mut copy: Vec<MapRoute> = Vec::new();
    let mut i: usize = 0;
    while i < routes.len()
        invariant
            i <= routes.len(),
            copy.len() == i,
            forall|j: int| 0 <= j < i ==> copy[j]@ == routes[j]@,
        decreases routes.len() - i,
    {
        copy.push(routes[i].clone());
        i += 1;
    }
    assert(route_views(copy@) =~= route_views(routes@));
    copy
}

} // verus!
