//! Read-only lookups over the registry state.

use vstd::prelude::*;

use crate::errors::RegistryError;
use crate::records::{opt_text, CollectionV, GraphicV, IndexedGraphic, RegistryState};
use crate::store::find_collection_spec;

verus! {

/// Collection details without the member-graphics list.
#[derive(Debug)]
pub struct CollectionInfo {
    pub collection_id: u64,
    pub title: String,
    pub description: Option<String>,
    pub artist: Option<String>,
    pub external_link: Option<String>,
    pub registration_timestamp: String,
    pub update_timestamp: Option<String>,
}

/// Mathematical image of the details of a collection.
pub struct CollectionInfoV {
    pub collection_id: u64,
    pub title: Seq<char>,
    pub description: Option<Seq<char>>,
    pub artist: Option<Seq<char>>,
    pub external_link: Option<Seq<char>>,
    pub registration_timestamp: Seq<char>,
    pub update_timestamp: Option<Seq<char>>,
}

impl View for CollectionInfo {
    type V = CollectionInfoV;

    open spec fn view(&self) -> CollectionInfoV {
        CollectionInfoV {
            collection_id: self.collection_id,
            title: self.title@,
            description: opt_text(self.description),
            artist: opt_text(self.artist),
            external_link: opt_text(self.external_link),
            registration_timestamp: self.registration_timestamp@,
            update_timestamp: opt_text(self.update_timestamp),
        }
    }
}

/// The details a stored collection presents: every field but the member
/// list.
pub open spec fn info_of(c: CollectionV) -> CollectionInfoV {
    CollectionInfoV {
        collection_id: c.collection_id,
        title: c.title,
        description: c.description,
        artist: c.artist,
        external_link: c.external_link,
        registration_timestamp: c.registration_timestamp,
        update_timestamp: c.update_timestamp,
    }
}

/// First stored graphic with the given identifier.
pub open spec fn find_graphic_spec(gs: Seq<GraphicV>, ogid: u64) -> Option<GraphicV>
    decreases gs.len(),
{
    if gs.len() == 0 {
        None
    } else if gs[0].ogid == ogid {
        Some(gs[0])
    } else {
        find_graphic_spec(gs.drop_first(), ogid)
    }
}

/// Every registered collection identifier, in store order.
pub fn try_fetch_collections(s: &RegistryState) -> (r: Result<Vec<u64>, RegistryError>)
    ensures
        r is Ok,
        r->Ok_0@.len() == s@.collections.len(),
        forall|i: int|
            0 <= i < s@.collections.len() ==> r->Ok_0@[i] == (
            #[trigger] s@.collections[i]).collection_id,
{
    let n = s.registered_collections.len();
    let mut ids: Vec<u64> = Vec::new();
    let mut i: usize = 0;
    while i < n
        invariant
            i <= n,
            n == s.registered_collections@.len(),
            ids@.len() == i,
            forall|k: int|
                0 <= k < i ==> ids@[k] == (#[trigger] s@.collections[k]).collection_id,
        decreases n - i,
    {
        ids.push(s.registered_collections[i].collection_id);
        i = i + 1;
    }
    Ok(ids)
}

/// The details of the collection with the given identifier, or `NotFound`.
pub fn try_fetch_collection(s: &RegistryState, collection_id: u64) -> (r: Result<
    CollectionInfo,
    RegistryError,
>)
    ensures
        match find_collection_spec(s@.collections, collection_id) {
            Some(c) => r is Ok && r->Ok_0@ == info_of(c),
            None => r == Err::<CollectionInfo, RegistryError>(RegistryError::NotFound),
        },
{
    match crate::store::find_collection(s, collection_id) {
        Some(c) => Ok(
            CollectionInfo {
                collection_id: c.collection_id,
                title: c.title,
                description: c.description,
                artist: c.artist,
                external_link: c.external_link,
                registration_timestamp: c.registration_timestamp,
                update_timestamp: c.update_timestamp,
            },
        ),
        None => Err(RegistryError::NotFound),
    }
}

/// The member graphic identifiers of the collection with the given
/// identifier, in order, or `NotFound`.
pub fn try_fetch_graphics(s: &RegistryState, collection_id: u64) -> (r: Result<
    Vec<u64>,
    RegistryError,
>)
    ensures
        match find_collection_spec(s@.collections, collection_id) {
            Some(c) => r is Ok && r->Ok_0@ == c.graphics,
            None => r == Err::<Vec<u64>, RegistryError>(RegistryError::NotFound),
        },
{
    match crate::store::find_collection(s, collection_id) {
        Some(c) => {
            let ids = c.graphics.clone();
            proof {
                assert forall|i: int| 0 <= i < ids@.len() implies ids@[i] == c.graphics@[i] by {
                    assert(cloned(c.graphics@[i], ids@[i]));
                }
                assert(ids@ =~= c.graphics@);
            }
            Ok(ids)
        },
        None => Err(RegistryError::NotFound),
    }
}

/// The full record of the graphic with the given identifier, or
/// `NotFound`.
pub fn try_fetch_graphic(s: &RegistryState, ogid: u64) -> (r: Result<IndexedGraphic,
    RegistryError>)
    ensures
        match find_graphic_spec(s@.graphics, ogid) {
            Some(g) => r is Ok && r->Ok_0@ == g,
            None => r == Err::<IndexedGraphic, RegistryError>(RegistryError::NotFound),
        },
{
    let ghost gs = s@.graphics;
    let n = s.registered_graphics.len();
    let mut i: usize = 0;
    proof {
        assert(gs.skip(0) =~= gs);
    }
    while i < n
        invariant
            i <= n,
            n == s.registered_graphics@.len(),
            gs == s@.graphics,
            gs.len() == n,
            find_graphic_spec(gs, ogid) == find_graphic_spec(gs.skip(i as int), ogid),
        decreases n - i,
    {
        proof {
            assert(gs.skip(i as int)[0] == gs[i as int]);
            assert(gs[i as int] == s.registered_graphics@[i as int]@);
            assert(gs.skip(i as int).drop_first() =~= gs.skip(i as int + 1));
        }
        let g = &s.registered_graphics[i];
        if g.ogid == ogid {
            proof {
                assert(find_graphic_spec(gs.skip(i as int), ogid) == Some(gs[i as int]));
            }
            return Ok(g.clone());
        }
        i = i + 1;
    }
    proof {
        assert(gs.skip(n as int) =~= Seq::<GraphicV>::empty());
    }
    Err(RegistryError::NotFound)
}

} // verus!
