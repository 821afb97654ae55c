//! Differential reconciliation: merging freshly proposed records against
//! previously stored ones, preserving unchanged history, stamping real
//! content changes, and minting fresh identifiers.

use vstd::prelude::*;

use crate::clock::Clock;
use crate::errors::RegistryError;
use crate::idgen::generate_ogid;
use crate::records::{clone_opt_string, graphics_view, opt_text, CollectionProposal,
    CollectionProposalV, CollectionV, GraphicProposal, GraphicProposalV, GraphicV,
    IndexedCollection, IndexedGraphic};

verus! {

/// First stored graphic carrying the given asset path: the natural key
/// that matches old and new entities across an update.
pub open spec fn find_by_asset(og: Seq<GraphicV>, asset: Seq<char>) -> Option<GraphicV>
    decreases og.len(),
{
    if og.len() == 0 {
        None
    } else if og[0].asset == asset {
        Some(og[0])
    } else {
        find_by_asset(og.drop_first(), asset)
    }
}

/// Whether a graphic proposal's tracked fields differ from the stored
/// record's: title and description are the modifiable fields.
pub open spec fn graphic_fields_differ_spec(old: GraphicV, p: GraphicProposalV) -> bool {
    old.title != p.title || old.description != p.description
}

/// Whether reconciling `p` against the prior graphics counts as a change:
/// a brand-new entity always does; a matched one only when a tracked
/// field differs.
pub open spec fn graphic_changed(og: Option<Seq<GraphicV>>, p: GraphicProposalV) -> bool {
    match og {
        None => true,
        Some(old) => match find_by_asset(old, p.asset) {
            None => true,
            Some(o) => graphic_fields_differ_spec(o, p),
        },
    }
}

/// The reconciled record for proposal `p`: content from the proposal, the
/// creation timestamp carried forward when the natural key matches, and
/// the last-modified timestamp absent at first registration, carried
/// forward when nothing differs, and stamped `now` on a content change.
pub open spec fn merged_graphic(
    og: Option<Seq<GraphicV>>,
    p: GraphicProposalV,
    cid: u64,
    gid: u64,
    canister: Seq<char>,
    now: Seq<char>,
) -> GraphicV {
    GraphicV {
        ogid: gid,
        collection_id: cid,
        asset: p.asset,
        title: p.title,
        description: p.description,
        registration_timestamp: match og {
            None => now,
            Some(old) => match find_by_asset(old, p.asset) {
                Some(o) => o.registration_timestamp,
                None => now,
            },
        },
        update_timestamp: match og {
            None => None,
            Some(old) => match find_by_asset(old, p.asset) {
                Some(o) => if graphic_fields_differ_spec(o, p) {
                    Some(now)
                } else {
                    o.update_timestamp
                },
                None => Some(now),
            },
        },
        canister_id: canister,
    }
}

/// Whether a collection proposal differs from the stored record in any
/// tracked field: title, description, artist or external link.
pub open spec fn collection_fields_differ_spec(old: CollectionV, p: CollectionProposalV) -> bool {
    old.title != p.title || old.description != p.description || old.artist != p.artist
        || old.external_link != p.external_link
}

/// The reconciled collection record: content from the proposal, the member
/// list `gids`, the creation timestamp carried forward when a prior record
/// exists, and the last-modified timestamp absent at first registration,
/// carried forward when nothing differs, and stamped `now` on a change.
pub open spec fn merged_collection(
    old: Option<CollectionV>,
    p: CollectionProposalV,
    gids: Seq<u64>,
    cid: u64,
    now: Seq<char>,
) -> CollectionV {
    CollectionV {
        collection_id: cid,
        title: p.title,
        description: p.description,
        artist: p.artist,
        external_link: p.external_link,
        graphics: gids,
        registration_timestamp: match old {
            Some(o) => o.registration_timestamp,
            None => now,
        },
        update_timestamp: match old {
            None => None,
            Some(o) => if collection_fields_differ_spec(o, p) {
                Some(now)
            } else {
                o.update_timestamp
            },
        },
    }
}

/// The identifiers of a run of graphic records, in order.
pub open spec fn ogids_of(s: Seq<IndexedGraphic>) -> Seq<u64> {
    s.map_values(|g: IndexedGraphic| g.ogid)
}

/// The identifiers of a run of graphic record views, in order.
pub open spec fn gidseq_of(s: Seq<GraphicV>) -> Seq<u64> {
    s.map_values(|g: GraphicV| g.ogid)
}

/// Compares a stored graphic's modifiable fields against a proposal's.
pub fn graphic_fields_differ(old: &IndexedGraphic, p: &GraphicProposal) -> (r: bool)
    ensures
        r == graphic_fields_differ_spec(old@, p@),
{
    !(old.title == p.title) || !opt_str_eq(&old.description, &p.description)
}

/// Compares a stored collection's tracked fields against a proposal's.
pub fn collection_fields_differ(old: &IndexedCollection, p: &CollectionProposal) -> (r: bool)
    ensures
        r == collection_fields_differ_spec(old@, p@),
{
    !(old.title == p.title) || !opt_str_eq(&old.description, &p.description) || !opt_str_eq(
        &old.artist,
        &p.artist,
    ) || !opt_str_eq(&old.external_link, &p.external_link)
}

/// Whether two optional texts hold the same value.
pub fn opt_str_eq(a: &Option<String>, b: &Option<String>) -> (r: bool)
    ensures
        r == (opt_text(*a) == opt_text(*b)),
{
    match a {
        Some(x) => match b {
            Some(y) => *x == *y,
            None => false,
        },
        None => match b {
            Some(_) => false,
            None => true,
        },
    }
}

/// First stored graphic with the given asset path, by linear scan.
fn find_graphic_by_asset<'a>(og: &'a Vec<IndexedGraphic>, asset: &String) -> (r: Option<
    &'a IndexedGraphic,
>)
    ensures
        match r {
            Some(g) => find_by_asset(graphics_view(og@), asset@) == Some(g@),
            None => find_by_asset(graphics_view(og@), asset@) is None,
        },
{
    let ghost ogv = graphics_view(og@);
    let n = og.len();
    let mut i: usize = 0;
    proof {
        assert(ogv.skip(0) =~= ogv);
    }
    while i < n
        invariant
            i <= n,
            n == og@.len(),
            ogv == graphics_view(og@),
            ogv.len() == n,
            find_by_asset(ogv, asset@) == find_by_asset(ogv.skip(i as int), asset@),
        decreases n - i,
    {
        proof {
            assert(ogv.skip(i as int)[0] == ogv[i as int]);
            assert(ogv[i as int] == og@[i as int]@);
            assert(ogv.skip(i as int).drop_first() =~= ogv.skip(i as int + 1));
        }
        let g = &og[i];
        if g.asset == *asset {
            proof {
                assert(find_by_asset(ogv.skip(i as int), asset@) == Some(ogv[i as int]));
            }
            return Some(g);
        }
        i = i + 1;
    }
    proof {
        assert(ogv.skip(n as int) =~= Seq::<GraphicV>::empty());
    }
    None
}

/// The prior graphics handed to a reconciliation, viewed mathematically:
/// `None` at first registration, the stored records during an update.
pub open spec fn old_graphics_view(og: Option<&Vec<IndexedGraphic>>) -> Option<Seq<GraphicV>> {
    match og {
        Some(v) => Some(graphics_view(v@)),
        None => None,
    }
}

/// Reconciles the proposed graphics against the previously stored ones.
///
/// Every output record carries the proposal's content, the owning
/// collection `collection_id`, and a freshly minted identifier distinct
/// from every identifier in `state_graphics` and from the other minted
/// ones. Creation timestamps are carried forward across a natural-key
/// match; the last-modified timestamp moves only on a content change.
/// The returned flag says whether any entity counted as changed.
pub fn index_graphics_differential<C: Clock>(
    clock: &mut C,
    canister_id: &String,
    proposals: Vec<GraphicProposal>,
    collection_id: u64,
    old_graphics: Option<&Vec<IndexedGraphic>>,
    state_graphics: &Vec<IndexedGraphic>,
    now: &String,
) -> (r: Result<(Vec<IndexedGraphic>, bool), RegistryError>)
    ensures
        r is Ok,
        ({
            let out = r->Ok_0.0;
            let changed = r->Ok_0.1;
            let ogv = old_graphics_view(old_graphics);
            &&& out@.len() == proposals@.len()
            &&& forall|i: int|
                0 <= i < out@.len() ==> (#[trigger] out@[i])@ == merged_graphic(
                    ogv,
                    proposals@[i]@,
                    collection_id,
                    out@[i].ogid,
                    canister_id@,
                    now@,
                )
            &&& forall|i: int, j: int|
                0 <= i < out@.len() && 0 <= j < state_graphics@.len() ==> (#[trigger] out@[i]).ogid
                    != (#[trigger] state_graphics@[j]).ogid
            &&& forall|i: int, j: int|
                0 <= i < j < out@.len() ==> (#[trigger] out@[i]).ogid != (#[trigger] out@[j]).ogid
            &&& changed == exists|i: int|
                0 <= i < proposals@.len() && graphic_changed(ogv, (#[trigger] proposals@[i])@)
        }),
{
    let ghost ogv = old_graphics_view(old_graphics);
    let n = proposals.len();
    let mut used: Vec<u64> = Vec::new();
    let m = state_graphics.len();
    let mut j: usize = 0;
    while j < m
        invariant
            j <= m,
            m == state_graphics@.len(),
            used@.len() == j,
            forall|k: int| 0 <= k < j ==> used@[k] == (#[trigger] state_graphics@[k]).ogid,
        decreases m - j,
    {
        used.push(state_graphics[j].ogid);
        j = j + 1;
    }
    let mut out: Vec<IndexedGraphic> = Vec::new();
    let mut changed = false;
    let mut i: usize = 0;
    while i < n
        invariant
            i <= n,
            n == proposals@.len(),
            m == state_graphics@.len(),
            ogv == old_graphics_view(old_graphics),
            out@.len() == i,
            used@.len() == m + i,
            forall|k: int| 0 <= k < m ==> used@[k] == (#[trigger] state_graphics@[k]).ogid,
            forall|k: int| 0 <= k < i ==> used@[m + k] == (#[trigger] out@[k]).ogid,
            forall|k: int|
                0 <= k < i ==> (#[trigger] out@[k])@ == merged_graphic(
                    ogv,
                    proposals@[k]@,
                    collection_id,
                    out@[k].ogid,
                    canister_id@,
                    now@,
                ),
            forall|k: int, l: int|
                0 <= k < i && 0 <= l < m ==> (#[trigger] out@[k]).ogid
                    != (#[trigger] state_graphics@[l]).ogid,
            forall|k: int, l: int|
                0 <= k < l < i ==> (#[trigger] out@[k]).ogid != (#[trigger] out@[l]).ogid,
            changed == exists|k: int|
                0 <= k < i && graphic_changed(ogv, (#[trigger] proposals@[k])@),
        decreases n - i,
    {
        let p = &proposals[i];
        let gid = generate_ogid(clock, canister_id, &p.asset, &used);
        let (reg_ts, upd_ts, diff): (String, Option<String>, bool) = match old_graphics {
            Some(old) => match find_graphic_by_asset(old, &p.asset) {
                Some(o) => {
                    if !graphic_fields_differ(o, p) {
                        (o.registration_timestamp.clone(), clone_opt_string(&o.update_timestamp),
                        false)
                    } else {
                        (o.registration_timestamp.clone(), Some(now.clone()), true)
                    }
                },
                None => (now.clone(), Some(now.clone()), true),
            },
            None => (now.clone(), None, true),
        };
        proof {
            assert(diff == graphic_changed(ogv, proposals@[i as int]@));
        }
        if diff {
            changed = true;
        }
        let g = IndexedGraphic {
            ogid: gid,
            collection_id,
            asset: p.asset.clone(),
            title: p.title.clone(),
            description: clone_opt_string(&p.description),
            registration_timestamp: reg_ts,
            update_timestamp: upd_ts,
            canister_id: canister_id.clone(),
        };
        proof {
            assert(g@ == merged_graphic(ogv, proposals@[i as int]@, collection_id, gid,
                canister_id@, now@));
            assert(forall|l: int| 0 <= l < used@.len() ==> used@[l] != gid);
        }
        out.push(g);
        used.push(gid);
        proof {
            if diff {
                assert(exists|k: int|
                    0 <= k < i + 1 && graphic_changed(ogv, (#[trigger] proposals@[k])@)) by {
                    assert(graphic_changed(ogv, (proposals@[i as int])@));
                }
            }
        }
        i = i + 1;
    }
    Ok((out, changed))
}

/// Builds the reconciled collection record from the proposal, the member
/// records and the prior record, preserving the creation timestamp when a
/// prior record exists and moving the last-modified timestamp only when a
/// tracked field differs.
pub fn index_collection(
    proposal: CollectionProposal,
    indexed_graphics: &Vec<IndexedGraphic>,
    collection_id: u64,
    old_collection: Option<&IndexedCollection>,
    now: &String,
) -> (r: Result<IndexedCollection, RegistryError>)
    ensures
        r is Ok,
        r->Ok_0@ == merged_collection(
            match old_collection {
                Some(c) => Some(c@),
                None => None,
            },
            proposal@,
            ogids_of(indexed_graphics@),
            collection_id,
            now@,
        ),
{
    let n = indexed_graphics.len();
    let mut gids: Vec<u64> = Vec::new();
    let mut i: usize = 0;
    while i < n
        invariant
            i <= n,
            n == indexed_graphics@.len(),
            gids@.len() == i,
            forall|k: int| 0 <= k < i ==> gids@[k] == (#[trigger] indexed_graphics@[k]).ogid,
        decreases n - i,
    {
        gids.push(indexed_graphics[i].ogid);
        i = i + 1;
    }
    proof {
        assert(gids@ =~= ogids_of(indexed_graphics@));
    }
    let (reg_ts, upd_ts): (String, Option<String>) = match old_collection {
        Some(old) => {
            if collection_fields_differ(old, &proposal) {
                (old.registration_timestamp.clone(), Some(now.clone()))
            } else {
                (old.registration_timestamp.clone(), clone_opt_string(&old.update_timestamp))
            }
        },
        None => (now.clone(), None),
    };
    Ok(
        IndexedCollection {
            collection_id,
            title: proposal.title,
            description: proposal.description,
            artist: proposal.artist,
            external_link: proposal.external_link,
            graphics: gids,
            registration_timestamp: reg_ts,
            update_timestamp: upd_ts,
        },
    )
}

} // verus!
