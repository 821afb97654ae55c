//! Data model of the registry: graphic and collection records, proposals,
//! the whole registry state, their mathematical views, and the state
//! invariant (distinct identifiers, referential integrity).

use vstd::prelude::*;

verus! {

/// Persistent record for a registered graphic.
#[derive(Debug)]
pub struct IndexedGraphic {
    pub ogid: u64,
    pub collection_id: u64,
    pub asset: String,
    pub title: String,
    pub description: Option<String>,
    pub registration_timestamp: String,
    pub update_timestamp: Option<String>,
    pub canister_id: String,
}

/// Mathematical image of a graphic record.
pub struct GraphicV {
    pub ogid: u64,
    pub collection_id: u64,
    pub asset: Seq<char>,
    pub title: Seq<char>,
    pub description: Option<Seq<char>>,
    pub registration_timestamp: Seq<char>,
    pub update_timestamp: Option<Seq<char>>,
    pub canister_id: Seq<char>,
}

/// Persistent record for a registered collection.
#[derive(Debug)]
pub struct IndexedCollection {
    pub collection_id: u64,
    pub title: String,
    pub description: Option<String>,
    pub artist: Option<String>,
    pub external_link: Option<String>,
    pub graphics: Vec<u64>,
    pub registration_timestamp: String,
    pub update_timestamp: Option<String>,
}

/// Mathematical image of a collection record.
pub struct CollectionV {
    pub collection_id: u64,
    pub title: Seq<char>,
    pub description: Option<Seq<char>>,
    pub artist: Option<Seq<char>>,
    pub external_link: Option<Seq<char>>,
    pub graphics: Seq<u64>,
    pub registration_timestamp: Seq<char>,
    pub update_timestamp: Option<Seq<char>>,
}

/// The complete registry state: every collection and every graphic.
#[derive(Debug)]
pub struct RegistryState {
    pub registered_collections: Vec<IndexedCollection>,
    pub registered_graphics: Vec<IndexedGraphic>,
}

/// Mathematical image of the registry state.
pub struct StateV {
    pub collections: Seq<CollectionV>,
    pub graphics: Seq<GraphicV>,
}

/// Proposal for a collection, as carried by a metadata document.
#[derive(Debug)]
pub struct CollectionProposal {
    pub title: String,
    pub description: Option<String>,
    pub artist: Option<String>,
    pub external_link: Option<String>,
}

/// Mathematical image of a collection proposal.
pub struct CollectionProposalV {
    pub title: Seq<char>,
    pub description: Option<Seq<char>>,
    pub artist: Option<Seq<char>>,
    pub external_link: Option<Seq<char>>,
}

/// Proposal for a graphic, as carried by a metadata document.
#[derive(Debug)]
pub struct GraphicProposal {
    pub asset: String,
    pub title: String,
    pub description: Option<String>,
}

/// Mathematical image of a graphic proposal.
pub struct GraphicProposalV {
    pub asset: Seq<char>,
    pub title: Seq<char>,
    pub description: Option<Seq<char>>,
}

/// The view of an optional text field.
pub open spec fn opt_text(o: Option<String>) -> Option<Seq<char>> {
    match o {
        Some(s) => Some(s@),
        None => None,
    }
}

impl View for IndexedGraphic {
    type V = GraphicV;

    open spec fn view(&self) -> GraphicV {
        GraphicV {
            ogid: self.ogid,
            collection_id: self.collection_id,
            asset: self.asset@,
            title: self.title@,
            description: opt_text(self.description),
            registration_timestamp: self.registration_timestamp@,
            update_timestamp: opt_text(self.update_timestamp),
            canister_id: self.canister_id@,
        }
    }
}

impl View for IndexedCollection {
    type V = CollectionV;

    open spec fn view(&self) -> CollectionV {
        CollectionV {
            collection_id: self.collection_id,
            title: self.title@,
            description: opt_text(self.description),
            artist: opt_text(self.artist),
            external_link: opt_text(self.external_link),
            graphics: self.graphics@,
            registration_timestamp: self.registration_timestamp@,
            update_timestamp: opt_text(self.update_timestamp),
        }
    }
}

impl View for CollectionProposal {
    type V = CollectionProposalV;

    open spec fn view(&self) -> CollectionProposalV {
        CollectionProposalV {
            title: self.title@,
            description: opt_text(self.description),
            artist: opt_text(self.artist),
            external_link: opt_text(self.external_link),
        }
    }
}

impl View for GraphicProposal {
    type V = GraphicProposalV;

    open spec fn view(&self) -> GraphicProposalV {
        GraphicProposalV {
            asset: self.asset@,
            title: self.title@,
            description: opt_text(self.description),
        }
    }
}

/// View of a sequence of graphic records.
pub open spec fn graphics_view(s: Seq<IndexedGraphic>) -> Seq<GraphicV> {
    s.map_values(|g: IndexedGraphic| g@)
}

/// View of a sequence of collection records.
pub open spec fn collections_view(s: Seq<IndexedCollection>) -> Seq<CollectionV> {
    s.map_values(|c: IndexedCollection| c@)
}

/// View of a sequence of graphic proposals.
pub open spec fn proposals_view(s: Seq<GraphicProposal>) -> Seq<GraphicProposalV> {
    s.map_values(|p: GraphicProposal| p@)
}

impl View for RegistryState {
    type V = StateV;

    open spec fn view(&self) -> StateV {
        StateV {
            collections: collections_view(self.registered_collections@),
            graphics: graphics_view(self.registered_graphics@),
        }
    }
}

/// Clones an optional owned string, preserving the value exactly.
pub fn clone_opt_string(o: &Option<String>) -> (r: Option<String>)
    ensures
        r == *o,
{
    match o {
        Some(s) => Some(s.clone()),
        None => None,
    }
}

impl Clone for IndexedGraphic {
    fn clone(&self) -> (r: Self)
        ensures
            r@ == self@,
    {
        IndexedGraphic {
            ogid: self.ogid,
            collection_id: self.collection_id,
            asset: self.asset.clone(),
            title: self.title.clone(),
            description: clone_opt_string(&self.description),
            registration_timestamp: self.registration_timestamp.clone(),
            update_timestamp: clone_opt_string(&self.update_timestamp),
            canister_id: self.canister_id.clone(),
        }
    }
}

impl Clone for IndexedCollection {
    fn clone(&self) -> (r: Self)
        ensures
            r@ == self@,
    {
        IndexedCollection {
            collection_id: self.collection_id,
            title: self.title.clone(),
            description: clone_opt_string(&self.description),
            artist: clone_opt_string(&self.artist),
            external_link: clone_opt_string(&self.external_link),
            graphics: self.graphics.clone(),
            registration_timestamp: self.registration_timestamp.clone(),
            update_timestamp: clone_opt_string(&self.update_timestamp),
        }
    }
}

/// Pairwise distinctness of the keys that `key` projects out of `s`.
pub open spec fn distinct_keys<A>(s: Seq<A>, key: spec_fn(A) -> u64) -> bool {
    forall|i: int, j: int|
        0 <= i < j < s.len() ==> key(s[i]) != key(s[j])
}

/// Whether some element of `s` carries the key `v`.
pub open spec fn has_key<A>(s: Seq<A>, key: spec_fn(A) -> u64, v: u64) -> bool {
    exists|i: int| 0 <= i < s.len() && key(#[trigger] s[i]) == v
}

/// The key of a collection record: its identifier.
pub open spec fn cid_key() -> spec_fn(CollectionV) -> u64 {
    |c: CollectionV| c.collection_id
}

/// The key of a graphic record: its identifier.
pub open spec fn gid_key() -> spec_fn(GraphicV) -> u64 {
    |g: GraphicV| g.ogid
}

/// Keeps the collections other than `cid`.
pub open spec fn keeps_collection(cid: u64) -> spec_fn(CollectionV) -> bool {
    |c: CollectionV| c.collection_id != cid
}

/// Keeps the graphics not owned by `cid`.
pub open spec fn keeps_graphic(cid: u64) -> spec_fn(GraphicV) -> bool {
    |g: GraphicV| g.collection_id != cid
}

/// Keeps the graphics owned by `cid`.
pub open spec fn owns_graphic(cid: u64) -> spec_fn(GraphicV) -> bool {
    |g: GraphicV| g.collection_id == cid
}

/// All identifiers a collection lists resolve to stored graphics owned by it.
pub open spec fn members_resolve(s: StateV) -> bool {
    forall|i: int, k: int|
        0 <= i < s.collections.len() && 0 <= k < s.collections[i].graphics.len()
            ==> has_graphic_member(s, s.collections[i].collection_id,
                #[trigger] s.collections[i].graphics[k])
}

/// Some stored graphic has identifier `gid` and owner `cid`.
pub open spec fn has_graphic_member(s: StateV, cid: u64, gid: u64) -> bool {
    exists|m: int|
        0 <= m < s.graphics.len() && (#[trigger] s.graphics[m]).ogid == gid
            && s.graphics[m].collection_id == cid
}

/// Every stored graphic is owned by a stored collection.
pub open spec fn no_orphans(s: StateV) -> bool {
    forall|m: int|
        0 <= m < s.graphics.len()
            ==> has_key(s.collections, cid_key(), (#[trigger] s.graphics[m]).collection_id)
}

/// The registry invariant: collection identifiers pairwise distinct, graphic
/// identifiers pairwise distinct, member lists resolve to owned graphics,
/// and no graphic is orphaned.
pub open spec fn state_inv(s: StateV) -> bool {
    &&& distinct_keys(s.collections, cid_key())
    &&& distinct_keys(s.graphics, gid_key())
    &&& members_resolve(s)
    &&& no_orphans(s)
}

/// Filtering commutes with appending one element.
pub proof fn lemma_filter_push<A>(s: Seq<A>, pred: spec_fn(A) -> bool, x: A)
    ensures
        s.push(x).filter(pred) == if pred(x) {
            s.filter(pred).push(x)
        } else {
            s.filter(pred)
        },
    decreases s.len(),
{
    reveal(Seq::filter);
    assert(s.push(x).drop_last() =~= s);
    assert(s.push(x).last() == x);
}

/// A key present in the filtered sequence is present in the original.
pub proof fn lemma_filter_has_key<A>(s: Seq<A>, pred: spec_fn(A) -> bool, key: spec_fn(A) -> u64, v: u64)
    requires
        has_key(s.filter(pred), key, v),
    ensures
        has_key(s, key, v),
    decreases s.len(),
{
    reveal(Seq::filter);
    if s.len() > 0 {
        let d = s.drop_last();
        if pred(s.last()) && key(s.last()) == v {
            assert(key(s[s.len() - 1]) == v);
        } else {
            if s.filter(pred).len() > 0 && pred(s.last())
                && s.filter(pred).last() == s.last() && key(s.last()) == v {
                assert(key(s[s.len() - 1]) == v);
            } else {
                assert(has_key(d.filter(pred), key, v)) by {
                    let i = choose|i: int|
                        0 <= i < s.filter(pred).len() && key(#[trigger] s.filter(pred)[i]) == v;
                    if pred(s.last()) {
                        assert(s.filter(pred) == d.filter(pred).push(s.last()));
                        assert(0 <= i < d.filter(pred).len());
                        assert(d.filter(pred)[i] == s.filter(pred)[i]);
                    } else {
                        assert(s.filter(pred) == d.filter(pred));
                    }
                }
                lemma_filter_has_key(d, pred, key, v);
                let i = choose|i: int| 0 <= i < d.len() && key(#[trigger] d[i]) == v;
                assert(key(s[i]) == v);
            }
        }
    } else {
        assert(s.filter(pred).len() == 0);
    }
}

/// Filtering preserves pairwise distinctness of keys.
pub proof fn lemma_filter_distinct_keys<A>(s: Seq<A>, pred: spec_fn(A) -> bool, key: spec_fn(A) -> u64)
    requires
        distinct_keys(s, key),
    ensures
        distinct_keys(s.filter(pred), key),
    decreases s.len(),
{
    reveal(Seq::filter);
    if s.len() > 0 {
        let d = s.drop_last();
        let l = s.last();
        assert(distinct_keys(d, key)) by {
            assert(forall|i: int| 0 <= i < d.len() ==> d[i] == s[i]);
        }
        lemma_filter_distinct_keys(d, pred, key);
        if pred(l) {
            assert(s.filter(pred) == d.filter(pred).push(l));
            assert(!has_key(d.filter(pred), key, key(l))) by {
                if has_key(d.filter(pred), key, key(l)) {
                    lemma_filter_has_key(d, pred, key, key(l));
                    let i = choose|i: int| 0 <= i < d.len() && key(#[trigger] d[i]) == key(l);
                    assert(key(s[i]) == key(s[s.len() - 1]));
                }
            }
            assert forall|i: int, j: int|
                0 <= i < j < s.filter(pred).len() implies
                key(s.filter(pred)[i]) != key(s.filter(pred)[j]) by {
                if j < s.filter(pred).len() - 1 {
                    assert(s.filter(pred)[i] == d.filter(pred)[i]);
                    assert(s.filter(pred)[j] == d.filter(pred)[j]);
                } else {
                    assert(s.filter(pred)[j] == l);
                    assert(s.filter(pred)[i] == d.filter(pred)[i]);
                    assert(!(key(d.filter(pred)[i]) == key(l))) by {
                        if key(d.filter(pred)[i]) == key(l) {
                            assert(has_key(d.filter(pred), key, key(l)));
                        }
                    }
                }
            }
        } else {
            assert(s.filter(pred) == d.filter(pred));
        }
    }
}

/// An element of the filtered sequence satisfies the predicate and occurs
/// in the original sequence.
pub proof fn lemma_filter_elem<A>(s: Seq<A>, pred: spec_fn(A) -> bool, i: int)
    requires
        0 <= i < s.filter(pred).len(),
    ensures
        pred(s.filter(pred)[i]),
        exists|m: int| 0 <= m < s.len() && #[trigger] s[m] == s.filter(pred)[i],
    decreases s.len(),
{
    reveal(Seq::filter);
    if s.len() > 0 {
        let d = s.drop_last();
        if pred(s.last()) && i == s.filter(pred).len() - 1
            && s.filter(pred)[i] == s.last() {
            assert(s[s.len() - 1] == s.filter(pred)[i]);
        } else {
            assert(0 <= i < d.filter(pred).len()) by {
                if pred(s.last()) {
                    assert(s.filter(pred) == d.filter(pred).push(s.last()));
                } else {
                    assert(s.filter(pred) == d.filter(pred));
                }
            }
            assert(d.filter(pred)[i] == s.filter(pred)[i]) by {
                if pred(s.last()) {
                    assert(s.filter(pred) == d.filter(pred).push(s.last()));
                }
            }
            lemma_filter_elem(d, pred, i);
            let m = choose|m: int| 0 <= m < d.len() && #[trigger] d[m] == d.filter(pred)[i];
            assert(s[m] == s.filter(pred)[i]);
        }
    }
}

/// An element of the original sequence that satisfies the predicate occurs
/// in the filtered sequence.
pub proof fn lemma_filter_keeps<A>(s: Seq<A>, pred: spec_fn(A) -> bool, m: int)
    requires
        0 <= m < s.len(),
        pred(s[m]),
    ensures
        exists|i: int| 0 <= i < s.filter(pred).len() && #[trigger] s.filter(pred)[i] == s[m],
    decreases s.len(),
{
    reveal(Seq::filter);
    if s.len() > 0 {
        let d = s.drop_last();
        if m == s.len() - 1 {
            assert(s.filter(pred) == d.filter(pred).push(s.last()));
            assert(s.filter(pred)[s.filter(pred).len() - 1] == s[m]);
        } else {
            assert(d[m] == s[m]);
            lemma_filter_keeps(d, pred, m);
            let i = choose|i: int|
                0 <= i < d.filter(pred).len() && #[trigger] d.filter(pred)[i] == d[m];
            if pred(s.last()) {
                assert(s.filter(pred) == d.filter(pred).push(s.last()));
                assert(s.filter(pred)[i] == d[m]);
            } else {
                assert(s.filter(pred) == d.filter(pred));
                assert(s.filter(pred)[i] == d[m]);
            }
        }
    }
}

} // verus!
