//! The state store and its transitions: initialization, lookup, commit,
//! cascading delete, and the full register / update orchestration.

use vstd::prelude::*;

use crate::clock::{format_timestamp, lex_leq, timestamp_text_of, Clock};
use crate::errors::RegistryError;
use crate::idgen::generate_collection_id;
use crate::json::json_doc_of;
use crate::reconcile::{collection_fields_differ, collection_fields_differ_spec, find_by_asset,
    gidseq_of, graphic_changed, graphic_fields_differ_spec, index_collection,
    index_graphics_differential, merged_collection, merged_graphic, ogids_of};
use crate::records::{cid_key, collections_view, distinct_keys, gid_key, graphics_view,
    has_graphic_member, has_key, keeps_collection, keeps_graphic, lemma_filter_distinct_keys,
    lemma_filter_elem, lemma_filter_keeps, lemma_filter_push, members_resolve, no_orphans,
    owns_graphic, proposals_view, state_inv, CollectionProposalV, CollectionV, GraphicProposalV,
    GraphicV, IndexedCollection, IndexedGraphic, RegistryState, StateV};
use crate::validate::{parse_collection, parse_graphics, spec_parse_collection,
    spec_parse_graphics};

verus! {

/// A freshly initialized state: no collections, no graphics. An empty
/// state satisfies the registry invariant, which every mutating operation
/// then preserves.
pub fn init_state() -> (s: RegistryState)
    ensures
        s@.collections == Seq::<CollectionV>::empty(),
        s@.graphics == Seq::<GraphicV>::empty(),
        state_inv(s@),
{
    let s = RegistryState { registered_collections: Vec::new(), registered_graphics: Vec::new() };
    proof {
        assert(s@.collections =~= Seq::<CollectionV>::empty());
        assert(s@.graphics =~= Seq::<GraphicV>::empty());
    }
    s
}

impl Clone for RegistryState {
    fn clone(&self) -> (r: Self)
        ensures
            r@ == self@,
    {
        let rc = self.registered_collections.clone();
        let rg = self.registered_graphics.clone();
        proof {
            assert forall|i: int| 0 <= i < rc@.len() implies rc@[i]@
                == self.registered_collections@[i]@ by {
                assert(cloned(self.registered_collections@[i], rc@[i]));
            }
            assert forall|i: int| 0 <= i < rg@.len() implies rg@[i]@
                == self.registered_graphics@[i]@ by {
                assert(cloned(self.registered_graphics@[i], rg@[i]));
            }
            assert(collections_view(rc@) =~= collections_view(self.registered_collections@));
            assert(graphics_view(rg@) =~= graphics_view(self.registered_graphics@));
        }
        RegistryState { registered_collections: rc, registered_graphics: rg }
    }
}

/// A copy of the whole state, for the host's snapshot mechanism.
pub fn get_state(s: &RegistryState) -> (r: RegistryState)
    ensures
        r@ == s@,
{
    s.clone()
}

/// Replaces the whole state, as when a snapshot is restored.
pub fn set_state(s: &mut RegistryState, new_state: RegistryState)
    ensures
        final(s)@ == new_state@,
{
    *s = new_state;
}

/// First stored collection with the given identifier.
pub open spec fn find_collection_spec(cs: Seq<CollectionV>, id: u64) -> Option<CollectionV>
    decreases cs.len(),
{
    if cs.len() == 0 {
        None
    } else if cs[0].collection_id == id {
        Some(cs[0])
    } else {
        find_collection_spec(cs.drop_first(), id)
    }
}

/// The first-match lookup finds a record exactly when some record carries
/// the identifier, and what it finds is a stored record carrying it.
pub proof fn lemma_find_collection_has_key(cs: Seq<CollectionV>, id: u64)
    ensures
        (find_collection_spec(cs, id) is Some) == has_key(cs, cid_key(), id),
        match find_collection_spec(cs, id) {
            Some(c) => c.collection_id == id && exists|i: int|
                0 <= i < cs.len() && #[trigger] cs[i] == c,
            None => true,
        },
    decreases cs.len(),
{
    if cs.len() == 0 {
        assert(!has_key(cs, cid_key(), id));
    } else if cs[0].collection_id == id {
        assert(cid_key()(cs[0]) == id);
        assert(has_key(cs, cid_key(), id));
    } else {
        let d = cs.drop_first();
        lemma_find_collection_has_key(d, id);
        assert forall|i: int| 0 <= i < d.len() implies d[i] == cs[i + 1] by {}
        if has_key(d, cid_key(), id) {
            let i = choose|i: int| 0 <= i < d.len() && cid_key()(#[trigger] d[i]) == id;
            assert(cid_key()(cs[i + 1]) == id);
            assert(has_key(cs, cid_key(), id));
        }
        if has_key(cs, cid_key(), id) {
            let i = choose|i: int| 0 <= i < cs.len() && cid_key()(#[trigger] cs[i]) == id;
            assert(i != 0);
            assert(cid_key()(d[i - 1]) == id);
            assert(has_key(d, cid_key(), id));
        }
        match find_collection_spec(d, id) {
            Some(c) => {
                let i = choose|i: int| 0 <= i < d.len() && #[trigger] d[i] == c;
                assert(cs[i + 1] == c);
            },
            None => {},
        }
    }
}

/// Finds and returns a copy of the collection with the given identifier,
/// if one is stored.
pub fn find_collection(s: &RegistryState, collection_id: u64) -> (r: Option<IndexedCollection>)
    ensures
        match r {
            Some(c) => find_collection_spec(s@.collections, collection_id) == Some(c@),
            None => find_collection_spec(s@.collections, collection_id) is None,
        },
{
    let ghost cs = s@.collections;
    let n = s.registered_collections.len();
    let mut i: usize = 0;
    proof {
        assert(cs.skip(0) =~= cs);
    }
    while i < n
        invariant
            i <= n,
            n == s.registered_collections@.len(),
            cs == s@.collections,
            cs.len() == n,
            find_collection_spec(cs, collection_id) == find_collection_spec(
                cs.skip(i as int),
                collection_id,
            ),
        decreases n - i,
    {
        proof {
            assert(cs.skip(i as int)[0] == cs[i as int]);
            assert(cs[i as int] == s.registered_collections@[i as int]@);
            assert(cs.skip(i as int).drop_first() =~= cs.skip(i as int + 1));
        }
        let c = &s.registered_collections[i];
        if c.collection_id == collection_id {
            proof {
                assert(find_collection_spec(cs.skip(i as int), collection_id)
                    == Some(cs[i as int]));
            }
            return Some(c.clone());
        }
        i = i + 1;
    }
    proof {
        assert(cs.skip(n as int) =~= Seq::<CollectionV>::empty());
    }
    None
}

/// Copies of the graphics owned by the given collection, in store order.
pub fn collect_graphics_of(graphics: &Vec<IndexedGraphic>, collection_id: u64) -> (r: Vec<
    IndexedGraphic,
>)
    ensures
        graphics_view(r@) == graphics_view(graphics@).filter(owns_graphic(collection_id)),
{
    let ghost gv = graphics_view(graphics@);
    let n = graphics.len();
    let mut out: Vec<IndexedGraphic> = Vec::new();
    let mut i: usize = 0;
    proof {
        assert(gv.subrange(0, 0) =~= Seq::<GraphicV>::empty());
        assert(Seq::<GraphicV>::empty().filter(owns_graphic(collection_id))
            =~= Seq::<GraphicV>::empty()) by {
            reveal(Seq::filter);
        }
        assert(graphics_view(out@) =~= Seq::<GraphicV>::empty());
    }
    while i < n
        invariant
            i <= n,
            n == graphics@.len(),
            gv == graphics_view(graphics@),
            gv.len() == n,
            graphics_view(out@) == gv.subrange(0, i as int).filter(owns_graphic(collection_id)),
        decreases n - i,
    {
        proof {
            assert(gv[i as int] == graphics@[i as int]@);
            assert(gv.subrange(0, i as int + 1) =~= gv.subrange(0, i as int).push(gv[i as int]));
            lemma_filter_push(gv.subrange(0, i as int), owns_graphic(collection_id), gv[i as int]);
        }
        let g = &graphics[i];
        if g.collection_id == collection_id {
            let ghost before = out@;
            out.push(g.clone());
            proof {
                assert(graphics_view(out@) =~= graphics_view(before).push(graphics@[i as int]@));
            }
        }
        i = i + 1;
    }
    proof {
        assert(gv.subrange(0, n as int) =~= gv);
    }
    out
}

/// Removes every collection record with the given identifier.
fn retain_collections(v: &mut Vec<IndexedCollection>, collection_id: u64)
    ensures
        collections_view(final(v)@) == collections_view(old(v)@).filter(
            keeps_collection(collection_id),
        ),
{
    let ghost cv = collections_view(v@);
    let n = v.len();
    let mut out: Vec<IndexedCollection> = Vec::new();
    let mut i: usize = 0;
    proof {
        assert(cv.subrange(0, 0) =~= Seq::<CollectionV>::empty());
        assert(Seq::<CollectionV>::empty().filter(keeps_collection(collection_id))
            =~= Seq::<CollectionV>::empty()) by {
            reveal(Seq::filter);
        }
        assert(collections_view(out@) =~= Seq::<CollectionV>::empty());
    }
    while i < n
        invariant
            i <= n,
            n == v@.len(),
            cv == collections_view(v@),
            cv.len() == n,
            collections_view(out@) == cv.subrange(0, i as int).filter(
                keeps_collection(collection_id),
            ),
        decreases n - i,
    {
        proof {
            assert(cv[i as int] == v@[i as int]@);
            assert(cv.subrange(0, i as int + 1) =~= cv.subrange(0, i as int).push(cv[i as int]));
            lemma_filter_push(cv.subrange(0, i as int), keeps_collection(collection_id),
                cv[i as int]);
        }
        let c = &v[i];
        if !(c.collection_id == collection_id) {
            let ghost before = out@;
            out.push(c.clone());
            proof {
                assert(collections_view(out@) =~= collections_view(before).push(v@[i as int]@));
            }
        }
        i = i + 1;
    }
    proof {
        assert(cv.subrange(0, n as int) =~= cv);
    }
    *v = out;
}

/// Removes every graphic owned by the given collection.
fn retain_graphics(v: &mut Vec<IndexedGraphic>, collection_id: u64)
    ensures
        graphics_view(final(v)@) == graphics_view(old(v)@).filter(keeps_graphic(collection_id)),
{
    let ghost gv = graphics_view(v@);
    let n = v.len();
    let mut out: Vec<IndexedGraphic> = Vec::new();
    let mut i: usize = 0;
    proof {
        assert(gv.subrange(0, 0) =~= Seq::<GraphicV>::empty());
        assert(Seq::<GraphicV>::empty().filter(keeps_graphic(collection_id))
            =~= Seq::<GraphicV>::empty()) by {
            reveal(Seq::filter);
        }
        assert(graphics_view(out@) =~= Seq::<GraphicV>::empty());
    }
    while i < n
        invariant
            i <= n,
            n == v@.len(),
            gv == graphics_view(v@),
            gv.len() == n,
            graphics_view(out@) == gv.subrange(0, i as int).filter(keeps_graphic(collection_id)),
        decreases n - i,
    {
        proof {
            assert(gv[i as int] == v@[i as int]@);
            assert(gv.subrange(0, i as int + 1) =~= gv.subrange(0, i as int).push(gv[i as int]));
            lemma_filter_push(gv.subrange(0, i as int), keeps_graphic(collection_id),
                gv[i as int]);
        }
        let g = &v[i];
        if !(g.collection_id == collection_id) {
            let ghost before = out@;
            out.push(g.clone());
            proof {
                assert(graphics_view(out@) =~= graphics_view(before).push(v@[i as int]@));
            }
        }
        i = i + 1;
    }
    proof {
        assert(gv.subrange(0, n as int) =~= gv);
    }
    *v = out;
}

/// Atomically appends the reconciled graphics and the collection record.
pub fn store_state(
    s: &mut RegistryState,
    indexed_graphics: Vec<IndexedGraphic>,
    indexed_collection: IndexedCollection,
) -> (r: Result<(), RegistryError>)
    ensures
        r == Ok::<(), RegistryError>(()),
        final(s)@.graphics == old(s)@.graphics + graphics_view(indexed_graphics@),
        final(s)@.collections == old(s)@.collections.push(indexed_collection@),
{
    let ghost g0 = s@.graphics;
    let ghost c0 = s@.collections;
    let ghost gadd = graphics_view(indexed_graphics@);
    let ghost cadd = indexed_collection@;
    let mut moved = indexed_graphics;
    s.registered_graphics.append(&mut moved);
    s.registered_collections.push(indexed_collection);
    proof {
        assert(graphics_view(s.registered_graphics@) =~= g0 + gadd);
        assert(collections_view(s.registered_collections@) =~= c0.push(cadd));
    }
    Ok(())
}

/// Removing one collection and its graphics leaves the invariant intact.
proof fn lemma_unregister_preserves_inv(s0: StateV, s1: StateV, cid: u64)
    requires
        state_inv(s0),
        s1.collections == s0.collections.filter(keeps_collection(cid)),
        s1.graphics == s0.graphics.filter(keeps_graphic(cid)),
    ensures
        state_inv(s1),
{
    lemma_filter_distinct_keys(s0.collections, keeps_collection(cid), cid_key());
    lemma_filter_distinct_keys(s0.graphics, keeps_graphic(cid), gid_key());
    assert forall|i: int, k: int|
        0 <= i < s1.collections.len() && 0 <= k < s1.collections[i].graphics.len() implies
        has_graphic_member(s1, s1.collections[i].collection_id,
            #[trigger] s1.collections[i].graphics[k]) by {
        lemma_filter_elem(s0.collections, keeps_collection(cid), i);
        let c = s1.collections[i];
        let m = choose|m: int|
            0 <= m < s0.collections.len() && #[trigger] s0.collections[m] == c;
        assert(has_graphic_member(s0, c.collection_id, c.graphics[k]));
        let mg = choose|mg: int|
            0 <= mg < s0.graphics.len() && (#[trigger] s0.graphics[mg]).ogid == c.graphics[k]
                && s0.graphics[mg].collection_id == c.collection_id;
        assert(keeps_graphic(cid)(s0.graphics[mg]));
        lemma_filter_keeps(s0.graphics, keeps_graphic(cid), mg);
        let w = choose|w: int|
            0 <= w < s1.graphics.len() && #[trigger] s1.graphics[w] == s0.graphics[mg];
        assert(s1.graphics[w].ogid == c.graphics[k] && s1.graphics[w].collection_id
            == c.collection_id);
    }
    assert forall|m: int| 0 <= m < s1.graphics.len() implies has_key(s1.collections, cid_key(), (
    #[trigger] s1.graphics[m]).collection_id) by {
        lemma_filter_elem(s0.graphics, keeps_graphic(cid), m);
        let g = s1.graphics[m];
        assert(keeps_graphic(cid)(g));
        let mo = choose|mo: int| 0 <= mo < s0.graphics.len() && #[trigger] s0.graphics[mo] == g;
        assert(has_key(s0.collections, cid_key(), g.collection_id));
        let ci = choose|ci: int|
            0 <= ci < s0.collections.len() && cid_key()(#[trigger] s0.collections[ci])
                == g.collection_id;
        assert(keeps_collection(cid)(s0.collections[ci]));
        lemma_filter_keeps(s0.collections, keeps_collection(cid), ci);
        let w = choose|w: int|
            0 <= w < s1.collections.len() && #[trigger] s1.collections[w] == s0.collections[ci];
        assert(cid_key()(s1.collections[w]) == g.collection_id);
    }
}

/// Atomically unregisters a collection and every graphic it owns.
/// Succeeds exactly when the collection is stored; on success nothing of
/// the collection remains; on failure the state is untouched.
pub fn try_unregister_collection(s: &mut RegistryState, collection_id: u64) -> (r: Result<
    (),
    RegistryError,
>)
    ensures
        has_key(old(s)@.collections, cid_key(), collection_id) ==> {
            &&& r == Ok::<(), RegistryError>(())
            &&& final(s)@.collections == old(s)@.collections.filter(
                keeps_collection(collection_id),
            )
            &&& final(s)@.graphics == old(s)@.graphics.filter(keeps_graphic(collection_id))
            &&& !has_key(final(s)@.collections, cid_key(), collection_id)
            &&& forall|m: int|
                0 <= m < final(s)@.graphics.len()
                    ==> (#[trigger] final(s)@.graphics[m]).collection_id != collection_id
        },
        !has_key(old(s)@.collections, cid_key(), collection_id) ==> r == Err::<
            (),
            RegistryError,
        >(RegistryError::NotFound) && final(s)@ == old(s)@,
        state_inv(old(s)@) ==> state_inv(final(s)@),
{
    proof {
        lemma_find_collection_has_key(s@.collections, collection_id);
    }
    let found = find_collection(s, collection_id);
    match found {
        Some(_) => {
            let ghost s0 = s@;
            retain_graphics(&mut s.registered_graphics, collection_id);
            retain_collections(&mut s.registered_collections, collection_id);
            proof {
                assert forall|i: int| 0 <= i < s@.collections.len() implies cid_key()((
                #[trigger] s@.collections[i])) != collection_id by {
                    lemma_filter_elem(s0.collections, keeps_collection(collection_id), i);
                }
                assert forall|m: int|
                    0 <= m < s@.graphics.len() implies (#[trigger] s@.graphics[m]).collection_id
                    != collection_id by {
                    lemma_filter_elem(s0.graphics, keeps_graphic(collection_id), m);
                }
                if state_inv(s0) {
                    lemma_unregister_preserves_inv(s0, s@, collection_id);
                }
            }
            Ok(())
        },
        None => Err(RegistryError::NotFound),
    }
}

/// The identifiers of the stored collections, in store order.
fn collect_collection_ids(cs: &Vec<IndexedCollection>) -> (r: Vec<u64>)
    ensures
        r@.len() == cs@.len(),
        forall|i: int| 0 <= i < r@.len() ==> r@[i] == (#[trigger] cs@[i]).collection_id,
{
    let n = cs.len();
    let mut out: Vec<u64> = Vec::new();
    let mut i: usize = 0;
    while i < n
        invariant
            i <= n,
            n == cs@.len(),
            out@.len() == i,
            forall|k: int| 0 <= k < i ==> out@[k] == (#[trigger] cs@[k]).collection_id,
        decreases n - i,
    {
        out.push(cs[i].collection_id);
        i = i + 1;
    }
    out
}

/// How a successful registration relates the new state to the old one:
/// the old records stand untouched, a run of reconciled graphics follows
/// them, and one new collection record closes the collection list, with
/// every minted identifier fresh and the minted ones pairwise distinct.
pub open spec fn register_shape(
    s0: StateV,
    s1: StateV,
    cp: CollectionProposalV,
    gps: Seq<GraphicProposalV>,
    canister: Seq<char>,
    now: Seq<char>,
) -> bool {
    let k = s0.graphics.len() as int;
    let newg = s1.graphics.skip(k);
    let c = s1.collections.last();
    &&& s1.collections == s0.collections.push(c)
    &&& s1.graphics.len() == s0.graphics.len() + gps.len()
    &&& s1.graphics.subrange(0, k) == s0.graphics
    &&& forall|i: int|
        0 <= i < newg.len() ==> #[trigger] newg[i] == merged_graphic(
            None,
            gps[i],
            c.collection_id,
            newg[i].ogid,
            canister,
            now,
        )
    &&& c == merged_collection(None, cp, gidseq_of(newg), c.collection_id, now)
    &&& !has_key(s0.collections, cid_key(), c.collection_id)
    &&& forall|i: int|
        0 <= i < newg.len() ==> !has_key(s0.graphics, gid_key(), (#[trigger] newg[i]).ogid)
    &&& distinct_keys(newg, gid_key())
}

/// Registering a fresh collection with fresh graphics leaves the
/// invariant intact.
proof fn lemma_register_preserves_inv(
    s0: StateV,
    s1: StateV,
    cp: CollectionProposalV,
    gps: Seq<GraphicProposalV>,
    canister: Seq<char>,
    now: Seq<char>,
)
    requires
        state_inv(s0),
        register_shape(s0, s1, cp, gps, canister, now),
    ensures
        state_inv(s1),
{
    let k = s0.graphics.len() as int;
    let newg = s1.graphics.skip(k);
    let c = s1.collections.last();
    let nc = s0.collections.len() as int;
    assert forall|i: int, j: int| 0 <= i < j < s1.collections.len() implies cid_key()(
        #[trigger] s1.collections[i],
    ) != cid_key()(#[trigger] s1.collections[j]) by {
        if j < nc {
            assert(s1.collections[i] == s0.collections[i]);
            assert(s1.collections[j] == s0.collections[j]);
        } else {
            assert(s1.collections[j] == c);
            assert(s1.collections[i] == s0.collections[i]);
            if cid_key()(s0.collections[i]) == c.collection_id {
                assert(has_key(s0.collections, cid_key(), c.collection_id));
            }
        }
    }
    assert forall|i: int, j: int| 0 <= i < j < s1.graphics.len() implies gid_key()(
        #[trigger] s1.graphics[i],
    ) != gid_key()(#[trigger] s1.graphics[j]) by {
        if j < k {
            assert(s1.graphics[i] == s0.graphics.subrange(0, k)[i]
                && s0.graphics.subrange(0, k)[i] == s0.graphics[i]);
            assert(s1.graphics[j] == s0.graphics.subrange(0, k)[j]
                && s0.graphics.subrange(0, k)[j] == s0.graphics[j]);
        } else if i < k {
            assert(s1.graphics[i] == s0.graphics.subrange(0, k)[i]
                && s0.graphics.subrange(0, k)[i] == s0.graphics[i]);
            assert(s1.graphics[j] == newg[j - k]);
            if gid_key()(s0.graphics[i]) == newg[j - k].ogid {
                assert(has_key(s0.graphics, gid_key(), newg[j - k].ogid));
            }
        } else {
            assert(s1.graphics[i] == newg[i - k]);
            assert(s1.graphics[j] == newg[j - k]);
        }
    }
    assert forall|i: int, kk: int|
        0 <= i < s1.collections.len() && 0 <= kk < s1.collections[i].graphics.len() implies
        has_graphic_member(s1, s1.collections[i].collection_id,
            #[trigger] s1.collections[i].graphics[kk]) by {
        if i < nc {
            assert(s1.collections[i] == s0.collections[i]);
            assert(has_graphic_member(s0, s0.collections[i].collection_id,
                s0.collections[i].graphics[kk]));
            let mg = choose|mg: int|
                0 <= mg < s0.graphics.len() && (#[trigger] s0.graphics[mg]).ogid
                    == s0.collections[i].graphics[kk] && s0.graphics[mg].collection_id
                    == s0.collections[i].collection_id;
            assert(s1.graphics[mg] == s0.graphics.subrange(0, k)[mg]
                && s0.graphics.subrange(0, k)[mg] == s0.graphics[mg]);
        } else {
            assert(s1.collections[i] == c);
            assert(c.graphics == gidseq_of(newg));
            assert(c.graphics[kk] == newg[kk].ogid);
            assert(newg[kk] == merged_graphic(None, gps[kk], c.collection_id, newg[kk].ogid,
                canister, now));
            assert(s1.graphics[k + kk] == newg[kk]);
            assert(s1.graphics[k + kk].ogid == c.graphics[kk] && s1.graphics[k
                + kk].collection_id == c.collection_id);
        }
    }
    assert forall|m: int| 0 <= m < s1.graphics.len() implies has_key(s1.collections, cid_key(), (
    #[trigger] s1.graphics[m]).collection_id) by {
        if m < k {
            assert(s1.graphics[m] == s0.graphics.subrange(0, k)[m]
                && s0.graphics.subrange(0, k)[m] == s0.graphics[m]);
            assert(has_key(s0.collections, cid_key(), s0.graphics[m].collection_id));
            let ci = choose|ci: int|
                0 <= ci < s0.collections.len() && cid_key()(#[trigger] s0.collections[ci])
                    == s0.graphics[m].collection_id;
            assert(s1.collections[ci] == s0.collections[ci]);
            assert(cid_key()(s1.collections[ci]) == s1.graphics[m].collection_id);
        } else {
            assert(s1.graphics[m] == newg[m - k]);
            assert(newg[m - k] == merged_graphic(None, gps[m - k], c.collection_id,
                newg[m - k].ogid, canister, now));
            assert(s1.collections[nc] == c);
            assert(cid_key()(s1.collections[nc]) == s1.graphics[m].collection_id);
        }
    }
}

/// Registers a new collection from a metadata blob: validates the blob,
/// mints a fresh collection identifier and fresh graphic identifiers,
/// reconciles against no prior records, and commits atomically. On a
/// validation failure nothing is written.
pub fn try_register_collection<C: Clock>(
    s: &mut RegistryState,
    clock: &mut C,
    canister_id: &String,
    metadata_blob: &str,
) -> (r: Result<(), RegistryError>)
    ensures
        state_inv(old(s)@) ==> state_inv(final(s)@),
        spec_parse_collection(json_doc_of(metadata_blob@)) is Err ==> r == Err::<
            (),
            RegistryError,
        >(RegistryError::Parse(spec_parse_collection(json_doc_of(metadata_blob@))->Err_0))
            && final(s)@ == old(s)@,
        spec_parse_collection(json_doc_of(metadata_blob@)) is Ok && spec_parse_graphics(
            json_doc_of(metadata_blob@),
        ) is Err ==> r == Err::<(), RegistryError>(
            RegistryError::Parse(spec_parse_graphics(json_doc_of(metadata_blob@))->Err_0),
        ) && final(s)@ == old(s)@,
        spec_parse_collection(json_doc_of(metadata_blob@)) is Ok && spec_parse_graphics(
            json_doc_of(metadata_blob@),
        ) is Ok ==> r == Ok::<(), RegistryError>(()) && (exists|tn: u64|
            register_shape(
                old(s)@,
                final(s)@,
                spec_parse_collection(json_doc_of(metadata_blob@))->Ok_0,
                spec_parse_graphics(json_doc_of(metadata_blob@))->Ok_0,
                canister_id@,
                timestamp_text_of(tn),
            ) && (forall|t: u64|
                t <= tn ==> lex_leq(timestamp_text_of(t), timestamp_text_of(tn)))),
{
    let cp = match parse_collection(metadata_blob) {
        Ok(p) => p,
        Err(f) => {
            return Err(RegistryError::Parse(f));
        },
    };
    let gps = match parse_graphics(metadata_blob) {
        Ok(p) => p,
        Err(f) => {
            return Err(RegistryError::Parse(f));
        },
    };
    let ghost cpv = cp@;
    let ghost gpsv = proposals_view(gps@);
    let ghost s0 = s@;
    let used = collect_collection_ids(&s.registered_collections);
    let cid = generate_collection_id(clock, canister_id, &used);
    proof {
        if has_key(s0.collections, cid_key(), cid) {
            let i = choose|i: int|
                0 <= i < s0.collections.len() && cid_key()(#[trigger] s0.collections[i]) == cid;
            assert(used@[i] == cid);
            assert(used@.contains(cid));
        }
    }
    let t_now = clock.now_nanos();
    let now = format_timestamp(t_now);
    let (new_gs, _changed) = match index_graphics_differential(
        clock,
        canister_id,
        gps,
        cid,
        None,
        &s.registered_graphics,
        &now,
    ) {
        Ok(t) => t,
        Err(_) => unreached(),
    };
    let new_c = match index_collection(cp, &new_gs, cid, None, &now) {
        Ok(c) => c,
        Err(_) => unreached(),
    };
    let ghost newg_v = graphics_view(new_gs@);
    let ghost newc_v = new_c@;
    let _ = store_state(s, new_gs, new_c);
    proof {
        let k = s0.graphics.len() as int;
        assert(s@.graphics.skip(k) =~= newg_v);
        assert(s@.graphics.subrange(0, k) =~= s0.graphics);
        assert(s@.collections.last() == newc_v);
        assert(gidseq_of(newg_v) =~= ogids_of(new_gs@));
        assert forall|i: int| 0 <= i < newg_v.len() implies !has_key(s0.graphics, gid_key(), (
        #[trigger] newg_v[i]).ogid) by {
            if has_key(s0.graphics, gid_key(), newg_v[i].ogid) {
                let j = choose|j: int|
                    0 <= j < s0.graphics.len() && gid_key()(#[trigger] s0.graphics[j])
                        == newg_v[i].ogid;
                assert(s0.graphics[j].ogid == s.registered_graphics@[j].ogid
                    || s0.graphics[j] == old(s).registered_graphics@[j]@);
                assert(false);
            }
        }
        assert(register_shape(s0, s@, cpv, gpsv, canister_id@, now@));
        let doc = json_doc_of(metadata_blob@);
        assert(spec_parse_collection(doc)->Ok_0 == cpv);
        assert(spec_parse_graphics(doc)->Ok_0 == gpsv);
        assert(old(s)@ == s0);
        assert(now@ == timestamp_text_of(t_now));
        assert(register_shape(old(s)@, s@, spec_parse_collection(doc)->Ok_0,
            spec_parse_graphics(doc)->Ok_0, canister_id@, timestamp_text_of(t_now)));
        assert(forall|t: u64|
            t <= t_now ==> lex_leq(timestamp_text_of(t), timestamp_text_of(t_now)));
        assert(exists|tn: u64|
            register_shape(old(s)@, s@, spec_parse_collection(doc)->Ok_0,
                spec_parse_graphics(doc)->Ok_0, canister_id@, timestamp_text_of(tn)) && (
            forall|t: u64| t <= tn ==> lex_leq(timestamp_text_of(t), timestamp_text_of(tn))));
        if state_inv(s0) {
            lemma_register_preserves_inv(s0, s@, cpv, gpsv, canister_id@, now@);
        }
    }
    Ok(())
}

/// Timestamp rules at first registration: every minted graphic and the
/// new collection record carry the registration's stamp as their creation
/// timestamp, and none carries a last-modified timestamp yet.
pub proof fn lemma_register_timestamp_rules(
    s0: StateV,
    s1: StateV,
    cp: CollectionProposalV,
    gps: Seq<GraphicProposalV>,
    canister: Seq<char>,
    now: Seq<char>,
)
    requires
        register_shape(s0, s1, cp, gps, canister, now),
    ensures
        ({
            let k = s0.graphics.len() as int;
            let c = s1.collections.last();
            &&& forall|i: int|
                0 <= i < gps.len() ==> (#[trigger] s1.graphics[k + i]).registration_timestamp
                    == now && s1.graphics[k + i].update_timestamp is None
            &&& c.registration_timestamp == now
            &&& c.update_timestamp is None
        }),
{
    let k = s0.graphics.len() as int;
    let newg = s1.graphics.skip(k);
    let c = s1.collections.last();
    assert forall|i: int|
        0 <= i < gps.len() implies (#[trigger] s1.graphics[k + i]).registration_timestamp == now
        && s1.graphics[k + i].update_timestamp is None by {
        assert(s1.graphics[k + i] == newg[i]);
        assert(newg[i] == merged_graphic(None, gps[i], c.collection_id, newg[i].ogid, canister,
            now));
    }
}

/// Whether an update proposal would change anything: a tracked collection
/// field differs, or some graphic proposal counts as changed against the
/// graphics the collection owns.
pub open spec fn update_changed(
    s0: StateV,
    cid: u64,
    cp: CollectionProposalV,
    gps: Seq<GraphicProposalV>,
) -> bool {
    let oldg = s0.graphics.filter(owns_graphic(cid));
    match find_collection_spec(s0.collections, cid) {
        Some(c) => collection_fields_differ_spec(c, cp) || exists|i: int|
            0 <= i < gps.len() && graphic_changed(Some(oldg), #[trigger] gps[i]),
        None => false,
    }
}

/// How a successful update relates the new state to the old one: the
/// collection's prior records are dropped, the other records stand in
/// order, a run of reconciled graphics follows them, and the rebuilt
/// collection record closes the collection list under the same
/// identifier, with every minted identifier fresh.
pub open spec fn update_shape(
    s0: StateV,
    s1: StateV,
    cid: u64,
    cp: CollectionProposalV,
    gps: Seq<GraphicProposalV>,
    canister: Seq<char>,
    now: Seq<char>,
) -> bool {
    let kept = s0.graphics.filter(keeps_graphic(cid));
    let oldg = s0.graphics.filter(owns_graphic(cid));
    let oldc = find_collection_spec(s0.collections, cid);
    let k = kept.len() as int;
    let newg = s1.graphics.skip(k);
    let c = s1.collections.last();
    &&& s1.collections == s0.collections.filter(keeps_collection(cid)).push(c)
    &&& s1.graphics.len() == kept.len() + gps.len()
    &&& s1.graphics.subrange(0, k) == kept
    &&& forall|i: int|
        0 <= i < newg.len() ==> #[trigger] newg[i] == merged_graphic(
            Some(oldg),
            gps[i],
            cid,
            newg[i].ogid,
            canister,
            now,
        )
    &&& c == merged_collection(oldc, cp, gidseq_of(newg), cid, now)
    &&& c.collection_id == cid
    &&& forall|i: int|
        0 <= i < newg.len() ==> !has_key(s0.graphics, gid_key(), (#[trigger] newg[i]).ogid)
    &&& distinct_keys(newg, gid_key())
}

/// Replacing one collection's records in place leaves the invariant
/// intact.
proof fn lemma_update_preserves_inv(
    s0: StateV,
    s1: StateV,
    cid: u64,
    cp: CollectionProposalV,
    gps: Seq<GraphicProposalV>,
    canister: Seq<char>,
    now: Seq<char>,
)
    requires
        state_inv(s0),
        update_shape(s0, s1, cid, cp, gps, canister, now),
    ensures
        state_inv(s1),
{
    let keptc = s0.collections.filter(keeps_collection(cid));
    let kept = s0.graphics.filter(keeps_graphic(cid));
    let oldg = s0.graphics.filter(owns_graphic(cid));
    let k = kept.len() as int;
    let newg = s1.graphics.skip(k);
    let c = s1.collections.last();
    let nc = keptc.len() as int;
    lemma_filter_distinct_keys(s0.collections, keeps_collection(cid), cid_key());
    lemma_filter_distinct_keys(s0.graphics, keeps_graphic(cid), gid_key());
    assert forall|i: int, j: int| 0 <= i < j < s1.collections.len() implies cid_key()(
        #[trigger] s1.collections[i],
    ) != cid_key()(#[trigger] s1.collections[j]) by {
        if j < nc {
            assert(s1.collections[i] == keptc[i]);
            assert(s1.collections[j] == keptc[j]);
        } else {
            assert(s1.collections[j] == c);
            assert(s1.collections[i] == keptc[i]);
            lemma_filter_elem(s0.collections, keeps_collection(cid), i);
        }
    }
    assert forall|i: int, j: int| 0 <= i < j < s1.graphics.len() implies gid_key()(
        #[trigger] s1.graphics[i],
    ) != gid_key()(#[trigger] s1.graphics[j]) by {
        if j < k {
            assert(s1.graphics[i] == s1.graphics.subrange(0, k)[i]
                && s1.graphics.subrange(0, k)[i] == kept[i]);
            assert(s1.graphics[j] == s1.graphics.subrange(0, k)[j]
                && s1.graphics.subrange(0, k)[j] == kept[j]);
        } else if i < k {
            assert(s1.graphics[i] == s1.graphics.subrange(0, k)[i]
                && s1.graphics.subrange(0, k)[i] == kept[i]);
            assert(s1.graphics[j] == newg[j - k]);
            lemma_filter_elem(s0.graphics, keeps_graphic(cid), i);
            let mo = choose|mo: int|
                0 <= mo < s0.graphics.len() && #[trigger] s0.graphics[mo] == kept[i];
            if gid_key()(kept[i]) == newg[j - k].ogid {
                assert(gid_key()(s0.graphics[mo]) == newg[j - k].ogid);
                assert(has_key(s0.graphics, gid_key(), newg[j - k].ogid));
            }
        } else {
            assert(s1.graphics[i] == newg[i - k]);
            assert(s1.graphics[j] == newg[j - k]);
        }
    }
    assert forall|i: int, kk: int|
        0 <= i < s1.collections.len() && 0 <= kk < s1.collections[i].graphics.len() implies
        has_graphic_member(s1, s1.collections[i].collection_id,
            #[trigger] s1.collections[i].graphics[kk]) by {
        if i < nc {
            assert(s1.collections[i] == keptc[i]);
            lemma_filter_elem(s0.collections, keeps_collection(cid), i);
            let m = choose|m: int|
                0 <= m < s0.collections.len() && #[trigger] s0.collections[m] == keptc[i];
            assert(has_graphic_member(s0, s0.collections[m].collection_id,
                s0.collections[m].graphics[kk]));
            let mg = choose|mg: int|
                0 <= mg < s0.graphics.len() && (#[trigger] s0.graphics[mg]).ogid
                    == s0.collections[m].graphics[kk] && s0.graphics[mg].collection_id
                    == s0.collections[m].collection_id;
            assert(keeps_graphic(cid)(s0.graphics[mg]));
            lemma_filter_keeps(s0.graphics, keeps_graphic(cid), mg);
            let w = choose|w: int|
                0 <= w < kept.len() && #[trigger] kept[w] == s0.graphics[mg];
            assert(s1.graphics[w] == s1.graphics.subrange(0, k)[w]
                && s1.graphics.subrange(0, k)[w] == kept[w]);
            assert(s1.graphics[w].ogid == s1.collections[i].graphics[kk]
                && s1.graphics[w].collection_id == s1.collections[i].collection_id);
        } else {
            assert(s1.collections[i] == c);
            assert(c.graphics == gidseq_of(newg));
            assert(c.graphics[kk] == newg[kk].ogid);
            assert(newg[kk] == merged_graphic(Some(oldg), gps[kk], cid, newg[kk].ogid, canister,
                now));
            assert(s1.graphics[k + kk] == newg[kk]);
            assert(s1.graphics[k + kk].ogid == c.graphics[kk] && s1.graphics[k
                + kk].collection_id == c.collection_id);
        }
    }
    assert forall|m: int| 0 <= m < s1.graphics.len() implies has_key(s1.collections, cid_key(), (
    #[trigger] s1.graphics[m]).collection_id) by {
        if m < k {
            assert(s1.graphics[m] == s1.graphics.subrange(0, k)[m]
                && s1.graphics.subrange(0, k)[m] == kept[m]);
            lemma_filter_elem(s0.graphics, keeps_graphic(cid), m);
            let mo = choose|mo: int|
                0 <= mo < s0.graphics.len() && #[trigger] s0.graphics[mo] == kept[m];
            assert(has_key(s0.collections, cid_key(), s0.graphics[mo].collection_id));
            let ci = choose|ci: int|
                0 <= ci < s0.collections.len() && cid_key()(#[trigger] s0.collections[ci])
                    == s0.graphics[mo].collection_id;
            assert(keeps_graphic(cid)(kept[m]));
            assert(keeps_collection(cid)(s0.collections[ci]));
            lemma_filter_keeps(s0.collections, keeps_collection(cid), ci);
            let w = choose|w: int|
                0 <= w < keptc.len() && #[trigger] keptc[w] == s0.collections[ci];
            assert(s1.collections[w] == keptc[w]);
            assert(cid_key()(s1.collections[w]) == s1.graphics[m].collection_id);
        } else {
            assert(s1.graphics[m] == newg[m - k]);
            assert(newg[m - k] == merged_graphic(Some(oldg), gps[m - k], cid, newg[m - k].ogid,
                canister, now));
            assert(s1.collections[nc] == c);
            assert(cid_key()(s1.collections[nc]) == s1.graphics[m].collection_id);
        }
    }
}

/// An update proposal identical in every tracked field to the stored
/// collection record and, entity by natural key, to the stored graphics,
/// counts as no change: `try_update_collection` then fails with
/// `NoChange` and leaves the state untouched.
pub proof fn lemma_identical_update_is_no_change(
    s: StateV,
    cid: u64,
    cp: CollectionProposalV,
    gps: Seq<GraphicProposalV>,
)
    requires
        find_collection_spec(s.collections, cid) is Some,
        !collection_fields_differ_spec(find_collection_spec(s.collections, cid)->Some_0, cp),
        forall|i: int|
            0 <= i < gps.len() ==> ({
                let f = find_by_asset(s.graphics.filter(owns_graphic(cid)), (
                #[trigger] gps[i]).asset);
                f is Some && !graphic_fields_differ_spec(f->Some_0, gps[i])
            }),
    ensures
        !update_changed(s, cid, cp, gps),
{
    let oldg = s.graphics.filter(owns_graphic(cid));
    assert forall|i: int| 0 <= i < gps.len() implies !graphic_changed(Some(oldg), #[trigger] gps[i])
        by {
        assert(find_by_asset(oldg, gps[i].asset) is Some);
    }
}

/// Timestamp rules across an update: a graphic matched by its natural key
/// keeps its creation timestamp, and its last-modified timestamp is
/// carried forward unchanged when no tracked field differs and moves to
/// the update's stamp exactly when one does; a brand-new graphic is
/// stamped afresh; the rebuilt collection record keeps its creation
/// timestamp, and its last-modified timestamp moves only when a tracked
/// collection field differs.
pub proof fn lemma_update_timestamp_rules(
    s0: StateV,
    s1: StateV,
    cid: u64,
    cp: CollectionProposalV,
    gps: Seq<GraphicProposalV>,
    canister: Seq<char>,
    now: Seq<char>,
    i: int,
)
    requires
        update_shape(s0, s1, cid, cp, gps, canister, now),
        find_collection_spec(s0.collections, cid) is Some,
        0 <= i < gps.len(),
    ensures
        ({
            let oldg = s0.graphics.filter(owns_graphic(cid));
            let oldc = find_collection_spec(s0.collections, cid)->Some_0;
            let k = s0.graphics.filter(keeps_graphic(cid)).len() as int;
            let g = s1.graphics[k + i];
            let c = s1.collections.last();
            &&& match find_by_asset(oldg, gps[i].asset) {
                Some(o) => {
                    &&& g.registration_timestamp == o.registration_timestamp
                    &&& !graphic_fields_differ_spec(o, gps[i]) ==> g.update_timestamp
                        == o.update_timestamp
                    &&& graphic_fields_differ_spec(o, gps[i]) ==> g.update_timestamp == Some(now)
                },
                None => g.registration_timestamp == now && g.update_timestamp == Some(now),
            }
            &&& c.registration_timestamp == oldc.registration_timestamp
            &&& !collection_fields_differ_spec(oldc, cp) ==> c.update_timestamp
                == oldc.update_timestamp
            &&& collection_fields_differ_spec(oldc, cp) ==> c.update_timestamp == Some(now)
        }),
{
    let kept = s0.graphics.filter(keeps_graphic(cid));
    let k = kept.len() as int;
    let newg = s1.graphics.skip(k);
    assert(newg[i] == s1.graphics[k + i]);
    assert(newg[i] == merged_graphic(Some(s0.graphics.filter(owns_graphic(cid))), gps[i], cid,
        newg[i].ogid, canister, now));
}

/// Round-trip persistence: a state equal to a copy of the original, as
/// `set_state` leaves after being handed what `get_state` returned, is
/// equal in every field to the original.
pub proof fn lemma_snapshot_round_trip(src: StateV, copied: StateV, restored: StateV)
    requires
        copied == src,
        restored == copied,
    ensures
        restored == src,
{
}

/// Updates an existing collection from a metadata blob: validates the
/// blob, requires the collection to exist, reconciles against its stored
/// records, refuses a proposal that changes nothing, and otherwise
/// replaces the collection's records atomically under the same
/// identifier. On any failure nothing is written.
pub fn try_update_collection<C: Clock>(
    s: &mut RegistryState,
    clock: &mut C,
    collection_id: u64,
    canister_id: &String,
    metadata_blob: &str,
) -> (r: Result<(), RegistryError>)
    ensures
        state_inv(old(s)@) ==> state_inv(final(s)@),
        !has_key(old(s)@.collections, cid_key(), collection_id) ==> r == Err::<
            (),
            RegistryError,
        >(RegistryError::NotFound) && final(s)@ == old(s)@,
        has_key(old(s)@.collections, cid_key(), collection_id) && spec_parse_collection(
            json_doc_of(metadata_blob@),
        ) is Err ==> r == Err::<(), RegistryError>(
            RegistryError::Parse(spec_parse_collection(json_doc_of(metadata_blob@))->Err_0),
        ) && final(s)@ == old(s)@,
        has_key(old(s)@.collections, cid_key(), collection_id) && spec_parse_collection(
            json_doc_of(metadata_blob@),
        ) is Ok && spec_parse_graphics(json_doc_of(metadata_blob@)) is Err ==> r == Err::<
            (),
            RegistryError,
        >(RegistryError::Parse(spec_parse_graphics(json_doc_of(metadata_blob@))->Err_0))
            && final(s)@ == old(s)@,
        has_key(old(s)@.collections, cid_key(), collection_id) && spec_parse_collection(
            json_doc_of(metadata_blob@),
        ) is Ok && spec_parse_graphics(json_doc_of(metadata_blob@)) is Ok && !update_changed(
            old(s)@,
            collection_id,
            spec_parse_collection(json_doc_of(metadata_blob@))->Ok_0,
            spec_parse_graphics(json_doc_of(metadata_blob@))->Ok_0,
        ) ==> r == Err::<(), RegistryError>(RegistryError::NoChange) && final(s)@ == old(s)@,
        has_key(old(s)@.collections, cid_key(), collection_id) && spec_parse_collection(
            json_doc_of(metadata_blob@),
        ) is Ok && spec_parse_graphics(json_doc_of(metadata_blob@)) is Ok && update_changed(
            old(s)@,
            collection_id,
            spec_parse_collection(json_doc_of(metadata_blob@))->Ok_0,
            spec_parse_graphics(json_doc_of(metadata_blob@))->Ok_0,
        ) ==> r == Ok::<(), RegistryError>(()) && (exists|tn: u64|
            update_shape(
                old(s)@,
                final(s)@,
                collection_id,
                spec_parse_collection(json_doc_of(metadata_blob@))->Ok_0,
                spec_parse_graphics(json_doc_of(metadata_blob@))->Ok_0,
                canister_id@,
                timestamp_text_of(tn),
            ) && (forall|t: u64|
                t <= tn ==> lex_leq(timestamp_text_of(t), timestamp_text_of(tn)))),
{
    let ghost s0 = s@;
    proof {
        lemma_find_collection_has_key(s0.collections, collection_id);
    }
    let old_c = match find_collection(s, collection_id) {
        Some(c) => c,
        None => {
            return Err(RegistryError::NotFound);
        },
    };
    let cp = match parse_collection(metadata_blob) {
        Ok(p) => p,
        Err(f) => {
            return Err(RegistryError::Parse(f));
        },
    };
    let gps = match parse_graphics(metadata_blob) {
        Ok(p) => p,
        Err(f) => {
            return Err(RegistryError::Parse(f));
        },
    };
    let ghost cpv = cp@;
    let ghost gseq = gps@;
    let ghost gpsv = proposals_view(gps@);
    let old_graphics = collect_graphics_of(&s.registered_graphics, collection_id);
    let changed_c = collection_fields_differ(&old_c, &cp);
    let t_now = clock.now_nanos();
    let now = format_timestamp(t_now);
    let (new_gs, changed_g) = match index_graphics_differential(
        clock,
        canister_id,
        gps,
        collection_id,
        Some(&old_graphics),
        &s.registered_graphics,
        &now,
    ) {
        Ok(t) => t,
        Err(_) => unreached(),
    };
    proof {
        let oldgv = s0.graphics.filter(owns_graphic(collection_id));
        let ogv = crate::reconcile::old_graphics_view(Some(&old_graphics));
        assert(graphics_view(old_graphics@) == oldgv);
        assert(ogv == Some(oldgv));
        assert(update_changed(s0, collection_id, cpv, gpsv) == (changed_c || changed_g)) by {
            if changed_g {
                let i = choose|i: int|
                    0 <= i < gseq.len() && graphic_changed(ogv, (#[trigger] gseq[i])@);
                assert(gpsv[i] == gseq[i]@);
                assert(graphic_changed(Some(oldgv), gpsv[i]));
            }
            if !changed_c && !changed_g && update_changed(s0, collection_id, cpv, gpsv) {
                if !collection_fields_differ_spec(old_c@, cpv) {
                    let i = choose|i: int|
                        0 <= i < gpsv.len() && graphic_changed(Some(oldgv), #[trigger] gpsv[i]);
                    assert(gpsv[i] == gseq[i]@);
                    assert(graphic_changed(ogv, gseq[i]@));
                    assert(exists|k: int|
                        0 <= k < gseq.len() && graphic_changed(ogv, (#[trigger] gseq[k])@));
                    assert(changed_g);
                }
            }
        }
    }
    if !changed_c && !changed_g {
        return Err(RegistryError::NoChange);
    }
    let ghost newg_v = graphics_view(new_gs@);
    retain_graphics(&mut s.registered_graphics, collection_id);
    retain_collections(&mut s.registered_collections, collection_id);
    let new_c = match index_collection(cp, &new_gs, collection_id, Some(&old_c), &now) {
        Ok(c) => c,
        Err(_) => unreached(),
    };
    let ghost newc_v = new_c@;
    let _ = store_state(s, new_gs, new_c);
    proof {
        let kept = s0.graphics.filter(keeps_graphic(collection_id));
        let k = kept.len() as int;
        assert(s@.graphics.skip(k) =~= newg_v);
        assert(s@.graphics.subrange(0, k) =~= kept);
        assert(s@.collections.last() == newc_v);
        assert(gidseq_of(newg_v) =~= ogids_of(new_gs@));
        assert forall|i: int| 0 <= i < newg_v.len() implies !has_key(s0.graphics, gid_key(), (
        #[trigger] newg_v[i]).ogid) by {
            if has_key(s0.graphics, gid_key(), newg_v[i].ogid) {
                let j = choose|j: int|
                    0 <= j < s0.graphics.len() && gid_key()(#[trigger] s0.graphics[j])
                        == newg_v[i].ogid;
                assert(s0.graphics[j] == old(s).registered_graphics@[j]@);
                assert(false);
            }
        }
        assert(now@ == timestamp_text_of(t_now));
        assert(update_shape(s0, s@, collection_id, cpv, gpsv, canister_id@,
            timestamp_text_of(t_now)));
        assert(forall|t: u64|
            t <= t_now ==> lex_leq(timestamp_text_of(t), timestamp_text_of(t_now)));
        let doc = json_doc_of(metadata_blob@);
        assert(spec_parse_collection(doc)->Ok_0 == cpv);
        assert(spec_parse_graphics(doc)->Ok_0 == gpsv);
        assert(old(s)@ == s0);
        assert(exists|tn: u64|
            update_shape(old(s)@, s@, collection_id, spec_parse_collection(doc)->Ok_0,
                spec_parse_graphics(doc)->Ok_0, canister_id@, timestamp_text_of(tn)) && (
            forall|t: u64| t <= tn ==> lex_leq(timestamp_text_of(t), timestamp_text_of(tn))));
        if state_inv(s0) {
            lemma_update_preserves_inv(s0, s@, collection_id, cpv, gpsv, canister_id@, now@);
        }
    }
    Ok(())
}

} // verus!
