use og_backend::clock::{get_current_timestamp, Clock};
use og_backend::errors::{ParseFault, RegistryError};
use og_backend::queries::{try_fetch_collection, try_fetch_collections, try_fetch_graphic,
    try_fetch_graphics};
use og_backend::records::RegistryState;
use og_backend::store::{find_collection, get_state, init_state, set_state,
    try_register_collection, try_unregister_collection, try_update_collection};

/// A scripted time source: starts at a fixed moment and advances one
/// second per reading.
struct TickClock {
    t: u64,
}

impl TickClock {
    fn new() -> TickClock {
        // 2021-01-01 00:00:00 UTC in nanoseconds.
        TickClock { t: 1_609_459_200_000_000_000 }
    }
}

impl Clock for TickClock {
    fn now_nanos(&mut self) -> u64 {
        let t = self.t;
        self.t += 1_000_000_000;
        t
    }
}

/// A time source that never advances, to force identifier collisions to
/// fall back to the direct search.
struct StuckClock;

impl Clock for StuckClock {
    fn now_nanos(&mut self) -> u64 {
        42
    }
}

const BLOB_FOO: &str =
    r#"{"collection":{"title":"Foo"},"graphics":[{"asset":"/a.png","title":"A"}]}"#;
const BLOB_FOO2: &str =
    r#"{"collection":{"title":"Foo2"},"graphics":[{"asset":"/a.png","title":"A"}]}"#;

fn addr() -> String {
    String::from("aaaaa-aa")
}

fn registered_state() -> (RegistryState, TickClock, u64) {
    let mut s = init_state();
    let mut clock = TickClock::new();
    try_register_collection(&mut s, &mut clock, &addr(), BLOB_FOO).unwrap();
    let ids = try_fetch_collections(&s).unwrap();
    assert_eq!(ids.len(), 1);
    let cid = ids[0];
    (s, clock, cid)
}

#[test]
fn register_creates_collection_and_graphic() {
    let (s, _clock, cid) = registered_state();
    let info = try_fetch_collection(&s, cid).unwrap();
    assert_eq!(info.title, "Foo");
    assert_eq!(info.description, None);
    assert_eq!(info.artist, None);
    assert_eq!(info.external_link, None);
    assert_eq!(info.update_timestamp, None);
    let gids = try_fetch_graphics(&s, cid).unwrap();
    assert_eq!(gids.len(), 1);
    let g = try_fetch_graphic(&s, gids[0]).unwrap();
    assert_eq!(g.asset, "/a.png");
    assert_eq!(g.title, "A");
    assert_eq!(g.description, None);
    assert_eq!(g.collection_id, cid);
    assert_eq!(g.update_timestamp, None);
    assert_eq!(g.canister_id, "aaaaa-aa");
}

#[test]
fn register_stamps_creation_timestamp() {
    let (s, _clock, cid) = registered_state();
    let info = try_fetch_collection(&s, cid).unwrap();
    assert!(info.registration_timestamp.starts_with("2021-01-01 00:00:0"));
    let gids = try_fetch_graphics(&s, cid).unwrap();
    let g = try_fetch_graphic(&s, gids[0]).unwrap();
    assert!(g.registration_timestamp.starts_with("2021-01-01 00:00:0"));
}

#[test]
fn identical_update_is_no_change() {
    let (mut s, mut clock, cid) = registered_state();
    let before = get_state(&s);
    let r = try_update_collection(&mut s, &mut clock, cid, &addr(), BLOB_FOO);
    assert_eq!(r, Err(RegistryError::NoChange));
    // State is untouched, field by field.
    let b = try_fetch_collection(&before, cid).unwrap();
    let a = try_fetch_collection(&s, cid).unwrap();
    assert_eq!(a.title, b.title);
    assert_eq!(a.registration_timestamp, b.registration_timestamp);
    assert_eq!(a.update_timestamp, b.update_timestamp);
    assert_eq!(try_fetch_graphics(&s, cid).unwrap(), try_fetch_graphics(&before, cid).unwrap());
}

#[test]
fn changed_update_stamps_and_preserves() {
    let (mut s, mut clock, cid) = registered_state();
    let before = try_fetch_collection(&s, cid).unwrap();
    let old_gid = try_fetch_graphics(&s, cid).unwrap()[0];
    let old_g = try_fetch_graphic(&s, old_gid).unwrap();
    let r = try_update_collection(&mut s, &mut clock, cid, &addr(), BLOB_FOO2);
    assert_eq!(r, Ok(()));
    let after = try_fetch_collection(&s, cid).unwrap();
    assert_eq!(after.title, "Foo2");
    // Creation timestamp of the collection is carried forward; a fresh
    // last-modified timestamp appears.
    assert_eq!(after.registration_timestamp, before.registration_timestamp);
    assert!(after.update_timestamp.is_some());
    // The unchanged graphic keeps its creation timestamp and still has no
    // last-modified timestamp.
    let gids = try_fetch_graphics(&s, cid).unwrap();
    assert_eq!(gids.len(), 1);
    let g = try_fetch_graphic(&s, gids[0]).unwrap();
    assert_eq!(g.asset, "/a.png");
    assert_eq!(g.title, "A");
    assert_eq!(g.registration_timestamp, old_g.registration_timestamp);
    assert_eq!(g.update_timestamp, None);
}

#[test]
fn update_with_changed_graphic_stamps_it() {
    let (mut s, mut clock, cid) = registered_state();
    let blob = r#"{"collection":{"title":"Foo"},"graphics":[{"asset":"/a.png","title":"B"}]}"#;
    let old_g = {
        let gid = try_fetch_graphics(&s, cid).unwrap()[0];
        try_fetch_graphic(&s, gid).unwrap()
    };
    assert_eq!(try_update_collection(&mut s, &mut clock, cid, &addr(), blob), Ok(()));
    let gid = try_fetch_graphics(&s, cid).unwrap()[0];
    let g = try_fetch_graphic(&s, gid).unwrap();
    assert_eq!(g.title, "B");
    assert_eq!(g.registration_timestamp, old_g.registration_timestamp);
    assert!(g.update_timestamp.is_some());
}

#[test]
fn update_missing_collection_is_not_found() {
    let mut s = init_state();
    let mut clock = TickClock::new();
    let r = try_update_collection(&mut s, &mut clock, 7, &addr(), BLOB_FOO);
    assert_eq!(r, Err(RegistryError::NotFound));
}

#[test]
fn update_checks_existence_before_the_blob() {
    // Update requires the collection to exist before anything else: with
    // the collection absent, even a malformed blob yields NotFound.
    let mut s = init_state();
    let mut clock = TickClock::new();
    let r = try_update_collection(&mut s, &mut clock, 7, &addr(), "not json");
    assert_eq!(r, Err(RegistryError::NotFound));
}

#[test]
fn unregister_cascades() {
    let (mut s, _clock, cid) = registered_state();
    let gid = try_fetch_graphics(&s, cid).unwrap()[0];
    assert_eq!(try_unregister_collection(&mut s, cid), Ok(()));
    assert_eq!(try_fetch_collection(&s, cid).unwrap_err(), RegistryError::NotFound);
    assert_eq!(try_fetch_graphics(&s, cid).unwrap_err(), RegistryError::NotFound);
    assert_eq!(try_fetch_graphic(&s, gid).unwrap_err(), RegistryError::NotFound);
    assert!(try_fetch_collections(&s).unwrap().is_empty());
}

#[test]
fn unregister_missing_collection_is_not_found() {
    let (mut s, _clock, cid) = registered_state();
    assert_eq!(try_unregister_collection(&mut s, cid), Ok(()));
    assert_eq!(try_unregister_collection(&mut s, cid), Err(RegistryError::NotFound));
}

#[test]
fn unregister_leaves_other_collections_alone() {
    let mut s = init_state();
    let mut clock = TickClock::new();
    try_register_collection(&mut s, &mut clock, &addr(), BLOB_FOO).unwrap();
    let other = r#"{"collection":{"title":"Bar"},"graphics":[{"asset":"/b.png","title":"B"}]}"#;
    try_register_collection(&mut s, &mut clock, &addr(), other).unwrap();
    let ids = try_fetch_collections(&s).unwrap();
    assert_eq!(ids.len(), 2);
    assert_eq!(try_unregister_collection(&mut s, ids[0]), Ok(()));
    let left = try_fetch_collections(&s).unwrap();
    assert_eq!(left, vec![ids[1]]);
    let gids = try_fetch_graphics(&s, ids[1]).unwrap();
    assert_eq!(try_fetch_graphic(&s, gids[0]).unwrap().asset, "/b.png");
}

#[test]
fn identifiers_are_pairwise_distinct() {
    let mut s = init_state();
    let mut clock = TickClock::new();
    let blob2 = r#"{"collection":{"title":"Bar"},"graphics":[
        {"asset":"/b.png","title":"B"},{"asset":"/c.png","title":"C"}]}"#;
    try_register_collection(&mut s, &mut clock, &addr(), BLOB_FOO).unwrap();
    try_register_collection(&mut s, &mut clock, &addr(), blob2).unwrap();
    let cids = try_fetch_collections(&s).unwrap();
    assert_eq!(cids.len(), 2);
    assert_ne!(cids[0], cids[1]);
    let mut gids: Vec<u64> = Vec::new();
    for c in &cids {
        gids.extend(try_fetch_graphics(&s, *c).unwrap());
    }
    assert_eq!(gids.len(), 3);
    for i in 0..gids.len() {
        for j in (i + 1)..gids.len() {
            assert_ne!(gids[i], gids[j]);
        }
    }
}

#[test]
fn member_lists_resolve_to_owned_graphics() {
    let mut s = init_state();
    let mut clock = TickClock::new();
    let blob2 = r#"{"collection":{"title":"Bar"},"graphics":[
        {"asset":"/b.png","title":"B"},{"asset":"/c.png","title":"C"}]}"#;
    try_register_collection(&mut s, &mut clock, &addr(), BLOB_FOO).unwrap();
    try_register_collection(&mut s, &mut clock, &addr(), blob2).unwrap();
    for c in try_fetch_collections(&s).unwrap() {
        for gid in try_fetch_graphics(&s, c).unwrap() {
            let g = try_fetch_graphic(&s, gid).unwrap();
            assert_eq!(g.ogid, gid);
            assert_eq!(g.collection_id, c);
        }
    }
}

#[test]
fn snapshot_round_trip_preserves_every_field() {
    let (s, _clock, cid) = registered_state();
    let snapshot = get_state(&s);
    let mut restored = init_state();
    set_state(&mut restored, snapshot);
    let a = try_fetch_collection(&s, cid).unwrap();
    let b = try_fetch_collection(&restored, cid).unwrap();
    assert_eq!(a.collection_id, b.collection_id);
    assert_eq!(a.title, b.title);
    assert_eq!(a.description, b.description);
    assert_eq!(a.artist, b.artist);
    assert_eq!(a.external_link, b.external_link);
    assert_eq!(a.registration_timestamp, b.registration_timestamp);
    assert_eq!(a.update_timestamp, b.update_timestamp);
    let ga = try_fetch_graphics(&s, cid).unwrap();
    let gb = try_fetch_graphics(&restored, cid).unwrap();
    assert_eq!(ga, gb);
    let x = try_fetch_graphic(&s, ga[0]).unwrap();
    let y = try_fetch_graphic(&restored, gb[0]).unwrap();
    assert_eq!(x.ogid, y.ogid);
    assert_eq!(x.collection_id, y.collection_id);
    assert_eq!(x.asset, y.asset);
    assert_eq!(x.title, y.title);
    assert_eq!(x.description, y.description);
    assert_eq!(x.registration_timestamp, y.registration_timestamp);
    assert_eq!(x.update_timestamp, y.update_timestamp);
    assert_eq!(x.canister_id, y.canister_id);
}

#[test]
fn find_collection_returns_stored_record() {
    let (s, _clock, cid) = registered_state();
    let c = find_collection(&s, cid).unwrap();
    assert_eq!(c.collection_id, cid);
    assert_eq!(c.title, "Foo");
    assert!(find_collection(&s, cid.wrapping_add(1)).is_none());
}

#[test]
fn duplicate_asset_paths_are_allowed() {
    let mut s = init_state();
    let mut clock = TickClock::new();
    let blob = r#"{"collection":{"title":"Foo"},"graphics":[
        {"asset":"/a.png","title":"A"},{"asset":"/a.png","title":"A2"}]}"#;
    try_register_collection(&mut s, &mut clock, &addr(), blob).unwrap();
    let cid = try_fetch_collections(&s).unwrap()[0];
    let gids = try_fetch_graphics(&s, cid).unwrap();
    assert_eq!(gids.len(), 2);
    assert_ne!(gids[0], gids[1]);
}

#[test]
fn stuck_clock_still_mints_distinct_identifiers() {
    let mut s = init_state();
    let mut clock = StuckClock;
    let blob = r#"{"collection":{"title":"Foo"},"graphics":[
        {"asset":"/a.png","title":"A"},{"asset":"/a.png","title":"B"}]}"#;
    try_register_collection(&mut s, &mut clock, &addr(), blob).unwrap();
    let cid = try_fetch_collections(&s).unwrap()[0];
    let gids = try_fetch_graphics(&s, cid).unwrap();
    assert_eq!(gids.len(), 2);
    assert_ne!(gids[0], gids[1]);
}

#[test]
fn current_timestamp_renders_civil_time() {
    let mut clock = TickClock::new();
    assert_eq!(get_current_timestamp(&mut clock), "2021-01-01 00:00:00");
    assert_eq!(get_current_timestamp(&mut clock), "2021-01-01 00:00:01");
}

/// A time source pinned to the largest representable reading.
struct MaxClock;

impl Clock for MaxClock {
    fn now_nanos(&mut self) -> u64 {
        u64::MAX
    }
}

#[test]
fn timestamp_is_nineteen_characters_for_every_reading() {
    let mut clock = TickClock::new();
    assert_eq!(get_current_timestamp(&mut clock).len(), 19);
    let mut max_clock = MaxClock;
    let far = get_current_timestamp(&mut max_clock);
    assert_eq!(far.len(), 19);
    assert!(far.starts_with("2554-"));
}

#[test]
fn timestamps_order_as_their_readings() {
    let mut clock = TickClock::new();
    let earlier = get_current_timestamp(&mut clock);
    let later = get_current_timestamp(&mut clock);
    assert!(earlier <= later);
    // A fresh last-modified stamp never precedes the creation stamp.
    let (mut s, mut update_clock, cid) = registered_state();
    let creation = try_fetch_collection(&s, cid).unwrap().registration_timestamp;
    assert_eq!(try_update_collection(&mut s, &mut update_clock, cid, &addr(), BLOB_FOO2), Ok(()));
    let modified = try_fetch_collection(&s, cid).unwrap().update_timestamp.unwrap();
    assert!(creation <= modified);
}

#[test]
fn update_mints_fresh_graphic_identifiers() {
    // Every update mints a brand-new identifier for each graphic, even
    // for one whose content did not change; the prior identifier stops
    // resolving.
    let (mut s, mut clock, cid) = registered_state();
    let old_gid = try_fetch_graphics(&s, cid).unwrap()[0];
    assert_eq!(try_update_collection(&mut s, &mut clock, cid, &addr(), BLOB_FOO2), Ok(()));
    let new_gid = try_fetch_graphics(&s, cid).unwrap()[0];
    assert_ne!(new_gid, old_gid);
    assert_eq!(try_fetch_graphic(&s, old_gid).unwrap_err(), RegistryError::NotFound);
}

#[test]
fn update_parse_error_leaves_existing_collection_alone() {
    let (mut s, mut clock, cid) = registered_state();
    let r = try_update_collection(&mut s, &mut clock, cid, &addr(),
        r#"{"collection":{"title":"Foo"}}"#);
    assert_eq!(r, Err(RegistryError::Parse(ParseFault::MissingGraphics)));
    assert_eq!(try_fetch_collection(&s, cid).unwrap().title, "Foo");
    assert_eq!(try_fetch_graphics(&s, cid).unwrap().len(), 1);
}

#[test]
fn register_rejects_bad_blob_without_writing() {
    let mut s = init_state();
    let mut clock = TickClock::new();
    let r = try_register_collection(&mut s, &mut clock, &addr(), r#"{"graphics":[]}"#);
    assert_eq!(r, Err(RegistryError::Parse(ParseFault::MissingCollection)));
    assert!(try_fetch_collections(&s).unwrap().is_empty());
}
